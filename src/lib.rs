//! Header parsing for a line-oriented publish/subscribe wire protocol.
//!
//! A frame is a header line, CRLF, an optional payload and a closing CRLF.
//! `frame` splits a frame, `scan` holds the byte-level token primitives and
//! `headers` the grammars of the five control lines. `laws` states and
//! proves what the grammars and the splitter guarantee for every input.
pub mod scan;
pub mod frame;
pub mod headers;
pub mod laws;
