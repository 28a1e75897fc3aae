//! Recording of pointer position and pressed keys into CSV, and the session
//! controller that decides when a recording starts, stops and is written.
pub mod text;
pub mod record;
pub mod session;
pub mod reader;
