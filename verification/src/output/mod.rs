//! Capture file output.
pub mod pcapng_writer;
