//! Stream-viewer logic for RTCM3 correction streams: decoding results,
//! message logging, hex dumps, configuration and the viewer's state.
pub mod text;
pub mod hexdump;
pub mod rtcm;
pub mod log;
pub mod config;
pub mod viewer;
pub mod reader;
