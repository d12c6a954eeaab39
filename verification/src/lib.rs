//! A Fast.com speed test for the terminal: what a test asks for, how it is measured, and what the
//! screen shows of it. The program around the library does the requests, the drawing and the
//! floating-point arithmetic.

pub mod binary64;
pub mod cli;
pub mod discovery;
pub mod download;
pub mod latency;
pub mod layout;
pub mod run;
pub mod screen;
pub mod speedtest;
pub mod style;
pub mod text;
pub mod tui;
