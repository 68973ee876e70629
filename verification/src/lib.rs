//! Verified building blocks of a system-information fetcher: a strict decoder
//! for the EDID base block that display firmware exposes, and the pure
//! computations behind the report lines.

pub mod byte_reader;
pub mod cpu;
pub mod desktop;
pub mod displays;
pub mod gpus;
pub mod grouping;
pub mod model;
pub mod packages;
pub mod pattern;
pub mod report;
pub mod shell;
pub mod terminal;
pub mod text;
pub mod truecolor;
pub mod uptime;
