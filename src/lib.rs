//! Job processing and real-time fan-out for text-to-music generation.
pub mod config;
pub mod fanout;
pub mod job;
pub mod processor;
pub mod tensor;
