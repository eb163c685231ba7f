//! The tinySA serial spectrum analyser.

pub mod abort;
pub mod discovery;
pub mod input;
pub mod protocol;
pub mod reader;
pub mod scan;
pub mod startup;
pub mod worker;

pub use input::BasicInput;
