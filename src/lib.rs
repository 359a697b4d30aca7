pub mod apply;
pub mod error;
pub mod laws;
pub mod lines;
pub mod model;
pub mod options;
pub mod parse;
pub mod paths;
pub mod reconstruct;
pub mod screen;
