//! The verified core of a page that renders with WebGPU inside a web worker:
//! the message protocol and the worker's dispatch decisions, the pointer
//! gesture tracker of the page, colour parsing, and the text the page shows.

pub mod thousands;
pub mod colour;
pub mod gesture;
pub mod protocol;
pub mod worker;
pub mod text;
