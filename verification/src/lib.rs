//! Integer core of a multi-threaded Mandelbrot plotter: the sample grid that
//! walks a plotting area pixel by pixel, the RGBA image that the escape counts
//! are painted into, and the decisions of the worker's reporting loop.

pub mod grid;
pub mod image;
pub mod worker;

