//! Tables of a queue simulation and of random-number generators: sizing the tables,
//! laying out their headings and cells, turning cumulative probabilities into intervals
//! of random numbers, and choosing which server takes each customer.

pub mod display;
pub mod grid;
pub mod headings;
pub mod intervals;
pub mod queue;
pub mod tabs;
