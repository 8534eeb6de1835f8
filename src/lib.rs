//! Greedy macro-nutrient mixing: finds piece counts of ingredients whose blended
//! carbohydrate / fat / protein ratio comes closest to a target ratio.
//!
//! All arithmetic is exact integer arithmetic: densities are fixed-point
//! micrograms per kcal, ratios are fixed-point parts per million, and the cost
//! of a proposal is an integer in (parts per million) squared.
pub mod error;
pub mod nutrition;
pub mod proposal;
pub mod target;
pub mod constraints;
pub mod optimizer;
pub mod projection;
