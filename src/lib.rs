//! Production planning for resource-chain economies: a catalog of resources and
//! recipes, a request made of rules and an objective, its formulation as a linear
//! program, the interpretation of the solver's outcome as a factory, and the
//! per-resource report of a factory.
//!
//! Every real quantity is held in fixed point, as a whole number of millionths.
pub mod world;

pub mod lp;

pub mod builder;

pub mod factory;

pub mod laws;
