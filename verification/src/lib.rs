//! Consistency and propagation core of a reactive dataflow graph.

pub mod basis;
pub mod def_actor;
pub mod evaluator;
pub mod expr;
pub mod manager;
pub mod message;
pub mod names;
pub mod state;
