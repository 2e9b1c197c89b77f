//! Generation of batch-job launch scripts from one template.
//!
//! A job's resource shape is a [`combo::Combo`]: nodes, ranks per node and
//! threads per rank. The shapes come either from the divisors of the per-node
//! core count or from `nodes,ranks,threads` arguments; a template is filled
//! in for each of them and the result is stored under a name derived from
//! the shape.

pub mod combo;
pub mod number;
pub mod run;
pub mod script;
pub mod template;
pub mod text;
