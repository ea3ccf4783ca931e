//! The job dispatch and result-ordering engine of a distributed parallel
//! command executor: command templates, the line-framed wire protocol, the
//! shared job queue and outcome map, retry bookkeeping, the node's command
//! registry, and the drain that prints results in input order.
use vstd::prelude::*;

pub mod args;
pub mod client;
pub mod codec;
pub mod decimal;
pub mod drain;
pub mod escape;
pub mod jobs;
pub mod redirection;
pub mod registry;
pub mod round_trip;
pub mod service;
pub mod source;
pub mod template;
pub mod template_laws;
pub mod text;
