//! Vertex model, remote-call protocol and a summing user-defined function
//! for a graph whose vertices may live on several machines.

pub mod graph;
pub mod rpc;
pub mod udf;
pub mod vertex;
