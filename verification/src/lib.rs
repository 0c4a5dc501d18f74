use vstd::prelude::*;

pub mod model;
pub mod text;
pub mod validation;
pub mod driver_client;
pub mod laws;
pub mod framing;
pub mod registry;
pub mod cli_mode;
pub mod rate_set;
pub mod signal;
pub mod mock;
pub mod ipc_types;
pub mod panel;
pub mod cli_commands;
pub mod messages;
pub mod client_errors;
pub mod logger;
pub mod listener;
pub mod lazy;
pub mod py_list;
pub mod py_monitors;
pub mod client_steps;
pub mod bindings;
pub mod session;
pub mod pipe_server;

verus! {

} // verus!
