//! Verified core of the OpenPRoT platform services: the orchestrator's
//! boot-sequence state machine, its configuration schema and capability
//! seams, and the MCTP wire and transport framing logic.

pub mod model;
pub mod machine_spec;
pub mod machine;
pub mod pending_queue;
pub mod run_spec;
pub mod machine_laws;
pub mod mctp_error;
pub mod wire;
pub mod server;
pub mod client;
pub mod requester;
pub mod config;
pub mod api;
pub mod capabilities;
pub mod i3c;
pub mod loopback;
pub mod serial;
pub mod resiliency;
pub mod mock_board;
pub mod driver;
pub mod shell;
