//! Supervision of containerized applications, written as pure decision logic.
//!
//! The crate holds no sockets, tasks or clocks. Each moving part is a state
//! machine that is handed what happened and answers with what to do next:
//!
//! * [`signal::StopSignal`] carries the operator's latest intent to a loop;
//! * [`session::RunSession`] is one run of an application's main process,
//!   with the publication of its network address around it;
//! * [`manager::Manager`] is the restart loop of one application;
//! * [`registry::ManagerMap`] keeps one manager per application identity.
//!
//! A host program performs the actions (starting processes, inspecting
//! containers, talking to the network controller) and reports their results
//! back as events.

pub mod address;
pub mod error;
pub mod inspect;
pub mod keys;
pub mod manager;
pub mod manifest;
pub mod outcome;
pub mod registry;
pub mod session;
pub mod signal;

pub use address::{parse_ipv4, Ipv4Address};
pub use error::{Error, ErrorKind};
pub use inspect::{resolve_address, Inspection, Network};
pub use manager::{Directive, LoopEvent, Manager, Phase};
pub use manifest::{InterfaceId, InterfaceSecret, Manifest, PackageId, Version};
pub use outcome::{settle, Outcome, ProcessExit};
pub use registry::ManagerMap;
pub use session::{run_main, RunSession, SessionAction, SessionEvent, Stage};
pub use signal::{OnStop, StopSignal};
