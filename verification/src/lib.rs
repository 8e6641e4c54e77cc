//! Decision logic of a desktop-application performance harness: configuration
//! parsing, path placement of the stand's service files, the stand and schema
//! state machines, the measurement plan, process selection for accounting and
//! termination, and the textual layout of reports.

pub mod text;
pub mod paths;
pub mod config;
pub mod instance;
pub mod plan;
pub mod processes;
pub mod layout;
pub mod gpu;
