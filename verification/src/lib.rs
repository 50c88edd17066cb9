//! An agent toolset that drives a browser and runs local shell commands:
//! the accessibility-snapshot model, snapshot rendering, the scripts sent
//! to pages, and what each tool answers for each outcome.

pub mod text;
pub mod props;
pub mod dom;
pub mod render;
pub mod shell;
pub mod session;
pub mod reports;
pub mod laws;
