//! Records shell commands: a pseudo-terminal capture core that runs a child
//! command while mirroring and capturing its output, plus the pure logic of
//! the surrounding tool (command splitting, record assembly, history search,
//! statistics, and the interactive browser's state machine).

pub mod cli;
pub mod export;
pub mod models;
pub mod pty_capture;
pub mod recorder;
pub mod storage;
pub mod text;
pub mod tui_app;
pub mod tui_events;
