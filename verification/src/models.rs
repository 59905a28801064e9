//! The records the tool stores: one executed command, one shell session, and
//! derived statistics. Timestamps are plain nanosecond counts since the Unix
//! epoch, so every consumer can compare and subtract them directly.

use vstd::prelude::*;

verus! {

/// A single command execution record.
pub struct Command {
    /// Unique identifier (a UUID in its hyphenated text form).
    pub id: String,
    /// The command line that was executed.
    pub command: String,
    /// Output captured from the command (may be truncated).
    pub output: String,
    /// Exit code the command returned.
    pub exit_code: i32,
    /// Working directory the command ran in.
    pub cwd: String,
    /// When the command started, in nanoseconds since the Unix epoch.
    pub started_at: i64,
    /// How long the command ran, in milliseconds.
    pub duration_ms: u64,
    /// Identifier of the shell session this command belongs to.
    pub session_id: String,
    /// Shell in use (bash, zsh, fish, ...).
    pub shell: String,
    /// Host the command ran on.
    pub hostname: String,
    /// User who ran the command.
    pub username: String,
}

/// A shell session record.
pub struct Session {
    /// Unique identifier (a UUID in its hyphenated text form).
    pub id: String,
    /// When the session started, in nanoseconds since the Unix epoch.
    pub started_at: i64,
    /// When the session ended, or `None` while it is still active.
    pub ended_at: Option<i64>,
    /// Host the session ran on.
    pub hostname: String,
    /// Shell in use (bash, zsh, fish, ...).
    pub shell: String,
    /// Number of commands recorded in this session.
    pub command_count: u32,
}

/// A light index over the stored history, for fast queries.
pub struct SearchIndex {
    /// Total number of commands in the index.
    pub commands_count: usize,
    /// When the index was last updated, in nanoseconds since the Unix epoch.
    pub last_updated: i64,
    /// Every session identifier seen so far.
    pub sessions: Vec<String>,
}

/// Statistics over the stored history. The success rate is kept as a pair of
/// exact counts (`successful_commands` out of `total_commands`); turning it
/// into a percentage is left to the presentation layer.
pub struct Stats {
    /// Total number of commands recorded.
    pub total_commands: usize,
    /// Total number of sessions recorded.
    pub total_sessions: usize,
    /// Number of commands that exited with code 0.
    pub successful_commands: usize,
    /// The most frequently used command lines, most used first,
    /// each with its use count.
    pub most_used_commands: Vec<(String, usize)>,
}

} // verus!
