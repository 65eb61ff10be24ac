//! Event/command dispatch engine for a guild-based chat automation service,
//! together with the per-guild versioned configuration store it depends on.
//!
//! The library is organised leaf-first:
//! - [`codec`]: encodes a (revision, initialized) pair into one integer.
//! - [`migrate`]: ordered up/down migration steps over a modeled guild database.
//! - [`pool`]: the single-writer / multi-reader connection discipline.
//! - [`store`]: guild bootstrap ("encounter") and per-guild key/value config.
//! - [`modules`]: immutable, startup-time module registration units.
//! - [`dispatch`]: the orchestrator: hook chains, the command pipeline and the
//!   interactive dispatch machine that an outer transport layer drives.
//! - [`roles`]: the permission command-hook and the role administration command.
//!
//! The chat-platform transport and the on-disk database are outside
//! collaborators: the dispatch machine tells its caller which hook or handler
//! to run next and the caller feeds the outcome back, so every decision this
//! crate makes is verified while the transport stays outside it.
use vstd::prelude::*;
use vstd::string::*;

pub mod codec;
pub mod dispatch;
pub mod config;
pub mod migrate;
pub mod modules;
pub mod pool;
pub mod roles;
pub mod store;
pub mod text;

verus! {

/// Errors produced by command parsing, hooks, handlers and the config store.
///
/// Silent variants produce a log entry only; every other variant carries a
/// user-visible message, echoed verbatim as a code block to the originating
/// channel by the dispatcher.
#[derive(Debug, Clone, PartialEq, Eq)]
pub enum CommanderError {
    /// Malformed command text; user-visible.
    ParseError(String),
    /// A config value failed its declared validator; user-visible.
    ValidationError { value: String, constraint: String },
    /// The user may not run the command; carries a user-facing reason.
    PermissionDenied(String),
    /// The user may not run the command; log only.
    PermissionDeniedSilent,
    /// The user needs the named role to run the command; user-visible.
    NeedRole(String),
    /// A config key was read before being set; never silently defaulted.
    ConfigMissing(String),
    /// A storage failure, surfaced as user-visible text.
    DatabaseError(String),
    /// A silent failure: log only, no reply.
    Silent,
    /// A silent failure with detail: log the detail, no reply.
    SilentError(String),
}

impl CommanderError {
    /// True of the variants that must not produce a reply in the channel.
    pub open spec fn spec_is_silent(self) -> bool {
        self is PermissionDeniedSilent || self is Silent || self is SilentError
    }

    /// Executable mirror of [`Self::spec_is_silent`].
    pub fn is_silent(&self) -> (r: bool)
        ensures
            r == self.spec_is_silent(),
    {
        match self {
            CommanderError::PermissionDeniedSilent => true,
            CommanderError::Silent => true,
            CommanderError::SilentError(_) => true,
            _ => false,
        }
    }

    /// The user-visible text of an outcome, echoed verbatim by the
    /// dispatcher. Silent variants render as their detail (empty for the
    /// detail-less ones); the dispatcher never sends those.
    pub open spec fn spec_message(self) -> Seq<char> {
        match self {
            CommanderError::ParseError(m) => "Parse error: "@ + m@,
            CommanderError::ValidationError { value, constraint } => "Invalid value "@ + value@
                + " for "@ + constraint@,
            CommanderError::PermissionDenied(m) => "Permission denied: "@ + m@,
            CommanderError::PermissionDeniedSilent => Seq::<char>::empty(),
            CommanderError::NeedRole(name) => "Needs role "@ + name@,
            CommanderError::ConfigMissing(key) => "Not configured: "@ + key@,
            CommanderError::DatabaseError(m) => "Database error: "@ + m@,
            CommanderError::Silent => Seq::<char>::empty(),
            CommanderError::SilentError(d) => d@,
        }
    }

    /// Executable mirror of [`Self::spec_message`].
    pub fn message(&self) -> (r: String)
        ensures
            r@ == self.spec_message(),
    {
        match self {
            CommanderError::ParseError(m) => String::from_str("Parse error: ").concat(m.as_str()),
            CommanderError::ValidationError { value, constraint } => String::from_str(
                "Invalid value ",
            ).concat(value.as_str()).concat(" for ").concat(constraint.as_str()),
            CommanderError::PermissionDenied(m) => String::from_str("Permission denied: ").concat(
                m.as_str(),
            ),
            CommanderError::PermissionDeniedSilent => String::new(),
            CommanderError::NeedRole(name) => String::from_str("Needs role ").concat(name.as_str()),
            CommanderError::ConfigMissing(key) => String::from_str("Not configured: ").concat(
                key.as_str(),
            ),
            CommanderError::DatabaseError(m) => String::from_str("Database error: ").concat(
                m.as_str(),
            ),
            CommanderError::Silent => String::new(),
            CommanderError::SilentError(d) => d.clone(),
        }
    }
}

/// The text of a reply as a code block, as the dispatcher renders every
/// user-visible error.
pub open spec fn spec_codeblock(s: Seq<char>) -> Seq<char> {
    "```"@ + s + "```"@
}

/// Executable mirror of [`spec_codeblock`].
pub fn codeblock(s: &str) -> (r: String)
    ensures
        r@ == spec_codeblock(s@),
{
    String::from_str("```").concat(s).concat("```")
}

/// Errors of the migration runner; reported per file, never aborting the
/// remaining files.
#[derive(Debug, Clone, PartialEq, Eq)]
pub enum MigrationError {
    /// The requested target revision is outside the known range.
    UnknownVersion,
    /// The requested move runs against the direction of the operation.
    InvalidDirection,
    /// A migration step could not be applied; carries the failing revision.
    StepFailed(u32),
}

} // verus!
