//! The application-wide error type and its user-facing message.

use vstd::prelude::*;
use crate::text::{dec_string, push_str, push_u64};

verus! {

/// Application-wide error type.
#[derive(Debug, Clone, PartialEq, Eq)]
pub enum AppError {
    Io { source: String, detail: Option<String> },
    GitCommand { command: String, stderr: String, stdout: String, detail: Option<String> },
    /// git refused a worktree-mutating operation because uncommitted local
    /// changes (or untracked files) would be overwritten.
    DirtyWorktree {
        /// Operation git refused, as git names it (`merge`/`checkout`/…).
        operation: String,
        /// Conflicting paths; empty when git doesn't list any.
        files: Vec<String>,
        /// Blocked paths are untracked files.
        untracked: bool,
        /// Raw stderr.
        stderr: String,
    },
    GitVersionTooOld { found: String, required: String },
    InvalidRepo { path: String },
    OperationCancelled,
    CredentialCancelled,
    /// The cached diff model referenced by a line-level operation is gone.
    DiffModelExpired,
    Parse { message: String },
    Internal { message: String },
    NotImplemented { feature: String },
    /// The AI assistant is disabled.
    AiDisabled,
    /// Incomplete or invalid AI configuration.
    AiConfig { message: String },
    /// Network failure reaching the AI provider.
    AiNetwork { message: String },
    /// HTTP 401/403 from the AI provider.
    AiAuth { status: u32, message: String },
    /// HTTP 429 from the AI provider.
    AiRateLimit { status: u32, message: String },
    /// Any other HTTP error from the AI provider.
    AiProvider { status: u32, message: String },
}

/// The message shown for an error, as its `Display` renders it.
pub open spec fn error_message(e: AppError) -> Seq<char> {
    match e {
        AppError::Io { source, .. } => "IO error: "@ + source@,
        AppError::GitCommand { command, .. } => "Git command failed: "@ + command@,
        AppError::DirtyWorktree { operation, files, .. } => if files@.len() == 0 {
            "You have uncommitted changes; "@ + operation@ + " refused"@
        } else {
            "Local changes to "@ + dec_string(files@.len()) + " file(s) would be overwritten by "@
                + operation@
        },
        AppError::GitVersionTooOld { found, required } => "Git version too old: "@ + found@
            + ", required: "@ + required@,
        AppError::InvalidRepo { path } => "Invalid repository: "@ + path@,
        AppError::OperationCancelled => "Operation cancelled by user"@,
        AppError::CredentialCancelled => "Credential cancelled by user"@,
        AppError::DiffModelExpired => "Diff model expired; please refresh"@,
        AppError::Parse { message } => "Parse error: "@ + message@,
        AppError::Internal { message } => "Internal error: "@ + message@,
        AppError::NotImplemented { feature } => "Not implemented: "@ + feature@,
        AppError::AiDisabled => "AI assistant is disabled (enable it in Settings → AI)"@,
        AppError::AiConfig { message } => "AI configuration error: "@ + message@,
        AppError::AiNetwork { message } => "AI network error: "@ + message@,
        AppError::AiAuth { status, message } => "AI authentication failed ("@ + dec_string(
            status as nat,
        ) + "): "@ + message@,
        AppError::AiRateLimit { status, message } => "AI rate limited ("@ + dec_string(
            status as nat,
        ) + "): "@ + message@,
        AppError::AiProvider { status, message } => "AI provider error ("@ + dec_string(
            status as nat,
        ) + "): "@ + message@,
    }
}

fn status_message(prefix: &str, status: u32, message: &String) -> (r: String)
    ensures
        r@ == prefix@ + dec_string(status as nat) + "): "@ + message@,
{
    let mut s = String::new();
    push_str(&mut s, prefix);
    push_u64(&mut s, status as u64);
    push_str(&mut s, "): ");
    push_str(&mut s, message.as_str());
    s
}

fn joined(a: &str, b: &String) -> (r: String)
    ensures
        r@ == a@ + b@,
{
    let mut s = String::new();
    push_str(&mut s, a);
    push_str(&mut s, b.as_str());
    s
}

impl AppError {
    /// The user-facing message (what `Display` shows).
    pub fn message(&self) -> (r: String)
        ensures
            r@ == error_message(*self),
    {
        match self {
            AppError::Io { source, .. } => joined("IO error: ", source),
            AppError::GitCommand { command, .. } => joined("Git command failed: ", command),
            AppError::DirtyWorktree { operation, files, .. } => {
                let mut s = String::new();
                if files.len() == 0 {
                    push_str(&mut s, "You have uncommitted changes; ");
                    push_str(&mut s, operation.as_str());
                    push_str(&mut s, " refused");
                } else {
                    push_str(&mut s, "Local changes to ");
                    push_u64(&mut s, files.len() as u64);
                    push_str(&mut s, " file(s) would be overwritten by ");
                    push_str(&mut s, operation.as_str());
                }
                s
            },
            AppError::GitVersionTooOld { found, required } => {
                let mut s = joined("Git version too old: ", found);
                push_str(&mut s, ", required: ");
                push_str(&mut s, required.as_str());
                s
            },
            AppError::InvalidRepo { path } => joined("Invalid repository: ", path),
            AppError::OperationCancelled => String::from_str("Operation cancelled by user"),
            AppError::CredentialCancelled => String::from_str("Credential cancelled by user"),
            AppError::DiffModelExpired => String::from_str("Diff model expired; please refresh"),
            AppError::Parse { message } => joined("Parse error: ", message),
            AppError::Internal { message } => joined("Internal error: ", message),
            AppError::NotImplemented { feature } => joined("Not implemented: ", feature),
            AppError::AiDisabled => String::from_str(
                "AI assistant is disabled (enable it in Settings → AI)",
            ),
            AppError::AiConfig { message } => joined("AI configuration error: ", message),
            AppError::AiNetwork { message } => joined("AI network error: ", message),
            AppError::AiAuth { status, message } => status_message(
                "AI authentication failed (",
                *status,
                message,
            ),
            AppError::AiRateLimit { status, message } => status_message(
                "AI rate limited (",
                *status,
                message,
            ),
            AppError::AiProvider { status, message } => status_message(
                "AI provider error (",
                *status,
                message,
            ),
        }
    }

    pub fn io(source: String) -> (r: Self)
        ensures
            r == (AppError::Io { source, detail: None }),
    {
        AppError::Io { source, detail: None }
    }

    pub fn io_with_detail(source: String, detail: String) -> (r: Self)
        ensures
            r == (AppError::Io { source, detail: Some(detail) }),
    {
        AppError::Io { source, detail: Some(detail) }
    }

    pub fn git_command(command: String, stderr: String, stdout: String) -> (r: Self)
        ensures
            r == (AppError::GitCommand { command, stderr, stdout, detail: None }),
    {
        AppError::GitCommand { command, stderr, stdout, detail: None }
    }

    pub fn git_command_with_detail(
        command: String,
        stderr: String,
        stdout: String,
        detail: String,
    ) -> (r: Self)
        ensures
            r == (AppError::GitCommand { command, stderr, stdout, detail: Some(detail) }),
    {
        AppError::GitCommand { command, stderr, stdout, detail: Some(detail) }
    }

    pub fn dirty_worktree(operation: String, files: Vec<String>, untracked: bool, stderr: String) -> (r:
        Self)
        ensures
            r == (AppError::DirtyWorktree { operation, files, untracked, stderr }),
    {
        AppError::DirtyWorktree { operation, files, untracked, stderr }
    }

    pub fn parse(message: String) -> (r: Self)
        ensures
            r == (AppError::Parse { message }),
    {
        AppError::Parse { message }
    }

    pub fn internal(message: String) -> (r: Self)
        ensures
            r == (AppError::Internal { message }),
    {
        AppError::Internal { message }
    }

    pub fn not_implemented(feature: String) -> (r: Self)
        ensures
            r == (AppError::NotImplemented { feature }),
    {
        AppError::NotImplemented { feature }
    }

    pub fn ai_config(message: String) -> (r: Self)
        ensures
            r == (AppError::AiConfig { message }),
    {
        AppError::AiConfig { message }
    }

    pub fn ai_network(message: String) -> (r: Self)
        ensures
            r == (AppError::AiNetwork { message }),
    {
        AppError::AiNetwork { message }
    }
}

} // verus!
