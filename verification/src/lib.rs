//! BitFun Sandbox: rules for running commands in an OS-level sandbox.
//!
//! Decides, from a policy, which paths a command may write to, which commands are blocked outright,
//! and how a command is run inside the sandbox of the platform: restricted tokens and access
//! control lists on Windows, bubblewrap and Landlock on Linux, sandbox-exec (Seatbelt) on macOS.
//!
//! Nothing here touches the machine. What a decision depends on (the platform, environment
//! variables, which paths exist) comes in a [`host::Host`], and what is to be done comes out as a
//! [`platform::Launch`].

pub mod args;
pub mod common;
pub mod danger;
pub mod dots;
pub mod env;
pub mod expand;
pub mod guard;
pub mod host;
pub mod interpreter;
pub mod manager;
pub mod path_order;
pub mod paths;
pub mod pattern;
pub mod platform;
pub mod policy;
pub mod rules;
pub mod shell_parser;
pub mod text;

pub use common::ExecResult;
pub use guard::{is_path_allowed, PathCheckResult};
pub use manager::{SandboxManager, SandboxType, SandboxablePreference};
pub use policy::{NetworkPolicy, SandboxMode, SandboxPolicy};
pub use rules::is_null_device;
pub use shell_parser::{extract_write_paths, has_interpreter_inline_code, is_dangerous_command};
