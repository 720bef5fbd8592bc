//! The sandboxes of the platforms.

pub mod linux;
pub mod macos;
pub mod windows;

use crate::common::{runs_as_given, Invocation, LaunchError};
use crate::host::{Host, Platform};
use crate::platform::linux::{runs_confined, LandlockRule};
use crate::platform::macos::{seatbelt_args, MACOS_PATH_TO_SEATBELT_EXECUTABLE};
use crate::platform::windows::{runs_restricted, RestrictedRun};
use crate::policy::SandboxPolicy;
use vstd::prelude::*;

verus! {

/// How a command is to be run.
#[derive(Debug)]
pub enum Launch {
    /// By starting a program.
    Direct(Invocation),
    /// By putting Landlock rules in force, where there are any, and starting a program.
    Landlocked {
        /// The rules.
        rules: Option<Vec<LandlockRule>>,
        /// The program.
        run: Invocation,
    },
    /// With a restricted token.
    Restricted(RestrictedRun),
}

/// Whether `launch` runs the command inside the sandbox of the platform.
pub open spec fn runs_sandboxed(
    launch: Launch,
    policy: SandboxPolicy,
    command: Seq<Seq<char>>,
    cwd: Seq<char>,
    env_args: Seq<Seq<char>>,
    timeout_ms: u64,
    host: &Host,
) -> bool {
    match host.platform {
        Platform::Windows => launch matches Launch::Restricted(run) && runs_restricted(
            run,
            policy,
            command,
            cwd,
            env_args,
            timeout_ms,
            host,
        ),
        Platform::Linux => runs_confined(
            launch,
            policy,
            command,
            cwd,
            env_args,
            timeout_ms,
            host,
        ),
        Platform::MacOs => launch matches Launch::Direct(run) && runs_as_given(
            run,
            seq![MACOS_PATH_TO_SEATBELT_EXECUTABLE@] + seatbelt_args(policy, command, cwd, host),
            cwd,
            env_args,
            timeout_ms,
        ),
        Platform::Other => false,
    }
}

/// Says how to run a command inside the sandbox of the platform.
pub fn run_sandboxed(
    policy: SandboxPolicy,
    command: &[String],
    cwd: &str,
    env_args: &[String],
    timeout_ms: u64,
    host: &Host,
) -> (r: Result<Launch, LaunchError>)
    requires
        host.platform is Linux && host.bwrap is None ==> command@.len() > 0,
    ensures
        match r {
            Ok(launch) => {
                &&& host.platform is Windows ==> command@.len() > 0
                &&& runs_sandboxed(
                    launch,
                    policy,
                    command.deep_view(),
                    cwd@,
                    env_args.deep_view(),
                    timeout_ms,
                    host,
                )
            },
            Err(LaunchError::NoCommand) => host.platform is Windows && command@.len() == 0,
            Err(LaunchError::Unsupported) => host.platform is Other,
        },
{
    match host.platform {
        Platform::Windows => match windows::run_sandboxed(
            policy,
            command,
            cwd,
            env_args,
            timeout_ms,
            host,
        ) {
            Ok(run) => Ok(Launch::Restricted(run)),
            Err(e) => Err(e),
        },
        Platform::Linux => Ok(
            linux::run_sandboxed(policy, command, cwd, env_args, timeout_ms, host),
        ),
        Platform::MacOs => Ok(
            Launch::Direct(
                macos::run_sandboxed(policy, command, cwd, env_args, timeout_ms, host),
            ),
        ),
        Platform::Other => Err(LaunchError::Unsupported),
    }
}

} // verus!
