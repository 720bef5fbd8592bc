//! Sandbox manager: selects the sandbox of the platform and says how commands are run.

use crate::common::{run_unsandboxed, runs_as_given, LaunchError};
use crate::host::{Host, Platform};
use crate::platform::macos::{seatbelt_args, MACOS_PATH_TO_SEATBELT_EXECUTABLE};
use crate::platform::{run_sandboxed, runs_sandboxed, Launch};
use crate::policy::{SandboxMode, SandboxPolicy};
use vstd::prelude::*;

verus! {

/// The type of OS-level sandbox to use.
#[derive(Clone, Copy, Debug, PartialEq, Eq, Structural)]
pub enum SandboxType {
    /// No sandboxing.
    NoSandbox,
    /// macOS sandbox-exec (Seatbelt).
    MacosSeatbelt,
    /// Linux Landlock LSM + bubblewrap.
    LinuxLandlock,
    /// Windows Restricted Token + ACL.
    WindowsRestrictedToken,
}

/// The sandbox of the platform, if it has one.
pub open spec fn default_sandbox(platform: Platform) -> Option<SandboxType> {
    match platform {
        Platform::MacOs => Some(SandboxType::MacosSeatbelt),
        Platform::Linux => Some(SandboxType::LinuxLandlock),
        Platform::Windows => Some(SandboxType::WindowsRestrictedToken),
        Platform::Other => None,
    }
}

impl SandboxType {
    /// The metric tag for the sandbox type.
    pub open spec fn tag(self) -> Seq<char> {
        match self {
            SandboxType::NoSandbox => "none"@,
            SandboxType::MacosSeatbelt => "seatbelt"@,
            SandboxType::LinuxLandlock => "landlock"@,
            SandboxType::WindowsRestrictedToken => "windows_restricted_token"@,
        }
    }

    /// Returns a metric tag for the sandbox type.
    pub fn as_metric_tag(self) -> (r: &'static str)
        ensures
            r@ == self.tag(),
    {
        match self {
            SandboxType::NoSandbox => "none",
            SandboxType::MacosSeatbelt => "seatbelt",
            SandboxType::LinuxLandlock => "landlock",
            SandboxType::WindowsRestrictedToken => "windows_restricted_token",
        }
    }

    /// Returns the platform-default sandbox type, if available.
    pub fn platform_default(platform: Platform) -> (r: Option<SandboxType>)
        ensures
            r == default_sandbox(platform),
    {
        match platform {
            Platform::MacOs => Some(SandboxType::MacosSeatbelt),
            Platform::Linux => Some(SandboxType::LinuxLandlock),
            Platform::Windows => Some(SandboxType::WindowsRestrictedToken),
            Platform::Other => None,
        }
    }
}

/// Preference for sandboxing.
#[derive(Clone, Copy, Debug, PartialEq, Eq, Structural)]
pub enum SandboxablePreference {
    /// Automatically decide based on policy.
    Auto,
    /// Require sandboxing.
    Require,
    /// Forbid sandboxing.
    Forbid,
}

impl Default for SandboxablePreference {
    fn default() -> (r: Self)
        ensures
            r == SandboxablePreference::Auto,
    {
        SandboxablePreference::Auto
    }
}

/// The sandbox type for a policy and a preference: none if sandboxing is forbidden, or with full
/// access unless it is required; otherwise that of the platform.
pub open spec fn selected(
    mode: SandboxMode,
    pref: SandboxablePreference,
    platform: Platform,
) -> SandboxType {
    if pref is Forbid || (pref is Auto && mode is FullAccess) {
        SandboxType::NoSandbox
    } else {
        match default_sandbox(platform) {
            Some(t) => t,
            None => SandboxType::NoSandbox,
        }
    }
}

/// Manages sandbox selection and command execution.
pub struct SandboxManager;

impl Default for SandboxManager {
    fn default() -> (r: Self)
        ensures
            r == SandboxManager,
    {
        SandboxManager
    }
}

/// Whether `r` is what executing the command comes to: an error for an empty command, the command
/// as it is with full access, and the sandbox of the platform otherwise.
pub open spec fn executes(
    r: Result<Launch, LaunchError>,
    policy: SandboxPolicy,
    command: Seq<Seq<char>>,
    cwd: Seq<char>,
    env_args: Seq<Seq<char>>,
    timeout_ms: u64,
    host: &Host,
) -> bool {
    match r {
        Ok(launch) => command.len() > 0 && if policy.mode is FullAccess {
            launch matches Launch::Direct(run) && runs_as_given(
                run,
                command,
                cwd,
                env_args,
                timeout_ms,
            )
        } else {
            runs_sandboxed(launch, policy, command, cwd, env_args, timeout_ms, host)
        },
        Err(LaunchError::NoCommand) => command.len() == 0,
        Err(LaunchError::Unsupported) => command.len() > 0 && !(policy.mode is FullAccess)
            && host.platform is Other,
    }
}

impl SandboxManager {
    /// Create a new sandbox manager.
    pub fn new() -> (r: Self)
        ensures
            r == SandboxManager,
    {
        SandboxManager
    }

    /// Select the sandbox type based on policy and preference.
    pub fn select_sandbox_type(
        &self,
        policy: &SandboxPolicy,
        pref: SandboxablePreference,
        platform: Platform,
    ) -> (r: SandboxType)
        ensures
            r == selected(policy.mode, pref, platform),
    {
        let sandbox = match SandboxType::platform_default(platform) {
            Some(t) => t,
            None => SandboxType::NoSandbox,
        };
        match pref {
            SandboxablePreference::Forbid => SandboxType::NoSandbox,
            SandboxablePreference::Require => sandbox,
            SandboxablePreference::Auto => if policy.mode == SandboxMode::FullAccess {
                SandboxType::NoSandbox
            } else {
                sandbox
            },
        }
    }

    /// Says how to execute a command with the given sandbox policy.
    ///
    /// If the policy is `FullAccess`, it runs unsandboxed.
    /// Otherwise, it runs through the platform-specific sandbox.
    pub fn execute(
        &self,
        policy: SandboxPolicy,
        command: &[String],
        cwd: &str,
        env_args: &[String],
        timeout_ms: u64,
        host: &Host,
    ) -> (r: Result<Launch, LaunchError>)
        ensures
            executes(
                r,
                policy,
                command.deep_view(),
                cwd@,
                env_args.deep_view(),
                timeout_ms,
                host,
            ),
    {
        if command.len() == 0 {
            return Err(LaunchError::NoCommand);
        }
        if policy.mode == SandboxMode::FullAccess {
            match run_unsandboxed(command, cwd, env_args, timeout_ms) {
                Ok(run) => Ok(Launch::Direct(run)),
                Err(e) => Err(e),
            }
        } else {
            run_sandboxed(policy, command, cwd, env_args, timeout_ms, host)
        }
    }

    /// Says how to execute a command with auto-detected sandbox type.
    pub fn execute_auto(
        &self,
        policy: SandboxPolicy,
        command: &[String],
        cwd: &str,
        env_args: &[String],
        timeout_ms: u64,
        host: &Host,
    ) -> (r: Result<Launch, LaunchError>)
        ensures
            executes(
                r,
                policy,
                command.deep_view(),
                cwd@,
                env_args.deep_view(),
                timeout_ms,
                host,
            ),
    {
        self.execute(policy, command, cwd, env_args, timeout_ms, host)
    }
}

/// Where sandboxing is required, and where a policy restricts anything and it is not forbidden,
/// the sandbox of the platform is selected; otherwise none is.
pub proof fn law_selection(mode: SandboxMode, pref: SandboxablePreference, platform: Platform)
    ensures
        selected(mode, pref, platform) != SandboxType::NoSandbox <==> {
            &&& default_sandbox(platform) is Some
            &&& pref is Require || (pref is Auto && !(mode is FullAccess))
        },
        selected(mode, pref, platform) != SandboxType::NoSandbox ==> default_sandbox(platform) == Some(
            selected(mode, pref, platform),
        ),
{
}

/// A command that is not empty fails to launch exactly where its policy restricts it and the
/// platform has no sandbox.
pub proof fn law_no_sandbox_no_launch(
    r: Result<Launch, LaunchError>,
    policy: SandboxPolicy,
    command: Seq<Seq<char>>,
    cwd: Seq<char>,
    env_args: Seq<Seq<char>>,
    timeout_ms: u64,
    host: &Host,
)
    requires
        executes(r, policy, command, cwd, env_args, timeout_ms, host),
        command.len() > 0,
    ensures
        r is Err <==> selected(policy.mode, SandboxablePreference::Auto, host.platform)
            == SandboxType::NoSandbox && !(policy.mode is FullAccess),
{
}

/// Each platform has a sandbox of its own, which is selected where sandboxing is required; a platform
/// without one has none to select.
pub proof fn law_sandbox_of_platform(mode: SandboxMode)
    ensures
        selected(mode, SandboxablePreference::Require, Platform::Linux)
            == SandboxType::LinuxLandlock,
        selected(mode, SandboxablePreference::Require, Platform::MacOs)
            == SandboxType::MacosSeatbelt,
        selected(mode, SandboxablePreference::Require, Platform::Windows)
            == SandboxType::WindowsRestrictedToken,
        selected(mode, SandboxablePreference::Require, Platform::Other) == SandboxType::NoSandbox,
        default_sandbox(Platform::Other) is None,
{
}

/// A forbidden sandbox is never selected. Left to the policy, a sandbox is selected as if it were
/// required, unless the policy gives full access.
pub proof fn law_preferences(mode: SandboxMode, platform: Platform)
    ensures
        selected(mode, SandboxablePreference::Forbid, platform) == SandboxType::NoSandbox,
        selected(SandboxMode::FullAccess, SandboxablePreference::Auto, platform)
            == SandboxType::NoSandbox,
        mode == SandboxMode::WorkspaceWrite || mode == SandboxMode::ReadOnly ==> selected(
            mode,
            SandboxablePreference::Auto,
            platform,
        ) == selected(mode, SandboxablePreference::Require, platform),
{
}

/// The tags of the sandbox types, by which metrics tell them apart.
pub proof fn law_tags()
    ensures
        SandboxType::NoSandbox.tag() == "none"@,
        SandboxType::MacosSeatbelt.tag() == "seatbelt"@,
        SandboxType::LinuxLandlock.tag() == "landlock"@,
        SandboxType::WindowsRestrictedToken.tag() == "windows_restricted_token"@,
{
}

/// With full access, a command is started as it is: its first word with the other words, in the
/// directory and with the limit that were given.
pub proof fn law_full_access_runs_as_is(
    r: Result<Launch, LaunchError>,
    policy: SandboxPolicy,
    command: Seq<Seq<char>>,
    cwd: Seq<char>,
    env_args: Seq<Seq<char>>,
    timeout_ms: u64,
    host: &Host,
)
    requires
        executes(r, policy, command, cwd, env_args, timeout_ms, host),
        policy.mode == SandboxMode::FullAccess,
        command.len() > 0,
    ensures
        r matches Ok(Launch::Direct(run)) && run.program@ == command[0] && run.args.deep_view()
            == command.skip(1) && run.cwd@ == cwd && run.timeout_ms == timeout_ms,
{
    if let Ok(Launch::Direct(run)) = r {
        assert(run.line()[0] == run.program@);
        assert(run.line().skip(1) == run.args.deep_view());
    }
}

/// An empty command is never run, and the error says that there is no command.
pub proof fn law_empty_command(
    r: Result<Launch, LaunchError>,
    policy: SandboxPolicy,
    cwd: Seq<char>,
    env_args: Seq<Seq<char>>,
    timeout_ms: u64,
    host: &Host,
)
    requires
        executes(r, policy, Seq::empty(), cwd, env_args, timeout_ms, host),
    ensures
        r matches Err(e) && e == LaunchError::NoCommand,
{
}

/// Without full access, a command goes through the sandbox of the platform: a restricted token on
/// Windows, `sandbox-exec` on macOS, and on Linux bubblewrap or, where that is missing, Landlock.
/// Where there is no sandbox, it is not run.
pub proof fn law_restricted_command(
    r: Result<Launch, LaunchError>,
    policy: SandboxPolicy,
    command: Seq<Seq<char>>,
    cwd: Seq<char>,
    env_args: Seq<Seq<char>>,
    timeout_ms: u64,
    host: &Host,
)
    requires
        executes(r, policy, command, cwd, env_args, timeout_ms, host),
        policy.mode == SandboxMode::WorkspaceWrite || policy.mode == SandboxMode::ReadOnly,
        command.len() > 0,
    ensures
        host.platform == Platform::Windows ==> (r matches Ok(Launch::Restricted(run)) && run.cwd@
            == cwd && (timeout_ms == 0 ==> run.wait_ms == 0xffff_ffff) && (0 < timeout_ms
            <= 0xffff_ffff ==> run.wait_ms == timeout_ms)),
        host.platform == Platform::MacOs ==> (r matches Ok(Launch::Direct(run)) && run.program@
            == "/usr/bin/sandbox-exec"@ && run.cwd@ == cwd && run.timeout_ms == timeout_ms
            && run.args.deep_view().len() > command.len() && run.args.deep_view().skip(
            run.args.deep_view().len() - command.len(),
        ) == command),
        host.platform == Platform::Linux && host.bwrap is Some ==> (r matches Ok(
            Launch::Direct(run),
        ) && run.program@ == host.bwrap->0@ && run.cwd@ == cwd && run.timeout_ms == timeout_ms
            && run.args.deep_view().len() > command.len() && run.args.deep_view().skip(
            run.args.deep_view().len() - command.len(),
        ) == command),
        host.platform == Platform::Linux && host.bwrap is None ==> (r matches Ok(
            Launch::Landlocked { rules, run },
        ) && run.program@ == command[0] && run.args.deep_view() == command.skip(1) && run.cwd@
            == cwd && run.timeout_ms == timeout_ms),
        host.platform == Platform::Other ==> (r matches Err(e) && e == LaunchError::Unsupported),
{
    match r {
        Ok(Launch::Direct(run)) => {
            let line = run.line();
            let args = run.args.deep_view();
            assert(line[0] == run.program@);
            assert(line.skip(1) == args);
            assert(args.skip(args.len() - command.len()) == line.skip(line.len() - command.len()));
            if host.platform is MacOs {
                let front = seq![MACOS_PATH_TO_SEATBELT_EXECUTABLE@] + seatbelt_args(
                    policy,
                    command,
                    cwd,
                    host,
                );
                assert(line == front);
                assert(line.skip(line.len() - command.len()) == command);
            } else if host.platform is Linux {
                assert(line.skip(line.len() - command.len()) == command);
            }
        },
        Ok(Launch::Landlocked { rules, run }) => {
            assert(run.line()[0] == run.program@);
            assert(run.line().skip(1) == run.args.deep_view());
        },
        _ => {},
    }
}

} // verus!
