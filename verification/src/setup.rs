//! Preparing hosts: running a setup script with administrator rights on this
//! host, turning incoming SSH off again, and connecting both ends of a job
//! to Tailscale.
//!
//! Each is a state machine: the caller runs what an action asks for (a
//! command, the password dialog) and hands back what happened.
use vstd::prelude::*;
use crate::commands::{listening_port, privileged_remote, privileged_text, strs, STOP_SSH_HELPER};
use crate::endpoint::{
    line, moved, moved_to, notices_view, opt_str, port_script, ready, ssh_call, ssh_line,
    status_script, Notice,
};
use crate::store::Server;
use crate::tailscale::{address_of, running, tailscale_address, tailscale_running, TailscaleStatus};
use crate::text::{owned, parse_unsigned, push_str, string_of, trim};

verus! {

/// How a command's output is shown while it runs.
pub enum OutputMode {
    /// Streamed to the activity log.
    Live,
    /// Kept for the caller only.
    Capture,
    /// Streamed, with Tailscale sign-in links turned into a button for the
    /// device with this label.
    Tailscale(String),
}

pub open spec fn mode_view(m: OutputMode) -> (u8, Seq<char>) {
    match m {
        OutputMode::Live => (0, Seq::empty()),
        OutputMode::Capture => (1, Seq::empty()),
        OutputMode::Tailscale(l) => (2, l@),
    }
}

fn copy_mode(m: &OutputMode) -> (r: OutputMode)
    ensures
        mode_view(r) == mode_view(*m),
{
    match m {
        OutputMode::Live => OutputMode::Live,
        OutputMode::Capture => OutputMode::Capture,
        OutputMode::Tailscale(l) => OutputMode::Tailscale(l.clone()),
    }
}

/// How the setup script gets administrator rights.
pub enum Elevation {
    /// Already root: `sh` runs it.
    Root,
    /// Through `sudo`.
    Sudo,
    /// Through `pkexec` and a desktop Polkit agent.
    Pkexec,
}

/// Where a host setup stands.
pub enum HostStage {
    Start,
    /// Waiting to learn whether sudo has cached credentials.
    Checking,
    /// Waiting for the administrator password.
    Asking,
    /// Waiting for the setup script, run this way.
    Running(Elevation),
    Over,
}

/// What happened since the last action.
pub enum HostEvent {
    /// Go on (to start).
    Resume,
    /// The command finished: its output, or why it failed.
    Ran(Result<String, String>),
    /// The password dialog's answer, or why there is none.
    Password(Result<String, String>),
}

/// What the caller does next.
pub enum HostAction {
    /// Run `program` with `args`, giving it `input` on standard input, and
    /// report `Ran`.
    Run { program: String, args: Vec<String>, input: Option<String>, mode: OutputMode },
    /// Ask the user for the administrator password (the dialog names the
    /// purpose) and report `Password`.
    AskPassword(String),
    /// The setup is over.
    Finish(Result<(), String>),
    /// Nothing: the event did not fit the stage.
    Idle,
}

/// Running a setup script on this host with administrator rights.
pub struct HostSetup {
    pub script: String,
    /// What the setup is for, as the password dialog and errors name it.
    pub purpose: String,
    pub mode: OutputMode,
    pub windows: bool,
    /// Whether the app runs as root.
    pub root: bool,
    /// Whether `sudo` is on the search path.
    pub sudo: bool,
    /// Whether `pkexec` is on the search path.
    pub pkexec: bool,
    pub stage: HostStage,
}

/// `a` runs `program args` with `input` and output shown as `mode`.
pub open spec fn run_is(
    a: HostAction,
    program: Seq<char>,
    args: Seq<Seq<char>>,
    input: Option<Seq<char>>,
    mode: (u8, Seq<char>),
) -> bool {
    a matches HostAction::Run { program: p, args: v, input: i, mode: m } && p@ == program && strs(
        v@,
    ) == args && mode_view(m) == mode && match i {
        Some(x) => input == Some(x@),
        None => input is None,
    }
}

pub open spec fn finish_err(a: HostAction, e: Seq<char>) -> bool {
    a matches HostAction::Finish(Err(m)) && m@ == e
}

pub open spec fn windows_error(purpose: Seq<char>) -> Seq<char> {
    "For "@ + purpose
        + ", install and sign in to the Windows Tailscale app, then retry. Incoming SSH setup is Linux-only."@
}

pub open spec fn no_elevation_error() -> Seq<char> {
    "Host setup requires sudo or pkexec. Install sudo, then retry host setup."@
}

/// How a failed setup run is reported, by the way it ran.
pub open spec fn setup_error(how: Elevation, purpose: Seq<char>, e: Seq<char>) -> Seq<char> {
    match how {
        Elevation::Root => e,
        Elevation::Sudo => "Host setup ("@ + purpose + "): "@ + e,
        Elevation::Pkexec => "Host setup ("@ + purpose + "): "@ + e
            + " Install sudo to use the in-app password dialog, or start a desktop Polkit agent."@,
    }
}

pub open spec fn sh_args(script: Seq<char>) -> Seq<Seq<char>> {
    seq!["-c"@, script]
}

pub open spec fn sudo_cached_args(script: Seq<char>) -> Seq<Seq<char>> {
    seq!["-n"@, "--"@, "sh"@, "-c"@, script]
}

pub open spec fn sudo_password_args(script: Seq<char>) -> Seq<Seq<char>> {
    seq!["-S"@, "-p"@, ""@, "--"@, "sh"@, "-c"@, script]
}

pub open spec fn pkexec_args(script: Seq<char>) -> Seq<Seq<char>> {
    seq!["--disable-internal-agent"@, "sh"@, "-c"@, script]
}

/// What the first step does: Windows cannot host; root runs the script
/// with `sh`; with sudo, first ask whether it has cached credentials;
/// otherwise pkexec; with neither the setup fails.
pub open spec fn start_outcome(s: HostSetup, f: HostSetup, a: HostAction) -> bool {
    let script = s.script@;
    if s.windows {
        finish_err(a, windows_error(s.purpose@)) && f.stage is Over
    } else if s.root {
        run_is(a, "sh"@, sh_args(script), None, mode_view(s.mode)) && f.stage matches HostStage::Running(
            Elevation::Root,
        )
    } else if s.sudo {
        run_is(a, "sudo"@, seq!["-n"@, "-v"@], None, (1, Seq::empty())) && f.stage is Checking
    } else if s.pkexec {
        run_is(a, "pkexec"@, pkexec_args(script), None, mode_view(s.mode))
            && f.stage matches HostStage::Running(Elevation::Pkexec)
    } else {
        finish_err(a, no_elevation_error()) && f.stage is Over
    }
}

/// After the sudo check: a stop ends the setup; cached credentials run the
/// script without a password; otherwise the password is asked for.
pub open spec fn checked_outcome(s: HostSetup, f: HostSetup, cancelled: bool, cached: bool, a: HostAction) -> bool {
    if cancelled {
        finish_err(a, "Stopped."@) && f.stage is Over
    } else if cached {
        run_is(a, "sudo"@, sudo_cached_args(s.script@), None, mode_view(s.mode))
            && f.stage matches HostStage::Running(Elevation::Sudo)
    } else {
        (a matches HostAction::AskPassword(p) && p@ == s.purpose@) && f.stage is Asking
    }
}

/// After the password dialog: the script runs through sudo with the
/// password on its input, or the dialog's error ends the setup.
pub open spec fn password_outcome(s: HostSetup, f: HostSetup, answer: Result<String, String>, a: HostAction) -> bool {
    match answer {
        Ok(p) => run_is(a, "sudo"@, sudo_password_args(s.script@), Some(p@), mode_view(s.mode))
            && f.stage matches HostStage::Running(Elevation::Sudo),
        Err(e) => finish_err(a, e@) && f.stage is Over,
    }
}

/// After the script ran: done, or its failure as `setup_error` words it.
pub open spec fn ran_outcome(s: HostSetup, f: HostSetup, how: Elevation, res: Result<String, String>, a: HostAction) -> bool {
    f.stage is Over && match res {
        Ok(_) => a matches HostAction::Finish(Ok(())),
        Err(e) => finish_err(a, setup_error(how, s.purpose@, e@)),
    }
}

/// The setup's parameters stay as they were.
pub open spec fn same_setup(s: HostSetup, f: HostSetup) -> bool {
    f.script@ == s.script@ && f.purpose@ == s.purpose@ && mode_view(f.mode) == mode_view(s.mode)
        && f.windows == s.windows && f.root == s.root && f.sudo == s.sudo && f.pkexec == s.pkexec
}

/// One step of a host setup: the parameters stay; the stage and event
/// decide the action as the outcome functions above say; an event that does
/// not fit the stage changes nothing.
pub open spec fn host_step(s: HostSetup, f: HostSetup, cancelled: bool, event: HostEvent, r: HostAction) -> bool {
    same_setup(s, f) && match (s.stage, event) {
        (HostStage::Start, HostEvent::Resume) => start_outcome(s, f, r),
        (HostStage::Checking, HostEvent::Ran(res)) => checked_outcome(s, f, cancelled, res is Ok, r),
        (HostStage::Asking, HostEvent::Password(answer)) => password_outcome(s, f, answer, r),
        (HostStage::Running(how), HostEvent::Ran(res)) => ran_outcome(s, f, how, res, r),
        _ => r is Idle && f.stage == s.stage,
    }
}

fn push_arg(v: &mut Vec<String>, a: &str)
    ensures
        strs(final(v)@) == strs(old(v)@).push(a@),
{
    v.push(owned(a));
    assert(strs(final(v)@) =~= strs(old(v)@).push(a@));
}

fn run_action(program: &str, mut args: Vec<String>, script: &String, input: Option<String>, mode: &OutputMode) -> (r: HostAction)
    ensures
        r matches HostAction::Run { program: p, args: v, input: i, mode: m } && p@ == program@
            && strs(v@) == strs(args@).push(script@) && mode_view(m) == mode_view(*mode) && match i {
            Some(x) => input matches Some(y) && x@ == y@,
            None => input is None,
        },
{
    let ghost before = strs(args@);
    args.push(script.clone());
    assert(strs(args@) =~= before.push(script@));
    HostAction::Run { program: owned(program), args, input, mode: copy_mode(mode) }
}

fn error_text(how: &Elevation, purpose: &String, e: String) -> (r: String)
    ensures
        r@ == setup_error(*how, purpose@, e@),
{
    match how {
        Elevation::Root => e,
        Elevation::Sudo => {
            let mut out: Vec<char> = Vec::new();
            push_str(&mut out, "Host setup (");
            push_str(&mut out, purpose.as_str());
            push_str(&mut out, "): ");
            push_str(&mut out, e.as_str());
            string_of(&out)
        },
        Elevation::Pkexec => {
            let mut out: Vec<char> = Vec::new();
            push_str(&mut out, "Host setup (");
            push_str(&mut out, purpose.as_str());
            push_str(&mut out, "): ");
            push_str(&mut out, e.as_str());
            push_str(
                &mut out,
                " Install sudo to use the in-app password dialog, or start a desktop Polkit agent.",
            );
            string_of(&out)
        },
    }
}

impl HostSetup {
    /// A setup of `script` for `purpose`, on a host that is Windows or not,
    /// runs as root or not, and has sudo and pkexec or not.
    pub fn new(
        script: String,
        purpose: String,
        mode: OutputMode,
        windows: bool,
        root: bool,
        sudo: bool,
        pkexec: bool,
    ) -> (r: HostSetup)
        ensures
            r.script@ == script@,
            r.purpose@ == purpose@,
            mode_view(r.mode) == mode_view(mode),
            r.windows == windows && r.root == root && r.sudo == sudo && r.pkexec == pkexec,
            r.stage is Start,
    {
        HostSetup { script, purpose, mode, windows, root, sudo, pkexec, stage: HostStage::Start }
    }

    /// Takes what happened and says what to do next. An event that does not
    /// fit the stage changes nothing.
    pub fn step(&mut self, cancelled: bool, event: HostEvent) -> (r: HostAction)
        ensures
            host_step(*old(self), *final(self), cancelled, event, r),
    {
        let mut stage = HostStage::Over;
        std::mem::swap(&mut stage, &mut self.stage);
        match (stage, event) {
            (HostStage::Start, HostEvent::Resume) => {
                if self.windows {
                    let mut out: Vec<char> = Vec::new();
                    push_str(&mut out, "For ");
                    push_str(&mut out, self.purpose.as_str());
                    push_str(
                        &mut out,
                        ", install and sign in to the Windows Tailscale app, then retry. Incoming SSH setup is Linux-only.",
                    );
                    HostAction::Finish(Err(string_of(&out)))
                } else if self.root {
                    self.stage = HostStage::Running(Elevation::Root);
                    let mut args: Vec<String> = Vec::new();
                    assert(strs(args@) =~= Seq::<Seq<char>>::empty());
                    push_arg(&mut args, "-c");
                    let a = run_action("sh", args, &self.script, None, &self.mode);
                    assert(seq!["-c"@].push(self.script@) =~= sh_args(self.script@));
                    a
                } else if self.sudo {
                    self.stage = HostStage::Checking;
                    let mut args: Vec<String> = Vec::new();
                    assert(strs(args@) =~= Seq::<Seq<char>>::empty());
                    push_arg(&mut args, "-n");
                    push_arg(&mut args, "-v");
                    assert(strs(args@) =~= seq!["-n"@, "-v"@]);
                    HostAction::Run { program: owned("sudo"), args, input: None, mode: OutputMode::Capture }
                } else if self.pkexec {
                    self.stage = HostStage::Running(Elevation::Pkexec);
                    let mut args: Vec<String> = Vec::new();
                    assert(strs(args@) =~= Seq::<Seq<char>>::empty());
                    push_arg(&mut args, "--disable-internal-agent");
                    push_arg(&mut args, "sh");
                    push_arg(&mut args, "-c");
                    assert(strs(args@) =~= seq!["--disable-internal-agent"@, "sh"@, "-c"@]);
                    let a = run_action("pkexec", args, &self.script, None, &self.mode);
                    assert(seq!["--disable-internal-agent"@, "sh"@, "-c"@].push(self.script@)
                        =~= pkexec_args(self.script@));
                    a
                } else {
                    HostAction::Finish(
                        Err(owned("Host setup requires sudo or pkexec. Install sudo, then retry host setup.")),
                    )
                }
            },
            (HostStage::Checking, HostEvent::Ran(res)) => {
                if cancelled {
                    HostAction::Finish(Err(owned("Stopped.")))
                } else if res.is_ok() {
                    self.stage = HostStage::Running(Elevation::Sudo);
                    let mut args: Vec<String> = Vec::new();
                    assert(strs(args@) =~= Seq::<Seq<char>>::empty());
                    push_arg(&mut args, "-n");
                    push_arg(&mut args, "--");
                    push_arg(&mut args, "sh");
                    push_arg(&mut args, "-c");
                    assert(strs(args@) =~= seq!["-n"@, "--"@, "sh"@, "-c"@]);
                    let a = run_action("sudo", args, &self.script, None, &self.mode);
                    assert(seq!["-n"@, "--"@, "sh"@, "-c"@].push(self.script@) =~= sudo_cached_args(
                        self.script@,
                    ));
                    a
                } else {
                    self.stage = HostStage::Asking;
                    HostAction::AskPassword(self.purpose.clone())
                }
            },
            (HostStage::Asking, HostEvent::Password(answer)) => match answer {
                Ok(p) => {
                    self.stage = HostStage::Running(Elevation::Sudo);
                    let mut args: Vec<String> = Vec::new();
                    assert(strs(args@) =~= Seq::<Seq<char>>::empty());
                    push_arg(&mut args, "-S");
                    push_arg(&mut args, "-p");
                    push_arg(&mut args, "");
                    push_arg(&mut args, "--");
                    push_arg(&mut args, "sh");
                    push_arg(&mut args, "-c");
                    assert(strs(args@) =~= seq!["-S"@, "-p"@, ""@, "--"@, "sh"@, "-c"@]);
                    let a = run_action("sudo", args, &self.script, Some(p), &self.mode);
                    assert(seq!["-S"@, "-p"@, ""@, "--"@, "sh"@, "-c"@].push(self.script@)
                        =~= sudo_password_args(self.script@));
                    a
                },
                Err(e) => HostAction::Finish(Err(e)),
            },
            (HostStage::Running(how), HostEvent::Ran(res)) => match res {
                Ok(_) => HostAction::Finish(Ok(())),
                Err(e) => HostAction::Finish(Err(error_text(&how, &self.purpose, e))),
            },
            (stage, _) => {
                self.stage = stage;
                HostAction::Idle
            },
        }
    }
}

// ---------------------------------------------------------------------------
// Turning incoming SSH off
// ---------------------------------------------------------------------------

/// The command that turns incoming SSH off: as root, the host-control
/// script told to `disable`; otherwise the installed stop helper through
/// `sudo -n`, which never asks for a password. Windows has no incoming SSH
/// setup.
pub open spec fn disable_line(windows: bool, root: bool, control: Seq<char>) -> Result<(Seq<char>, Seq<Seq<char>>), Seq<char>> {
    if windows {
        Err("Incoming SSH setup is supported on Linux only."@)
    } else if root {
        Ok(("sh"@, seq!["-c"@, "set -- disable\n"@ + control]))
    } else {
        Ok(("sudo"@, seq!["-n"@, "--"@, STOP_SSH_HELPER@]))
    }
}

/// The program and arguments that turn incoming SSH off, given the
/// host-control script.
pub fn disable_command(windows: bool, root: bool, control: &str) -> (r: Result<(String, Vec<String>), String>)
    ensures
        match r {
            Ok((p, a)) => disable_line(windows, root, control@) == Ok::<(Seq<char>, Seq<Seq<char>>), Seq<char>>((p@, strs(a@))),
            Err(e) => disable_line(windows, root, control@) == Err::<(Seq<char>, Seq<Seq<char>>), Seq<char>>(e@),
        },
{
    if windows {
        return Err(owned("Incoming SSH setup is supported on Linux only."));
    }
    let mut args: Vec<String> = Vec::new();
    assert(strs(args@) =~= Seq::<Seq<char>>::empty());
    if root {
        push_arg(&mut args, "-c");
        let mut out: Vec<char> = Vec::new();
        push_str(&mut out, "set -- disable\n");
        push_str(&mut out, control);
        let body = string_of(&out);
        let ghost before = strs(args@);
        args.push(body);
        assert(strs(args@) =~= before.push("set -- disable\n"@ + control@));
        assert(strs(args@) =~= seq!["-c"@, "set -- disable\n"@ + control@]);
        Ok((owned("sh"), args))
    } else {
        push_arg(&mut args, "-n");
        push_arg(&mut args, "--");
        push_arg(&mut args, STOP_SSH_HELPER);
        assert(strs(args@) =~= seq!["-n"@, "--"@, STOP_SSH_HELPER@]);
        Ok((owned("sudo"), args))
    }
}

/// How a failed attempt to turn incoming SSH off is reported.
pub fn disable_error(e: &str) -> (r: String)
    ensures
        r@ == "Could not turn SSH off without a password: "@ + e@
            + " Run Connections > Prepare this host once to install the limited shutdown permission, then retry."@,
{
    let mut out: Vec<char> = Vec::new();
    push_str(&mut out, "Could not turn SSH off without a password: ");
    push_str(&mut out, e);
    push_str(
        &mut out,
        " Run Connections > Prepare this host once to install the limited shutdown permission, then retry.",
    );
    string_of(&out)
}

// ---------------------------------------------------------------------------
// Connecting both ends to Tailscale
// ---------------------------------------------------------------------------

/// Where a Tailscale setup stands.
pub enum TailscaleStage {
    Start,
    /// Waiting for this host's Tailscale status.
    LocalStatus,
    /// Preparing this host (see `TailscaleSetup::host`).
    Host,
    /// Waiting for the server's Tailscale status.
    ServerStatus,
    /// Waiting for the server's setup script.
    ServerSetup,
    /// Waiting for the server's status, to read its address.
    Address,
    /// Waiting for the port the server's SSH listens on; the address found.
    Port(String),
    /// Waiting for the test of SSH at this address and port.
    Verify(String, u16),
    Over,
}

/// What happened since the last action.
pub enum TailscaleEvent {
    Resume,
    /// `tailscale status --json` finished: the status, `None` when its
    /// output could not be read, or why the command failed.
    Status(Result<Option<TailscaleStatus>, String>),
    /// ssh finished: its output, or why it failed.
    Ran(Result<String, String>),
    /// What happened in the setup of this host.
    Host(HostEvent),
}

/// What the caller does next.
pub enum TailscaleAction {
    /// Run `tailscale status --json` on this host and report `Status`.
    LocalStatus,
    /// Do this for the setup of this host and report its event as `Host`.
    Host(HostAction),
    /// Run ssh with these arguments and report the status it prints as
    /// `Status`.
    ReadStatus(Vec<String>),
    /// Run ssh with these arguments, giving it `input`, and report `Ran`.
    Ssh { args: Vec<String>, input: Option<String>, mode: OutputMode },
    /// The setup is over.
    Finish(Result<(), String>),
    /// Nothing: the event did not fit the stage.
    Idle,
}

/// One step's notices and next action.
pub struct TailscaleStep {
    pub notices: Vec<Notice>,
    pub action: TailscaleAction,
}

/// Connecting this host and a server to Tailscale, and checking that the
/// server answers SSH at its Tailscale address.
pub struct TailscaleSetup {
    pub server: Server,
    /// The server's administrator password.
    pub sudo_password: String,
    /// The Tailscale setup script, for both ends.
    pub script: String,
    pub windows: bool,
    pub known_hosts: Option<String>,
    /// Whether `tailscale` is on this host's search path.
    pub tailscale: bool,
    /// The setup of this host.
    pub host: HostSetup,
    pub stage: TailscaleStage,
}

pub open spec fn here_ready_line() -> Seq<char> {
    "This host is already connected to Tailscale.\n"@
}

pub open spec fn here_preparing_line() -> Seq<char> {
    "Preparing Tailscale on this host...\n"@
}

pub open spec fn server_preparing_line() -> Seq<char> {
    "Preparing Tailscale on the server with its saved administrator credentials...\n"@
}

pub open spec fn server_ready_line() -> Seq<char> {
    "The server is already connected to Tailscale.\n"@
}

pub open spec fn verifying_line() -> Seq<char> {
    "Verifying SSH over Tailscale using the saved server identity...\n"@
}

pub open spec fn unverified_error() -> Seq<char> {
    "Tailscale is installed, but SSH over it could not be verified. Check that both devices are in the same Tailscale network and its access rules allow SSH. Your existing addresses were kept; retry setup after correcting access."@
}

/// A status that says Tailscale runs.
pub open spec fn status_running(res: Result<Option<TailscaleStatus>, String>) -> bool {
    res matches Ok(Some(st)) && running(st)
}

impl TailscaleSetup {
    /// ssh's arguments to run `script` on the server.
    pub open spec fn ssh_to(self, script: Seq<char>) -> Seq<Seq<char>> {
        ssh_line(self.server, self.windows, opt_str(self.known_hosts), false, script)
    }

    /// The setup's parameters stay as they were.
    pub open spec fn same(self, f: TailscaleSetup) -> bool {
        f.server == self.server && f.sudo_password@ == self.sudo_password@ && f.script@
            == self.script@ && f.windows == self.windows && f.known_hosts == self.known_hosts
            && f.tailscale == self.tailscale
    }
}

pub open spec fn no_notices(r: TailscaleStep) -> bool {
    notices_view(r.notices@) == Seq::<(bool, Seq<char>, u64, u16)>::empty()
}

pub open spec fn finished(r: TailscaleStep, e: Seq<char>) -> bool {
    r.action matches TailscaleAction::Finish(Err(m)) && m@ == e
}

/// The server's status is read next.
pub open spec fn reads_server(s: TailscaleSetup, f: TailscaleSetup, a: TailscaleAction) -> bool {
    a matches TailscaleAction::ReadStatus(v) && strs(v@) == s.ssh_to(status_script())
}

/// What the setup of this host said, passed on: its actions go to the
/// caller; its success moves on to the server's status; its failure ends
/// the setup.
pub open spec fn host_moved(s: TailscaleSetup, f: TailscaleSetup, cancelled: bool, ev: HostEvent, r: TailscaleStep) -> bool {
    match r.action {
        TailscaleAction::Host(a) => host_step(s.host, f.host, cancelled, ev, a) && !(a is Finish)
            && !(a is Idle) && f.stage is Host,
        TailscaleAction::Finish(Err(e)) => host_step(s.host, f.host, cancelled, ev, HostAction::Finish(Err(e)))
            && f.stage is Over,
        TailscaleAction::ReadStatus(_) => host_step(s.host, f.host, cancelled, ev, HostAction::Finish(Ok(())))
            && reads_server(s, f, r.action) && f.stage is ServerStatus,
        TailscaleAction::Idle => host_step(s.host, f.host, cancelled, ev, HostAction::Idle) && f.stage
            is Host,
        _ => false,
    }
}

/// This host's Tailscale runs: say so and read the server's status.
/// Otherwise say that it is being prepared and start the setup of this
/// host.
pub open spec fn local_outcome(s: TailscaleSetup, f: TailscaleSetup, here_running: bool, r: TailscaleStep) -> bool {
    if here_running {
        notices_view(r.notices@) == seq![line(here_ready_line())] && reads_server(s, f, r.action)
            && f.stage is ServerStatus && f.host == s.host
    } else {
        notices_view(r.notices@) == seq![line(here_preparing_line())] && host_moved(
            s,
            f,
            false,
            HostEvent::Resume,
            r,
        )
    }
}

/// The server's Tailscale runs: say so and read its address. Otherwise run
/// the setup script there with administrator rights, its password on the
/// input.
pub open spec fn server_outcome(s: TailscaleSetup, f: TailscaleSetup, res: Result<Option<TailscaleStatus>, String>, r: TailscaleStep) -> bool {
    if status_running(res) {
        notices_view(r.notices@) == seq![line(server_ready_line())] && reads_server(s, f, r.action)
            && f.stage is Address
    } else {
        notices_view(r.notices@) == seq![line(server_preparing_line())] && (r.action matches TailscaleAction::Ssh {
            args: v,
            input: Some(i),
            mode: m,
        } && strs(v@) == s.ssh_to(privileged_text(s.script@)) && i@ == s.sudo_password@ && mode_view(m)
            == (2u8, "Server"@)) && f.stage is ServerSetup
    }
}

/// After the server's setup: its failure ends the setup; else its address
/// is read.
pub open spec fn server_setup_outcome(s: TailscaleSetup, f: TailscaleSetup, res: Result<String, String>, r: TailscaleStep) -> bool {
    no_notices(r) && match res {
        Err(e) => finished(r, "Server Tailscale setup: "@ + e@) && f.stage is Over,
        Ok(_) => reads_server(s, f, r.action) && f.stage is Address,
    }
}

/// The server's address, from its status: then its SSH port is asked for.
pub open spec fn address_outcome(s: TailscaleSetup, f: TailscaleSetup, res: Result<Option<TailscaleStatus>, String>, r: TailscaleStep) -> bool {
    no_notices(r) && match res {
        Err(e) => finished(r, e@) && f.stage is Over,
        Ok(None) => finished(r, "Cannot read Tailscale status."@) && f.stage is Over,
        Ok(Some(st)) => match address_of(st) {
            Err(e) => finished(r, e) && f.stage is Over,
            Ok(h) => (r.action matches TailscaleAction::Ssh { args: v, input: None, mode: m } && strs(
                v@,
            ) == s.ssh_to(port_script()) && mode_view(m) == (1u8, Seq::<char>::empty()))
                && (f.stage matches TailscaleStage::Port(x) && x@ == h),
        },
    }
}

/// The port: then SSH is tried at the Tailscale address and that port.
pub open spec fn port_outcome(s: TailscaleSetup, f: TailscaleSetup, host: Seq<char>, res: Result<String, String>, r: TailscaleStep) -> bool {
    match res {
        Err(e) => no_notices(r) && finished(r, e@) && f.stage is Over,
        Ok(text) => match parse_unsigned(trim(text@), 65535) {
            Some(p) if p != 0 => notices_view(r.notices@) == seq![line(verifying_line())] && (r.action matches TailscaleAction::Ssh {
                args: v,
                input: None,
                mode: m,
            } && exists|c: Server|
                moved_to(c, s.server, host, p as u16) && strs(v@) == ssh_line(
                    c,
                    s.windows,
                    opt_str(s.known_hosts),
                    false,
                    "true"@,
                ) && mode_view(m) == (1u8, Seq::<char>::empty())) && (f.stage matches TailscaleStage::Verify(
                x,
                q,
            ) && x@ == host && q == p),
            _ => no_notices(r) && finished(r, "Cannot determine the server's SSH listening port."@)
                && f.stage is Over,
        },
    }
}

/// The SSH test: the server is ready at the Tailscale address, or the
/// setup ends and the old addresses stay.
pub open spec fn verify_outcome(s: TailscaleSetup, f: TailscaleSetup, host: Seq<char>, port: u16, res: Result<String, String>, r: TailscaleStep) -> bool {
    f.stage is Over && match res {
        Ok(_) => notices_view(r.notices@) == seq![ready(s.server.id, host, port)] && r.action
            matches TailscaleAction::Finish(Ok(())),
        Err(_) => no_notices(r) && finished(r, unverified_error()),
    }
}

/// One step of a Tailscale setup, as `TailscaleSetup::step` takes it: `s`
/// before, `f` after, `r` what it says.
pub open spec fn tailscale_step(s: TailscaleSetup, f: TailscaleSetup, cancelled: bool, event: TailscaleEvent, r: TailscaleStep) -> bool {
    s.same(f) && match (s.stage, event) {
        (TailscaleStage::Start, TailscaleEvent::Resume) => if s.tailscale {
            no_notices(r) && r.action is LocalStatus && f.stage is LocalStatus
                && f.host == s.host
        } else {
            local_outcome(s, f, false, r)
        },
        (TailscaleStage::LocalStatus, TailscaleEvent::Status(res)) => local_outcome(
            s,
            f,
            status_running(res),
            r,
        ),
        (TailscaleStage::Host, TailscaleEvent::Host(ev)) => no_notices(r) && host_moved(
            s,
            f,
            cancelled,
            ev,
            r,
        ),
        (TailscaleStage::ServerStatus, TailscaleEvent::Status(res)) => server_outcome(
            s,
            f,
            res,
            r,
        ),
        (TailscaleStage::ServerSetup, TailscaleEvent::Ran(res)) => server_setup_outcome(
            s,
            f,
            res,
            r,
        ),
        (TailscaleStage::Address, TailscaleEvent::Status(res)) => address_outcome(
            s,
            f,
            res,
            r,
        ),
        (TailscaleStage::Port(h), TailscaleEvent::Ran(res)) => port_outcome(
            s,
            f,
            h@,
            res,
            r,
        ),
        (TailscaleStage::Verify(h, p), TailscaleEvent::Ran(res)) => verify_outcome(
            s,
            f,
            h@,
            p,
            res,
            r,
        ),
        _ => no_notices(r) && r.action is Idle && f.stage == s.stage,
    }
}

fn one_line(s: &str) -> (r: Vec<Notice>)
    ensures
        notices_view(r@) == seq![line(s@)],
{
    let mut v: Vec<Notice> = Vec::new();
    v.push(Notice::Line(owned(s)));
    assert(notices_view(v@) =~= seq![line(s@)]);
    v
}

fn no_lines() -> (r: Vec<Notice>)
    ensures
        notices_view(r@) == Seq::<(bool, Seq<char>, u64, u16)>::empty(),
{
    let v: Vec<Notice> = Vec::new();
    assert(notices_view(v@) =~= Seq::<(bool, Seq<char>, u64, u16)>::empty());
    v
}

impl TailscaleSetup {
    /// A setup for `server`, whose administrator password is
    /// `sudo_password`. When this host needs it, it is prepared with the same
    /// script, for "Tailscale", its output shown as "This host"; `root`,
    /// `sudo` and `pkexec` describe this host as for `HostSetup::new`.
    pub fn new(
        server: Server,
        sudo_password: String,
        script: String,
        windows: bool,
        known_hosts: Option<String>,
        tailscale: bool,
        root: bool,
        sudo: bool,
        pkexec: bool,
    ) -> (r: TailscaleSetup)
        ensures
            r.server == server,
            r.sudo_password@ == sudo_password@,
            r.script@ == script@,
            r.windows == windows,
            r.known_hosts == known_hosts,
            r.tailscale == tailscale,
            r.host.script@ == script@,
            r.host.purpose@ == "Tailscale"@,
            mode_view(r.host.mode) == (2u8, "This host"@),
            r.host.windows == windows && r.host.root == root && r.host.sudo == sudo
                && r.host.pkexec == pkexec,
            r.host.stage is Start,
            r.stage is Start,
    {
        let host = HostSetup::new(
            script.clone(),
            owned("Tailscale"),
            OutputMode::Tailscale(owned("This host")),
            windows,
            root,
            sudo,
            pkexec,
        );
        TailscaleSetup {
            server,
            sudo_password,
            script,
            windows,
            known_hosts,
            tailscale,
            host,
            stage: TailscaleStage::Start,
        }
    }

    fn ssh_args_for(&self, script: &str) -> (r: Vec<String>)
        ensures
            strs(r@) == self.ssh_to(script@),
    {
        ssh_call(&self.server, self.windows, &self.known_hosts, false, script)
    }

    /// Hands an event to the setup of this host and passes on what it says.
    fn drive_host(&mut self, cancelled: bool, ev: HostEvent, notices: Vec<Notice>) -> (r: TailscaleStep)
        ensures
            old(self).same(*final(self)),
            r.notices@ == notices@,
            host_moved(*old(self), *final(self), cancelled, ev, r),
    {
        let a = self.host.step(cancelled, ev);
        match a {
            HostAction::Finish(Ok(())) => {
                self.stage = TailscaleStage::ServerStatus;
                let args = self.ssh_args_for("tailscale status --json");
                TailscaleStep { notices, action: TailscaleAction::ReadStatus(args) }
            },
            HostAction::Finish(Err(e)) => {
                self.stage = TailscaleStage::Over;
                TailscaleStep { notices, action: TailscaleAction::Finish(Err(e)) }
            },
            HostAction::Idle => {
                self.stage = TailscaleStage::Host;
                TailscaleStep { notices, action: TailscaleAction::Idle }
            },
            a => {
                self.stage = TailscaleStage::Host;
                TailscaleStep { notices, action: TailscaleAction::Host(a) }
            },
        }
    }

    /// Takes what happened and says what to do next. An event that does not
    /// fit the stage changes nothing.
    pub fn step(&mut self, cancelled: bool, event: TailscaleEvent) -> (r: TailscaleStep)
        ensures
            tailscale_step(*old(self), *final(self), cancelled, event, r),
    {
        let mut stage = TailscaleStage::Over;
        std::mem::swap(&mut stage, &mut self.stage);
        match (stage, event) {
            (TailscaleStage::Start, TailscaleEvent::Resume) => {
                if self.tailscale {
                    self.stage = TailscaleStage::LocalStatus;
                    TailscaleStep { notices: no_lines(), action: TailscaleAction::LocalStatus }
                } else {
                    let n = one_line("Preparing Tailscale on this host...\n");
                    self.drive_host(false, HostEvent::Resume, n)
                }
            },
            (TailscaleStage::LocalStatus, TailscaleEvent::Status(res)) => {
                let here = match &res {
                    Ok(Some(st)) => tailscale_running(st),
                    _ => false,
                };
                if here {
                    self.stage = TailscaleStage::ServerStatus;
                    let args = self.ssh_args_for("tailscale status --json");
                    TailscaleStep {
                        notices: one_line("This host is already connected to Tailscale.\n"),
                        action: TailscaleAction::ReadStatus(args),
                    }
                } else {
                    let n = one_line("Preparing Tailscale on this host...\n");
                    self.drive_host(false, HostEvent::Resume, n)
                }
            },
            (TailscaleStage::Host, TailscaleEvent::Host(ev)) => self.drive_host(cancelled, ev, no_lines()),
            (TailscaleStage::ServerStatus, TailscaleEvent::Status(res)) => {
                let there = match &res {
                    Ok(Some(st)) => tailscale_running(st),
                    _ => false,
                };
                if there {
                    self.stage = TailscaleStage::Address;
                    let args = self.ssh_args_for("tailscale status --json");
                    TailscaleStep {
                        notices: one_line("The server is already connected to Tailscale.\n"),
                        action: TailscaleAction::ReadStatus(args),
                    }
                } else {
                    self.stage = TailscaleStage::ServerSetup;
                    let remote = privileged_remote(self.script.as_str());
                    let args = self.ssh_args_for(remote.as_str());
                    TailscaleStep {
                        notices: one_line(
                            "Preparing Tailscale on the server with its saved administrator credentials...\n",
                        ),
                        action: TailscaleAction::Ssh {
                            args,
                            input: Some(self.sudo_password.clone()),
                            mode: OutputMode::Tailscale(owned("Server")),
                        },
                    }
                }
            },
            (TailscaleStage::ServerSetup, TailscaleEvent::Ran(res)) => match res {
                Err(e) => {
                    let mut out: Vec<char> = Vec::new();
                    push_str(&mut out, "Server Tailscale setup: ");
                    push_str(&mut out, e.as_str());
                    TailscaleStep {
                        notices: no_lines(),
                        action: TailscaleAction::Finish(Err(string_of(&out))),
                    }
                },
                Ok(_) => {
                    self.stage = TailscaleStage::Address;
                    let args = self.ssh_args_for("tailscale status --json");
                    TailscaleStep { notices: no_lines(), action: TailscaleAction::ReadStatus(args) }
                },
            },
            (TailscaleStage::Address, TailscaleEvent::Status(res)) => match res {
                Err(e) => TailscaleStep { notices: no_lines(), action: TailscaleAction::Finish(Err(e)) },
                Ok(None) => TailscaleStep {
                    notices: no_lines(),
                    action: TailscaleAction::Finish(Err(owned("Cannot read Tailscale status."))),
                },
                Ok(Some(st)) => match tailscale_address(&st) {
                    Err(e) => TailscaleStep {
                        notices: no_lines(),
                        action: TailscaleAction::Finish(Err(e)),
                    },
                    Ok(h) => {
                        self.stage = TailscaleStage::Port(h);
                        let args = self.ssh_args_for("printf '%s' \"${SSH_CONNECTION##* }\"");
                        TailscaleStep {
                            notices: no_lines(),
                            action: TailscaleAction::Ssh {
                                args,
                                input: None,
                                mode: OutputMode::Capture,
                            },
                        }
                    },
                },
            },
            (TailscaleStage::Port(h), TailscaleEvent::Ran(res)) => match res {
                Err(e) => TailscaleStep { notices: no_lines(), action: TailscaleAction::Finish(Err(e)) },
                Ok(text) => match listening_port(text.as_str()) {
                    Some(p) => {
                        let c = moved(&self.server, &h, p);
                        let args = ssh_call(&c, self.windows, &self.known_hosts, false, "true");
                        self.stage = TailscaleStage::Verify(h, p);
                        TailscaleStep {
                            notices: one_line(
                                "Verifying SSH over Tailscale using the saved server identity...\n",
                            ),
                            action: TailscaleAction::Ssh {
                                args,
                                input: None,
                                mode: OutputMode::Capture,
                            },
                        }
                    },
                    None => TailscaleStep {
                        notices: no_lines(),
                        action: TailscaleAction::Finish(
                            Err(owned("Cannot determine the server's SSH listening port.")),
                        ),
                    },
                },
            },
            (TailscaleStage::Verify(h, p), TailscaleEvent::Ran(res)) => match res {
                Ok(_) => {
                    let mut n: Vec<Notice> = Vec::new();
                    n.push(Notice::TailscaleReady { server: self.server.id, host: h, port: p });
                    assert(notices_view(n@) =~= seq![ready(self.server.id, h@, p)]);
                    TailscaleStep { notices: n, action: TailscaleAction::Finish(Ok(())) }
                },
                Err(_) => TailscaleStep {
                    notices: no_lines(),
                    action: TailscaleAction::Finish(
                        Err(
                            owned(
                                "Tailscale is installed, but SSH over it could not be verified. Check that both devices are in the same Tailscale network and its access rules allow SSH. Your existing addresses were kept; retry setup after correcting access.",
                            ),
                        ),
                    ),
                },
            },
            (stage, _) => {
                self.stage = stage;
                TailscaleStep { notices: no_lines(), action: TailscaleAction::Idle }
            },
        }
    }
}

} // verus!
