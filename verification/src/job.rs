//! A job: its tasks in order, each on the address chosen for its server,
//! then the syncs of its sync tasks, one local folder at a time.
//!
//! The job is a state machine around the smaller ones (host setup, the
//! address search, Tailscale setup, the sync run). The caller performs each
//! action, shows the notices, and hands back what happened; a step of a
//! smaller machine is passed on whole, and when it finishes the caller
//! reports `Resume`.
use vstd::prelude::*;
use crate::auth::Credentials;
use crate::browser::{
    entry_views, listing_of, listing_script, outside_error, plain_relative, preview_script,
    preview_text, remote_listing, remote_preview, remote_script, Listing, Preview,
    PREVIEW_BYTES,
};
use crate::commands::{setup_script, setup_text, strs, Action, Task};
use crate::endpoint::{
    line, notices_view, opt_str, search_started, search_step, ssh_call, ssh_line, EndpointSearch,
    Event, Notice, Step,
};
use crate::setup::{
    disable_command, disable_error, disable_line, host_step, mode_view, tailscale_step,
    HostAction, HostEvent, HostSetup, OutputMode, TailscaleAction, TailscaleEvent, TailscaleSetup,
    TailscaleStep,
};
use crate::shell::quoted;
use crate::store::Server;
use crate::sync_job::{group_tasks, lemma_tasks_for_present, locals, tasks_for};
use crate::sync_run::{run_step, SyncAction, SyncEvent, SyncRun, SyncStep};
use crate::tailscale::TailscaleStatus;
use crate::text::{byte_len, owned, push_str, string_of};
use crate::order::views;

verus! {

/// Where a job stands.
pub enum JobStage {
    /// About to start task `i`; past the last task, the syncs.
    Next(usize),
    /// Turning incoming SSH on for task `i` (see `JobRun::host`).
    Host(usize),
    /// Waiting for the command that turns incoming SSH off.
    Disabling(usize),
    /// Waiting to learn what is known of task `i`'s server.
    Describing(usize),
    /// Choosing task `i`'s address (see `JobRun::search`).
    Searching(usize),
    /// Task `i` goes to this server at its chosen address.
    Chosen(usize, Server),
    /// Waiting for the listing or preview that task `i` asked of this
    /// server.
    Browsing(usize, u64),
    /// Waiting for task `i`'s command.
    Running(usize),
    /// Connecting task `i`'s ends to Tailscale (see `JobRun::tailscale`).
    Tailscale(usize),
    /// Task `i` is done.
    Done(usize),
    /// About to sync group `g`, past the last group, to end.
    NextGroup(usize),
    /// Syncing group `g` (see `JobRun::sync`).
    Syncing(usize),
    /// The job failed for this reason.
    Failed(String),
    Over,
}

/// What happened since the last action.
pub enum JobEvent {
    /// Go on.
    Resume,
    /// What is known of the server: whether its identity is saved (or why
    /// that could not be read), and this device's Tailscale status when
    /// Tailscale runs here.
    Described(Result<bool, String>, Option<TailscaleStatus>),
    /// The command finished: its output, or why it failed.
    Ran(Result<String, String>),
    Host(HostEvent),
    Endpoint(Event),
    Tailscale(TailscaleEvent),
    Sync(SyncEvent),
}

/// An answer for the viewer.
pub enum BrowserReply {
    Listing(u64, Listing),
    Preview(u64, Preview),
}

/// What the caller does next.
pub enum JobAction {
    /// Report `Resume`.
    Continue,
    /// Report `Described` for this server.
    Describe(Server),
    /// Run `program` with `args`, giving it `input`, and report `Ran`.
    Run { program: String, args: Vec<String>, input: Option<String>, mode: OutputMode },
    /// Run `program` with `args`, with sudo's password prompt turned off
    /// (`SUDO_ASKPASS=/bin/false`), and report `Ran`.
    RunWithoutPrompt { program: String, args: Vec<String> },
    /// A step of the host setup: do its action and report `Host`, or
    /// `Resume` once it finishes.
    Host(HostAction),
    /// A step of the address search: show its notices, do its action and
    /// report `Endpoint`, or `Resume` once it finishes.
    Endpoint(Step),
    /// A step of the Tailscale setup, likewise.
    Tailscale(TailscaleStep),
    /// A step of a sync run, likewise.
    Sync(SyncStep),
    /// The job is over.
    Finish(Result<(), String>),
    /// Nothing: the event did not fit the stage.
    Idle,
}

/// One step's notices, answer for the viewer, and next action.
pub struct JobStep {
    pub notices: Vec<Notice>,
    pub reply: Option<BrowserReply>,
    pub action: JobAction,
}

/// A job and what it needs from this host.
pub struct JobRun {
    pub tasks: Vec<Task>,
    pub windows: bool,
    pub known_hosts: Option<String>,
    /// This host's name, for the sync's conflict names.
    pub host_name: Option<String>,
    /// The script that prepares this host for incoming SSH.
    pub host_script: String,
    /// The script that controls incoming SSH on this host.
    pub control_script: String,
    /// The Tailscale setup script.
    pub tailscale_script: String,
    /// The rsync installer for server setup.
    pub installer: String,
    /// Whether the app runs as root, and has `sudo`, `pkexec` and
    /// `tailscale` on its search path.
    pub root: bool,
    pub sudo: bool,
    pub pkexec: bool,
    pub tailscale: bool,
    pub host: Option<HostSetup>,
    pub search: Option<EndpointSearch>,
    pub tailscale_setup: Option<TailscaleSetup>,
    pub sync: Option<SyncRun>,
    /// The sync tasks met so far, each on its chosen address.
    pub synced: Vec<Task>,
    /// Once all tasks are through: the local folders of the sync tasks, in
    /// path order, and their tasks.
    pub group_keys: Vec<Vec<char>>,
    pub groups: Vec<Vec<Task>>,
    pub stage: JobStage,
}

pub open spec fn stopped_error() -> Seq<char> {
    "Stopped. Completed transfers remain in place."@
}

pub open spec fn completed_line() -> Seq<char> {
    "Completed.\n"@
}

pub open spec fn test_script() -> Seq<char> {
    "printf '%s\\n' 'Connected successfully.'"@
}

/// The line that starts a task's work on a server.
pub open spec fn header(name: Seq<char>) -> Seq<char> {
    "\n--- "@ + name + " ---\n"@
}

/// The administrator password of a server's credentials.
pub open spec fn sudo_of(c: Credentials) -> Seq<char> {
    if c.same_password {
        c.login@
    } else {
        c.sudo@
    }
}

/// The script that browses `path` on a server, or why there is none.
pub open spec fn browse_script(path: Seq<char>, preview: bool) -> Result<Seq<char>, Seq<char>> {
    if plain_relative(path) {
        Ok(
            if preview {
                preview_script(quoted(path))
            } else {
                listing_script(quoted(path))
            },
        )
    } else {
        Err(outside_error())
    }
}

pub open spec fn host_event(e: JobEvent) -> Option<HostEvent> {
    match e {
        JobEvent::Resume => Some(HostEvent::Resume),
        JobEvent::Host(x) => Some(x),
        _ => None,
    }
}

pub open spec fn search_event(e: JobEvent) -> Option<Event> {
    match e {
        JobEvent::Resume => Some(Event::Resume),
        JobEvent::Endpoint(x) => Some(x),
        _ => None,
    }
}

pub open spec fn tailscale_event(e: JobEvent) -> Option<TailscaleEvent> {
    match e {
        JobEvent::Resume => Some(TailscaleEvent::Resume),
        JobEvent::Tailscale(x) => Some(x),
        _ => None,
    }
}

pub open spec fn sync_event(e: JobEvent) -> Option<SyncEvent> {
    match e {
        JobEvent::Resume => Some(SyncEvent::Resume),
        JobEvent::Sync(x) => Some(x),
        _ => None,
    }
}

impl JobRun {
    /// The sub-machines are sound, and each stage has what it works on.
    pub open spec fn wf(&self) -> bool {
        &&& (self.search matches Some(x) ==> x.wf())
        &&& (self.sync matches Some(x) ==> x.wf())
        &&& self.groups@.len() == self.group_keys@.len()
        &&& forall|g: int| 0 <= g < self.groups@.len() ==> (#[trigger] self.groups@[g])@.len() > 0
        &&& match self.stage {
            JobStage::Next(i) => i <= self.tasks@.len(),
            JobStage::Host(i) => i < self.tasks@.len() && self.host is Some,
            JobStage::Disabling(i) => i < self.tasks@.len(),
            JobStage::Describing(i) => i < self.tasks@.len(),
            JobStage::Searching(i) => i < self.tasks@.len() && self.search is Some,
            JobStage::Chosen(i, _) => i < self.tasks@.len(),
            JobStage::Browsing(i, _) => i < self.tasks@.len(),
            JobStage::Running(i) => i < self.tasks@.len(),
            JobStage::Tailscale(i) => i < self.tasks@.len() && self.tailscale_setup is Some,
            JobStage::Done(i) => i < self.tasks@.len(),
            JobStage::NextGroup(g) => g <= self.groups@.len(),
            JobStage::Syncing(g) => g < self.groups@.len() && self.sync is Some,
            _ => true,
        }
    }

    /// The job's parameters stay as they were.
    pub open spec fn same_job(&self, f: JobRun) -> bool {
        &&& f.tasks == self.tasks
        &&& f.windows == self.windows
        &&& f.known_hosts == self.known_hosts
        &&& f.host_name == self.host_name
        &&& f.host_script == self.host_script
        &&& f.control_script == self.control_script
        &&& f.tailscale_script == self.tailscale_script
        &&& f.installer == self.installer
        &&& f.root == self.root && f.sudo == self.sudo && f.pkexec == self.pkexec
        &&& f.tailscale == self.tailscale
    }

    /// Only the stage and the named sub-machine may have changed.
    pub open spec fn keeps(&self, f: JobRun) -> bool {
        &&& f.synced == self.synced
        &&& f.group_keys == self.group_keys
        &&& f.groups == self.groups
    }

    pub open spec fn task_at(&self, i: int) -> Task {
        self.tasks@[i]
    }

    /// ssh's arguments to run `script` on `server`.
    pub open spec fn ssh_to(&self, server: Server, script: Seq<char>) -> Seq<Seq<char>> {
        ssh_line(server, self.windows, opt_str(self.known_hosts), false, script)
    }
}

pub open spec fn quiet(r: JobStep) -> bool {
    r.notices@.len() == 0 && r.reply is None
}

pub open spec fn fails_with(r: JobStep, e: Seq<char>) -> bool {
    r.action matches JobAction::Finish(Err(m)) && m@ == e
}

pub open spec fn runs(r: JobStep, program: Seq<char>, args: Seq<Seq<char>>, input: Option<Seq<char>>, mode: (u8, Seq<char>)) -> bool {
    r.action matches JobAction::Run { program: p, args: v, input: i, mode: m } && p@ == program
        && strs(v@) == args && mode_view(m) == mode && match i {
        Some(x) => input == Some(x@),
        None => input is None,
    }
}

/// Starting task `i`: a stop ends the job; turning incoming SSH on starts a
/// host setup, turning it off runs the stop command; any other task has its
/// server checked and then described. Past the last task, the sync tasks
/// are grouped by local folder.
pub open spec fn next_outcome(s: JobRun, f: JobRun, i: int, cancelled: bool, r: JobStep) -> bool {
    if i == s.tasks@.len() {
        quiet(r) && r.action is Continue && f.stage == JobStage::NextGroup(0) && f.synced == s.synced
            && views(f.group_keys@).to_set() == locals(s.synced@) && f.groups@.len()
            == f.group_keys@.len() && (forall|g: int|
            0 <= g < f.groups@.len() ==> (#[trigger] f.groups@[g])@ == tasks_for(
                s.synced@,
                f.group_keys@[g]@,
            )) && crate::order::sorted(views(f.group_keys@), true)
    } else if cancelled {
        quiet(r) && fails_with(r, stopped_error()) && f.stage is Over && s.keeps(f)
    } else {
        s.keeps(f) && quiet(r) && match s.task_at(i).action {
            Action::PrepareHost => r.action is Continue && f.stage == JobStage::Host(i as usize)
                && (f.host matches Some(h) && h.script@ == s.host_script@ && h.purpose@
                == "incoming SSH connections"@ && mode_view(h.mode) == (0u8, Seq::<char>::empty())
                && h.windows == s.windows && h.root == s.root && h.sudo == s.sudo && h.pkexec
                == s.pkexec && h.stage is Start),
            Action::DisableHost => match disable_line(s.windows, s.root, s.control_script@) {
                Ok((p, a)) => (r.action matches JobAction::RunWithoutPrompt { program: q, args: v }
                    && q@ == p && strs(v@) == a) && f.stage == JobStage::Disabling(i as usize),
                Err(e) => fails_with(r, e) && f.stage is Over,
            },
            _ => match s.task_at(i).server.verdict() {
                Err(e) => fails_with(r, e) && f.stage is Over,
                Ok(()) => r.action == JobAction::Describe(s.task_at(i).server) && f.stage
                    == JobStage::Describing(i as usize),
            },
        }
    }
}

/// The server described: the address search starts, or why it cannot.
pub open spec fn described_outcome(s: JobRun, f: JobRun, i: int, known: Result<bool, String>, local: Option<TailscaleStatus>, r: JobStep) -> bool {
    s.keeps(f) && quiet(r) && match known {
        Err(e) => fails_with(r, e@) && f.stage is Over,
        Ok(k) => {
            let sync = s.task_at(i).action is Sync;
            (f.search matches Some(x) && search_started(
                s.task_at(i).server,
                sync,
                k,
                local,
                s.windows,
                s.known_hosts,
                Ok(x),
            ) && r.action is Continue && f.stage == JobStage::Searching(i as usize)) || (
            r.action matches JobAction::Finish(Err(e)) && search_started(
                s.task_at(i).server,
                sync,
                k,
                local,
                s.windows,
                s.known_hosts,
                Err(e),
            ) && f.stage is Over)
        },
    }
}

/// A server chosen: the task's header, then its work there. A listing or
/// preview runs its script, a test prints a line there, a server setup
/// runs the installer with the administrator password, a Tailscale setup
/// starts, and a sync task waits for the syncs.
pub open spec fn chosen_outcome(s: JobRun, f: JobRun, i: int, c: Server, r: JobStep) -> bool {
    let hd = seq![line(header(c.name@))];
    r.reply is None && match s.task_at(i).action {
        Action::Browse { path, preview } => s.keeps(f) && notices_view(r.notices@) == hd && match browse_script(path@, preview) {
            Err(e) => fails_with(r, e) && f.stage is Over,
            Ok(script) => runs(r, "ssh"@, s.ssh_to(c, script), None, (1u8, Seq::<char>::empty()))
                && f.stage == JobStage::Browsing(i as usize, c.id),
        },
        Action::Test => s.keeps(f) && notices_view(r.notices@) == hd && runs(
            r,
            "ssh"@,
            s.ssh_to(c, test_script()),
            None,
            (0u8, Seq::<char>::empty()),
        ) && f.stage == JobStage::Running(i as usize),
        Action::Setup => s.keeps(f) && notices_view(r.notices@) == hd && runs(
            r,
            "ssh"@,
            s.ssh_to(c, setup_text(s.installer@)),
            Some(sudo_of(s.task_at(i).credentials)),
            (0u8, Seq::<char>::empty()),
        ) && f.stage == JobStage::Running(i as usize),
        Action::Tailscale => s.keeps(f) && notices_view(r.notices@) == hd && r.action is Continue
            && f.stage == JobStage::Tailscale(i as usize) && (f.tailscale_setup matches Some(t)
            && t.server == c && t.sudo_password@ == sudo_of(s.task_at(i).credentials)
            && t.script@ == s.tailscale_script@ && t.windows == s.windows && t.known_hosts
            == s.known_hosts && t.tailscale == s.tailscale && t.host.script@ == s.tailscale_script@
            && t.host.purpose@ == "Tailscale"@ && mode_view(t.host.mode) == (2u8, "This host"@)
            && t.host.windows == s.windows && t.host.root == s.root && t.host.sudo == s.sudo
            && t.host.pkexec == s.pkexec && t.host.stage is Start && t.stage is Start),
        Action::Sync => notices_view(r.notices@) == hd && r.action is Continue && f.stage
            == JobStage::Next((i + 1) as usize) && f.synced@ == s.synced@.push(
            Task { server: c, ..s.task_at(i) },
        ) && f.group_keys == s.group_keys && f.groups == s.groups,
        _ => s.keeps(f) && r.notices@.len() == 0 && r.action is Continue && f.stage
            == JobStage::Next((i + 1) as usize),
    }
}

/// A listing or preview came back: the viewer gets it and the task is
/// done; a listing that cannot be read, or a failed command, ends the job.
pub open spec fn browsed_outcome(s: JobRun, f: JobRun, i: int, server: u64, res: Result<String, String>, r: JobStep) -> bool {
    s.keeps(f) && match res {
        Err(e) => quiet(r) && fails_with(r, e@) && f.stage is Over,
        Ok(out) => match s.task_at(i).action {
            Action::Browse { path, preview } => if preview {
                notices_view(r.notices@) == seq![line(completed_line())] && (r.reply matches Some(
                    BrowserReply::Preview(id, p),
                ) && id == server && p.name@ == path@ && p.truncated == (byte_len(out@) > PREVIEW_BYTES)
                    && p.text@ == preview_text(out@)) && r.action is Continue && f.stage
                    == JobStage::Next((i + 1) as usize)
            } else {
                match listing_of(out@, s.windows) {
                    Ok(v) => notices_view(r.notices@) == seq![line(completed_line())] && (r.reply
                        matches Some(BrowserReply::Listing(id, l)) && id == server && (
                        l.relative@,
                        entry_views(l.entries@),
                        l.limited,
                    ) == v) && r.action is Continue && f.stage == JobStage::Next((i + 1) as usize),
                    Err(e) => quiet(r) && fails_with(r, e) && f.stage is Over,
                }
            },
            _ => quiet(r) && r.action is Continue && f.stage == JobStage::Next((i + 1) as usize),
        },
    }
}

/// What the host setup said, passed on; once it finishes, the job goes on
/// with the next task or fails with its reason.
pub open spec fn host_outcome(s: JobRun, f: JobRun, i: int, cancelled: bool, ev: HostEvent, r: JobStep) -> bool {
    s.keeps(f) && quiet(r) && (s.host matches Some(h) && f.host matches Some(h2) && (r.action matches JobAction::Host(
        a,
    ) && host_step(h, h2, cancelled, ev, a) && match a {
        HostAction::Finish(Ok(())) => f.stage == JobStage::Next((i + 1) as usize),
        HostAction::Finish(Err(e)) => f.stage == JobStage::Failed(e),
        _ => f.stage == s.stage,
    }))
}

/// What the address search said, passed on; once it finishes, the task
/// goes to the chosen server, or the job fails with the search's reason.
pub open spec fn search_outcome(s: JobRun, f: JobRun, i: int, cancelled: bool, ev: Event, r: JobStep) -> bool {
    s.keeps(f) && r.notices@.len() == 0 && r.reply is None && (s.search matches Some(x)
        && f.search matches Some(x2) && (r.action matches JobAction::Endpoint(st) && search_step(
        x,
        x2,
        cancelled,
        ev,
        st,
    ) && match st.action {
        crate::endpoint::Action::Finish(Ok(c)) => f.stage == JobStage::Chosen(i as usize, c),
        crate::endpoint::Action::Finish(Err(e)) => f.stage == JobStage::Failed(e),
        _ => f.stage == s.stage,
    }))
}

/// What the Tailscale setup said, passed on; once it finishes, the task is
/// done or the job fails.
pub open spec fn tailscale_outcome(s: JobRun, f: JobRun, i: int, cancelled: bool, ev: TailscaleEvent, r: JobStep) -> bool {
    s.keeps(f) && quiet(r) && (s.tailscale_setup matches Some(t) && f.tailscale_setup matches Some(
        t2,
    ) && (r.action matches JobAction::Tailscale(st) && tailscale_step(t, t2, cancelled, ev, st)
        && match st.action {
        TailscaleAction::Finish(Ok(())) => f.stage == JobStage::Done(i as usize),
        TailscaleAction::Finish(Err(e)) => f.stage == JobStage::Failed(e),
        _ => f.stage == s.stage,
    }))
}

/// What the sync run said, passed on; once it finishes, the next group
/// follows or the job fails.
pub open spec fn sync_outcome(s: JobRun, f: JobRun, g: int, cancelled: bool, ev: SyncEvent, r: JobStep) -> bool {
    s.keeps(f) && quiet(r) && (s.sync matches Some(x) && f.sync matches Some(x2) && (r.action matches JobAction::Sync(
        st,
    ) && run_step(x, x2, cancelled, ev, st) && match st.action {
        SyncAction::Finish(Ok(())) => f.stage == JobStage::NextGroup((g + 1) as usize),
        SyncAction::Finish(Err(e)) => f.stage == JobStage::Failed(e),
        _ => f.stage == s.stage,
    }))
}

/// Starting group `g`: past the last one the job is done; else a sync run
/// for the group's folder and tasks starts.
pub open spec fn group_outcome(s: JobRun, f: JobRun, g: int, r: JobStep) -> bool {
    s.keeps(f) && quiet(r) && if g == s.groups@.len() {
        r.action matches JobAction::Finish(Ok(())) && f.stage is Over
    } else {
        r.action is Continue && f.stage == JobStage::Syncing(g as usize) && (f.sync matches Some(x)
            && x.local@ == s.group_keys@[g]@ && x.tasks@ == s.groups@[g]@ && x.windows == s.windows
            && x.known_hosts == s.known_hosts && x.host_name == s.host_name && x.plan is None
            && x.scripts@.len() == 0 && x.stage == crate::sync_run::Stage::Start)
    }
}

/// One step of a job, as `JobRun::step` takes it: `s` before, `f` after,
/// `r` what it says.
pub open spec fn job_step(s: JobRun, f: JobRun, cancelled: bool, event: JobEvent, r: JobStep) -> bool {
    f.wf() && s.same_job(f) && match (s.stage, event) {
        (JobStage::Next(i), JobEvent::Resume) => next_outcome(s, f, i as int, cancelled, r),
        (JobStage::Host(i), e) if host_event(e) is Some => host_outcome(
            s,
            f,
            i as int,
            cancelled,
            host_event(e)->0,
            r,
        ),
        (JobStage::Disabling(i), JobEvent::Ran(res)) => s.keeps(f) && quiet(r) && match res {
            Ok(_) => r.action is Continue && f.stage == JobStage::Next((i + 1) as usize),
            Err(e) => fails_with(
                r,
                "Could not turn SSH off without a password: "@ + e@
                    + " Run Connections > Prepare this host once to install the limited shutdown permission, then retry."@,
            ) && f.stage is Over,
        },
        (JobStage::Describing(i), JobEvent::Described(known, local)) => described_outcome(
            s,
            f,
            i as int,
            known,
            local,
            r,
        ),
        (JobStage::Searching(i), e) if search_event(e) is Some => search_outcome(
            s,
            f,
            i as int,
            cancelled,
            search_event(e)->0,
            r,
        ),
        (JobStage::Chosen(i, c), JobEvent::Resume) => chosen_outcome(s, f, i as int, c, r),
        (JobStage::Browsing(i, id), JobEvent::Ran(res)) => browsed_outcome(
            s,
            f,
            i as int,
            id,
            res,
            r,
        ),
        (JobStage::Running(i), JobEvent::Ran(res)) => s.keeps(f) && match res {
            Ok(_) => notices_view(r.notices@) == seq![line(completed_line())] && r.reply is None
                && r.action is Continue && f.stage == JobStage::Next((i + 1) as usize),
            Err(e) => quiet(r) && fails_with(r, e@) && f.stage is Over,
        },
        (JobStage::Tailscale(i), e) if tailscale_event(e) is Some => tailscale_outcome(
            s,
            f,
            i as int,
            cancelled,
            tailscale_event(e)->0,
            r,
        ),
        (JobStage::Done(i), JobEvent::Resume) => s.keeps(f) && notices_view(r.notices@) == seq![
            line(completed_line()),
        ] && r.reply is None && r.action is Continue && f.stage == JobStage::Next((i + 1) as usize),
        (JobStage::NextGroup(g), JobEvent::Resume) => group_outcome(s, f, g as int, r),
        (JobStage::Syncing(g), e) if sync_event(e) is Some => sync_outcome(
            s,
            f,
            g as int,
            cancelled,
            sync_event(e)->0,
            r,
        ),
        (JobStage::Failed(e), JobEvent::Resume) => s.keeps(f) && quiet(r) && fails_with(r, e@)
            && f.stage is Over,
        _ => s.keeps(f) && quiet(r) && r.action is Idle && f.stage == s.stage,
    }
}

/// The index after `i`, below `count`.
fn next_index(i: usize, count: usize) -> (r: usize)
    requires
        i < count,
    ensures
        r == i + 1,
{
    i + 1
}

fn no_notices() -> (r: Vec<Notice>)
    ensures
        r@.len() == 0,
{
    Vec::new()
}

fn step_of(notices: Vec<Notice>, action: JobAction) -> (r: JobStep)
    ensures
        r.notices == notices,
        r.reply is None,
        r.action == action,
{
    JobStep { notices, reply: None, action }
}

fn header_line(name: &str) -> (r: Vec<Notice>)
    ensures
        notices_view(r@) == seq![line(header(name@))],
{
    let mut out: Vec<char> = Vec::new();
    push_str(&mut out, "\n--- ");
    push_str(&mut out, name);
    push_str(&mut out, " ---\n");
    let mut v: Vec<Notice> = Vec::new();
    v.push(Notice::Line(string_of(&out)));
    assert(notices_view(v@) =~= seq![line(header(name@))]);
    v
}

fn completed() -> (r: Vec<Notice>)
    ensures
        notices_view(r@) == seq![line(completed_line())],
{
    let mut v: Vec<Notice> = Vec::new();
    v.push(Notice::Line(owned("Completed.\n")));
    assert(notices_view(v@) =~= seq![line(completed_line())]);
    v
}

fn copy_tasks(v: &Vec<Task>) -> (r: Vec<Task>)
    ensures
        r@ == v@,
{
    let mut r: Vec<Task> = Vec::new();
    let mut i: usize = 0;
    while i < v.len()
        invariant
            i <= v@.len(),
            r@ == v@.take(i as int),
        decreases v@.len() - i,
    {
        r.push(v[i].clone());
        i = i + 1;
        assert(r@ =~= v@.take(i as int));
    }
    assert(v@.take(i as int) =~= v@);
    r
}

impl JobRun {
    /// A job of `tasks` on this host; see the fields for the rest.
    pub fn new(
        tasks: Vec<Task>,
        windows: bool,
        known_hosts: Option<String>,
        host_name: Option<String>,
        host_script: String,
        control_script: String,
        tailscale_script: String,
        installer: String,
        root: bool,
        sudo: bool,
        pkexec: bool,
        tailscale: bool,
    ) -> (r: JobRun)
        ensures
            r.wf(),
            r.tasks == tasks && r.windows == windows && r.known_hosts == known_hosts
                && r.host_name == host_name,
            r.host_script == host_script && r.control_script == control_script
                && r.tailscale_script == tailscale_script && r.installer == installer,
            r.root == root && r.sudo == sudo && r.pkexec == pkexec && r.tailscale == tailscale,
            r.host is None && r.search is None && r.tailscale_setup is None && r.sync is None,
            r.synced@.len() == 0 && r.groups@.len() == 0 && r.group_keys@.len() == 0,
            r.stage == JobStage::Next(0),
    {
        JobRun {
            tasks,
            windows,
            known_hosts,
            host_name,
            host_script,
            control_script,
            tailscale_script,
            installer,
            root,
            sudo,
            pkexec,
            tailscale,
            host: None,
            search: None,
            tailscale_setup: None,
            sync: None,
            synced: Vec::new(),
            group_keys: Vec::new(),
            groups: Vec::new(),
            stage: JobStage::Next(0),
        }
    }

    fn ssh_args_to(&self, server: &Server, script: &str) -> (r: Vec<String>)
        ensures
            strs(r@) == self.ssh_to(*server, script@),
    {
        ssh_call(server, self.windows, &self.known_hosts, false, script)
    }

    fn on_next(&mut self, i: usize, cancelled: bool) -> (r: JobStep)
        requires
            old(self).wf(),
            old(self).stage == JobStage::Next(i),
        ensures
            final(self).wf(),
            old(self).same_job(*final(self)),
            next_outcome(*old(self), *final(self), i as int, cancelled, r),
    {
        if i == self.tasks.len() {
            let (keys, groups) = group_tasks(&self.synced);
            proof {
                assert forall|g: int| 0 <= g < groups@.len() implies (#[trigger] groups@[g])@.len() > 0 by {
                    assert(views(keys@).to_set().contains(views(keys@)[g]));
                    lemma_tasks_for_present(self.synced@, keys@[g]@);
                }
            }
            self.group_keys = keys;
            self.groups = groups;
            self.stage = JobStage::NextGroup(0);
            return step_of(no_notices(), JobAction::Continue);
        }
        if cancelled {
            self.stage = JobStage::Over;
            return step_of(no_notices(), JobAction::Finish(Err(owned("Stopped. Completed transfers remain in place."))));
        }
        match &self.tasks[i].action {
            Action::PrepareHost => {
                let h = HostSetup::new(
                    self.host_script.clone(),
                    owned("incoming SSH connections"),
                    OutputMode::Live,
                    self.windows,
                    self.root,
                    self.sudo,
                    self.pkexec,
                );
                self.host = Some(h);
                self.stage = JobStage::Host(i);
                step_of(no_notices(), JobAction::Continue)
            },
            Action::DisableHost => match disable_command(self.windows, self.root, self.control_script.as_str()) {
                Ok((program, args)) => {
                    self.stage = JobStage::Disabling(i);
                    step_of(no_notices(), JobAction::RunWithoutPrompt { program, args })
                },
                Err(e) => {
                    self.stage = JobStage::Over;
                    step_of(no_notices(), JobAction::Finish(Err(e)))
                },
            },
            _ => match self.tasks[i].server.validate() {
                Err(e) => {
                    self.stage = JobStage::Over;
                    step_of(no_notices(), JobAction::Finish(Err(e)))
                },
                Ok(()) => {
                    let server = self.tasks[i].server.clone();
                    self.stage = JobStage::Describing(i);
                    step_of(no_notices(), JobAction::Describe(server))
                },
            },
        }
    }

    fn on_described(&mut self, i: usize, known: Result<bool, String>, local: Option<TailscaleStatus>) -> (r: JobStep)
        requires
            old(self).wf(),
            old(self).stage == JobStage::Describing(i),
        ensures
            final(self).wf(),
            old(self).same_job(*final(self)),
            described_outcome(*old(self), *final(self), i as int, known, local, r),
    {
        match known {
            Err(e) => {
                self.stage = JobStage::Over;
                step_of(no_notices(), JobAction::Finish(Err(e)))
            },
            Ok(k) => {
                let sync = match &self.tasks[i].action {
                    Action::Sync => true,
                    _ => false,
                };
                let server = self.tasks[i].server.clone();
                match EndpointSearch::new(server, sync, k, local, self.windows, self.known_hosts.clone()) {
                    Ok(x) => {
                        self.search = Some(x);
                        self.stage = JobStage::Searching(i);
                        step_of(no_notices(), JobAction::Continue)
                    },
                    Err(e) => {
                        self.search = None;
                        self.stage = JobStage::Over;
                        step_of(no_notices(), JobAction::Finish(Err(e)))
                    },
                }
            },
        }
    }

    fn on_chosen(&mut self, i: usize, c: Server) -> (r: JobStep)
        requires
            old(self).wf(),
            old(self).stage == JobStage::Chosen(i, c),
        ensures
            final(self).wf(),
            old(self).same_job(*final(self)),
            chosen_outcome(*old(self), *final(self), i as int, c, r),
    {
        match &self.tasks[i].action {
            Action::Browse { path, preview } => {
                let hd = header_line(c.name.as_str());
                match remote_script(path.as_str(), *preview) {
                    Err(e) => {
                        self.stage = JobStage::Over;
                        step_of(hd, JobAction::Finish(Err(e)))
                    },
                    Ok(script) => {
                        let args = self.ssh_args_to(&c, script.as_str());
                        self.stage = JobStage::Browsing(i, c.id);
                        step_of(
                            hd,
                            JobAction::Run { program: owned("ssh"), args, input: None, mode: OutputMode::Capture },
                        )
                    },
                }
            },
            Action::Test => {
                let hd = header_line(c.name.as_str());
                let args = self.ssh_args_to(&c, "printf '%s\\n' 'Connected successfully.'");
                self.stage = JobStage::Running(i);
                step_of(hd, JobAction::Run { program: owned("ssh"), args, input: None, mode: OutputMode::Live })
            },
            Action::Setup => {
                let hd = header_line(c.name.as_str());
                let script = setup_script(self.installer.as_str());
                let args = self.ssh_args_to(&c, script.as_str());
                let password = owned(self.tasks[i].credentials.sudo_password());
                self.stage = JobStage::Running(i);
                step_of(
                    hd,
                    JobAction::Run { program: owned("ssh"), args, input: Some(password), mode: OutputMode::Live },
                )
            },
            Action::Tailscale => {
                let hd = header_line(c.name.as_str());
                let password = owned(self.tasks[i].credentials.sudo_password());
                let t = TailscaleSetup::new(
                    c,
                    password,
                    self.tailscale_script.clone(),
                    self.windows,
                    self.known_hosts.clone(),
                    self.tailscale,
                    self.root,
                    self.sudo,
                    self.pkexec,
                );
                self.tailscale_setup = Some(t);
                self.stage = JobStage::Tailscale(i);
                step_of(hd, JobAction::Continue)
            },
            Action::Sync => {
                let hd = header_line(c.name.as_str());
                let t = &self.tasks[i];
                let task = Task {
                    server: c,
                    credentials: t.credentials.clone(),
                    local: t.local.clone(),
                    remote: t.remote.clone(),
                    action: t.action.clone(),
                };
                self.synced.push(task);
                self.stage = JobStage::Next(next_index(i, self.tasks.len()));
                step_of(hd, JobAction::Continue)
            },
            _ => {
                self.stage = JobStage::Next(next_index(i, self.tasks.len()));
                step_of(no_notices(), JobAction::Continue)
            },
        }
    }

    fn on_browsed(&mut self, i: usize, server: u64, res: Result<String, String>) -> (r: JobStep)
        requires
            old(self).wf(),
            old(self).stage == JobStage::Browsing(i, server),
        ensures
            final(self).wf(),
            old(self).same_job(*final(self)),
            browsed_outcome(*old(self), *final(self), i as int, server, res, r),
    {
        let out = match res {
            Err(e) => {
                self.stage = JobStage::Over;
                return step_of(no_notices(), JobAction::Finish(Err(e)));
            },
            Ok(out) => out,
        };
        match &self.tasks[i].action {
            Action::Browse { path, preview } => {
                if *preview {
                    let p = remote_preview(path.as_str(), out);
                    self.stage = JobStage::Next(next_index(i, self.tasks.len()));
                    JobStep {
                        notices: completed(),
                        reply: Some(BrowserReply::Preview(server, p)),
                        action: JobAction::Continue,
                    }
                } else {
                    match remote_listing(out.as_str(), self.windows) {
                        Ok(l) => {
                            self.stage = JobStage::Next(next_index(i, self.tasks.len()));
                            JobStep {
                                notices: completed(),
                                reply: Some(BrowserReply::Listing(server, l)),
                                action: JobAction::Continue,
                            }
                        },
                        Err(e) => {
                            self.stage = JobStage::Over;
                            step_of(no_notices(), JobAction::Finish(Err(e)))
                        },
                    }
                }
            },
            _ => {
                self.stage = JobStage::Next(next_index(i, self.tasks.len()));
                step_of(no_notices(), JobAction::Continue)
            },
        }
    }

    /// Takes what happened and says what to do next; see `job_step`.
    pub fn step(&mut self, cancelled: bool, event: JobEvent) -> (r: JobStep)
        requires
            old(self).wf(),
            event matches JobEvent::Sync(SyncEvent::Trees(Ok(ts))) ==> forall|k: int|
                0 <= k < ts@.len() ==> (#[trigger] ts@[k]).wf(),
        ensures
            job_step(*old(self), *final(self), cancelled, event, r),
    {
        let mut stage = JobStage::Over;
        std::mem::swap(&mut stage, &mut self.stage);
        match (stage, event) {
            (JobStage::Next(i), JobEvent::Resume) => {
                self.stage = JobStage::Next(i);
                self.on_next(i, cancelled)
            },
            (JobStage::Host(i), JobEvent::Resume) => {
                self.stage = JobStage::Host(i);
                self.drive_host(i, cancelled, HostEvent::Resume)
            },
            (JobStage::Host(i), JobEvent::Host(ev)) => {
                self.stage = JobStage::Host(i);
                self.drive_host(i, cancelled, ev)
            },
            (JobStage::Disabling(i), JobEvent::Ran(res)) => match res {
                Ok(_) => {
                    self.stage = JobStage::Next(next_index(i, self.tasks.len()));
                    step_of(no_notices(), JobAction::Continue)
                },
                Err(e) => step_of(no_notices(), JobAction::Finish(Err(disable_error(e.as_str())))),
            },
            (JobStage::Describing(i), JobEvent::Described(known, local)) => {
                self.stage = JobStage::Describing(i);
                self.on_described(i, known, local)
            },
            (JobStage::Searching(i), JobEvent::Resume) => {
                self.stage = JobStage::Searching(i);
                self.drive_search(i, cancelled, Event::Resume)
            },
            (JobStage::Searching(i), JobEvent::Endpoint(ev)) => {
                self.stage = JobStage::Searching(i);
                self.drive_search(i, cancelled, ev)
            },
            (JobStage::Chosen(i, c), JobEvent::Resume) => {
                self.stage = JobStage::Chosen(i, c.clone());
                self.on_chosen(i, c)
            },
            (JobStage::Browsing(i, id), JobEvent::Ran(res)) => {
                self.stage = JobStage::Browsing(i, id);
                self.on_browsed(i, id, res)
            },
            (JobStage::Running(i), JobEvent::Ran(res)) => match res {
                Ok(_) => {
                    self.stage = JobStage::Next(next_index(i, self.tasks.len()));
                    step_of(completed(), JobAction::Continue)
                },
                Err(e) => step_of(no_notices(), JobAction::Finish(Err(e))),
            },
            (JobStage::Tailscale(i), JobEvent::Resume) => {
                self.stage = JobStage::Tailscale(i);
                self.drive_tailscale(i, cancelled, TailscaleEvent::Resume)
            },
            (JobStage::Tailscale(i), JobEvent::Tailscale(ev)) => {
                self.stage = JobStage::Tailscale(i);
                self.drive_tailscale(i, cancelled, ev)
            },
            (JobStage::Done(i), JobEvent::Resume) => {
                self.stage = JobStage::Next(next_index(i, self.tasks.len()));
                step_of(completed(), JobAction::Continue)
            },
            (JobStage::NextGroup(g), JobEvent::Resume) => {
                self.stage = JobStage::NextGroup(g);
                self.on_group(g)
            },
            (JobStage::Syncing(g), JobEvent::Resume) => {
                self.stage = JobStage::Syncing(g);
                self.drive_sync(g, cancelled, SyncEvent::Resume)
            },
            (JobStage::Syncing(g), JobEvent::Sync(ev)) => {
                self.stage = JobStage::Syncing(g);
                self.drive_sync(g, cancelled, ev)
            },
            (JobStage::Failed(e), JobEvent::Resume) => step_of(no_notices(), JobAction::Finish(Err(e))),
            (stage, _) => {
                self.stage = stage;
                step_of(no_notices(), JobAction::Idle)
            },
        }
    }

    fn drive_host(&mut self, i: usize, cancelled: bool, ev: HostEvent) -> (r: JobStep)
        requires
            old(self).wf(),
            old(self).stage == JobStage::Host(i),
        ensures
            final(self).wf(),
            old(self).same_job(*final(self)),
            final(self).search == old(self).search && final(self).sync == old(self).sync,
            host_outcome(*old(self), *final(self), i as int, cancelled, ev, r),
    {
        let mut slot: Option<HostSetup> = None;
        std::mem::swap(&mut slot, &mut self.host);
        let mut h = slot.unwrap();
        let a = h.step(cancelled, ev);
        let next = match &a {
            HostAction::Finish(Ok(())) => JobStage::Next(next_index(i, self.tasks.len())),
            HostAction::Finish(Err(e)) => JobStage::Failed(e.clone()),
            _ => JobStage::Host(i),
        };
        self.host = Some(h);
        self.stage = next;
        step_of(no_notices(), JobAction::Host(a))
    }

    fn drive_search(&mut self, i: usize, cancelled: bool, ev: Event) -> (r: JobStep)
        requires
            old(self).wf(),
            old(self).stage == JobStage::Searching(i),
        ensures
            final(self).wf(),
            old(self).same_job(*final(self)),
            search_outcome(*old(self), *final(self), i as int, cancelled, ev, r),
    {
        let mut slot: Option<EndpointSearch> = None;
        std::mem::swap(&mut slot, &mut self.search);
        let mut x = slot.unwrap();
        let st = x.step(cancelled, ev);
        let next = match &st.action {
            crate::endpoint::Action::Finish(Ok(c)) => JobStage::Chosen(i, c.clone()),
            crate::endpoint::Action::Finish(Err(e)) => JobStage::Failed(e.clone()),
            _ => JobStage::Searching(i),
        };
        self.search = Some(x);
        self.stage = next;
        step_of(no_notices(), JobAction::Endpoint(st))
    }

    fn drive_tailscale(&mut self, i: usize, cancelled: bool, ev: TailscaleEvent) -> (r: JobStep)
        requires
            old(self).wf(),
            old(self).stage == JobStage::Tailscale(i),
        ensures
            final(self).wf(),
            old(self).same_job(*final(self)),
            tailscale_outcome(*old(self), *final(self), i as int, cancelled, ev, r),
    {
        let mut slot: Option<TailscaleSetup> = None;
        std::mem::swap(&mut slot, &mut self.tailscale_setup);
        let mut t = slot.unwrap();
        let st = t.step(cancelled, ev);
        let next = match &st.action {
            TailscaleAction::Finish(Ok(())) => JobStage::Done(i),
            TailscaleAction::Finish(Err(e)) => JobStage::Failed(e.clone()),
            _ => JobStage::Tailscale(i),
        };
        self.tailscale_setup = Some(t);
        self.stage = next;
        step_of(no_notices(), JobAction::Tailscale(st))
    }

    fn drive_sync(&mut self, g: usize, cancelled: bool, ev: SyncEvent) -> (r: JobStep)
        requires
            old(self).wf(),
            old(self).stage == JobStage::Syncing(g),
            ev matches SyncEvent::Trees(Ok(ts)) ==> forall|k: int|
                0 <= k < ts@.len() ==> (#[trigger] ts@[k]).wf(),
        ensures
            final(self).wf(),
            old(self).same_job(*final(self)),
            sync_outcome(*old(self), *final(self), g as int, cancelled, ev, r),
    {
        let mut slot: Option<SyncRun> = None;
        std::mem::swap(&mut slot, &mut self.sync);
        let mut x = slot.unwrap();
        let st = x.step(cancelled, ev);
        let next = match &st.action {
            SyncAction::Finish(Ok(())) => JobStage::NextGroup(next_index(g, self.groups.len())),
            SyncAction::Finish(Err(e)) => JobStage::Failed(e.clone()),
            _ => JobStage::Syncing(g),
        };
        self.sync = Some(x);
        self.stage = next;
        step_of(no_notices(), JobAction::Sync(st))
    }

    fn on_group(&mut self, g: usize) -> (r: JobStep)
        requires
            old(self).wf(),
            old(self).stage == JobStage::NextGroup(g),
        ensures
            final(self).wf(),
            old(self).same_job(*final(self)),
            group_outcome(*old(self), *final(self), g as int, r),
    {
        if g == self.groups.len() {
            self.stage = JobStage::Over;
            return step_of(no_notices(), JobAction::Finish(Ok(())));
        }
        let local = string_of(&self.group_keys[g]);
        let tasks = copy_tasks(&self.groups[g]);
        assert(tasks@.len() > 0);
        let x = SyncRun::new(local, tasks, self.windows, self.known_hosts.clone(), self.host_name.clone());
        self.sync = Some(x);
        self.stage = JobStage::Syncing(g);
        step_of(no_notices(), JobAction::Continue)
    }
}

} // verus!
