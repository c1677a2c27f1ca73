//! The two-way sync of one local folder with its servers, step by step:
//! snapshots of every copy go to a private workspace, the merge is planned
//! and built there, conflicting originals are renamed (every remote script
//! is built before any original changes), the merged folder is copied back
//! without replacing anything, and a final comparison checks that nothing
//! changed meanwhile.
//!
//! The caller performs each action (a command, a directory, the scan of the
//! snapshots, building the merged copy, a local rename) and hands back what
//! it came to.
use vstd::prelude::*;
use crate::commands::{
    copy_args, copy_options, ssh_args, ssh_options, strs, sync_args, sync_options, verify_args,
    verify_options, Task,
};
use crate::config::{validation, Config};
use crate::endpoint::{opt_str, ssh_call, ssh_line};
use crate::merge::{
    check_cancel, name_views, plan, plan_of, rename_entries, Plan, Tree,
};
use crate::platform::{
    manifest_verdict, validate_windows_manifest, windows_manifest_script, windows_manifest_script_of,
};
use crate::shell::{quote, quoted};
use crate::sync_job::{
    changed_error, merged_push_args, participant_names, plan_summary, remote_rename_jobs,
    remote_renames_of, unchanged,
};
use crate::text::{chars, decimal, decimal_of, join_path, owned, path_join, push_str, string_of, trim};

verus! {

/// Where the run stands: what it waits for.
pub enum Stage {
    Start,
    Workspace,
    LocalDir,
    LocalManifest,
    CopyLocal,
    Prepare(usize),
    RemoteManifest(usize),
    RemoteDir(usize),
    Pull(usize),
    Scan,
    Materialize,
    RemoteRename(usize),
    LocalRename(usize),
    CopyBack,
    Push(usize),
    VerifyLocal,
    VerifyRemote(usize),
    Over,
}

/// What an action came to.
pub enum SyncEvent {
    Resume,
    /// The private workspace, or why it could not be made.
    Workspace(Result<String, String>),
    /// A command's output, or its failure.
    Ran(Result<String, String>),
    /// The snapshots read as trees, in snapshot order.
    Trees(Result<Vec<Tree>, String>),
}

/// What to do next.
pub enum SyncAction {
    /// Make the private workspace and report `Workspace`.
    MakeWorkspace,
    /// Create this directory and report `Ran`.
    MakeDir(String),
    /// Run `program` with `args` in `dir`, answering prompts for task
    /// `task`, and report `Ran` with its output.
    Command { task: usize, program: String, args: Vec<String>, dir: String },
    /// Read these snapshot directories into trees and report `Trees`.
    Scan(Vec<String>),
    /// Build the merged folder at `output` from the plan and the snapshots
    /// and report `Ran`.
    Materialize { output: String, snapshots: Vec<String> },
    /// Rename the local original of the plan's rename `index` (see
    /// `SyncRun::plan`) under `root` and report `Ran`.
    Rename { root: String, index: usize },
    /// The run is over.
    Finish(Result<(), String>),
    /// Nothing: the event did not fit the run's stage.
    Idle,
}

/// One step's activity lines and next action.
pub struct SyncStep {
    pub notices: Vec<String>,
    pub action: SyncAction,
}

/// The sync of one local folder with the servers of its tasks.
pub struct SyncRun {
    pub local: String,
    pub tasks: Vec<Task>,
    pub windows: bool,
    pub known_hosts: Option<String>,
    /// This host's name as read, if it could be.
    pub host_name: Option<String>,
    pub workspace: String,
    pub plan: Option<Plan>,
    pub scripts: Vec<(usize, String)>,
    pub stage: Stage,
}

pub open spec fn reading_line() -> Seq<char> {
    "Reading copies and comparing SHA-256 hashes...\n"@
}

pub open spec fn completed_line() -> Seq<char> {
    "Folder sync completed. No deletions propagated.\n"@
}

pub open spec fn stop_text() -> Seq<char> {
    "Stopped. Completed copies and conflict renames remain in place."@
}

/// The script that checks a server for `sha256sum` and creates the remote
/// folder.
pub open spec fn prepare_script(remote: Seq<char>) -> Seq<char> {
    "command -v sha256sum >/dev/null || { echo 'Install sha256sum on this host before syncing.' >&2; exit 1; }; mkdir -p -- "@
        + quoted(remote)
}

/// A snapshot directory in the workspace: `local`, then `remote-<i>`.
pub open spec fn snapshot_of(ws: Seq<char>, k: int) -> Seq<char> {
    if k == 0 {
        path_join(ws, "local"@)
    } else {
        path_join(ws, "remote-"@ + decimal((k - 1) as nat))
    }
}

pub open spec fn merged_of(ws: Seq<char>) -> Seq<char> {
    path_join(ws, "merged"@)
}

/// `a` is the command `program args` in `dir` for task `task`.
pub open spec fn command_is(a: SyncAction, task: int, program: Seq<char>, args: Seq<Seq<char>>, dir: Seq<char>) -> bool {
    a matches SyncAction::Command { task: t, program: p, args: v, dir: d } && t == task && p@
        == program && strs(v@) == args && d@ == dir
}

pub open spec fn finished_with(r: SyncStep, e: Seq<char>) -> bool {
    r.notices@.len() == 0 && (r.action matches SyncAction::Finish(Err(m)) && m@ == e)
}

pub open spec fn lines(v: Seq<String>) -> Seq<Seq<char>> {
    v.map_values(|s: String| s@)
}

impl SyncRun {
    pub open spec fn task_at(&self, i: int) -> Task {
        self.tasks@[i]
    }

    pub open spec fn ssh_opts(&self, i: int) -> Seq<Seq<char>> {
        ssh_options(self.tasks@[i].server, self.windows, opt_str(self.known_hosts))
    }

    pub open spec fn snapshots(&self) -> Seq<Seq<char>> {
        Seq::new((self.tasks@.len() + 1) as nat, |k: int| snapshot_of(self.workspace@, k))
    }

    /// The run is consistent: indices point at tasks, renames and scripts,
    /// and the plan is there once it is made.
    pub open spec fn wf(&self) -> bool {
        &&& self.tasks@.len() > 0
        &&& match self.stage {
            Stage::Prepare(i) => i < self.tasks@.len(),
            Stage::RemoteManifest(i) => i < self.tasks@.len(),
            Stage::RemoteDir(i) => i < self.tasks@.len(),
            Stage::Pull(i) => i < self.tasks@.len(),
            Stage::Materialize => self.plan is Some,
            Stage::RemoteRename(k) => self.scripts_built() && k < self.scripts@.len(),
            Stage::LocalRename(j) => self.scripts_built() && j < self.plan->Some_0.renames@.len(),
            Stage::CopyBack => self.scripts_built(),
            Stage::Push(i) => self.scripts_built() && i < self.tasks@.len(),
            Stage::VerifyLocal => self.scripts_built(),
            Stage::VerifyRemote(i) => self.scripts_built() && i < self.tasks@.len(),
            _ => true,
        }
        &&& forall|k: int| 0 <= k < self.scripts@.len() ==> (#[trigger] self.scripts@[k]).0 < self.tasks@.len()
        &&& self.plan matches Some(p) ==> forall|k: int|
            0 <= k < p.renames@.len() ==> (#[trigger] p.renames@[k]).participant <= self.tasks@.len()
    }

    /// The plan is made and the script of every remote conflict rename in
    /// it is built: once the run renames or copies anything, this holds.
    pub open spec fn scripts_built(&self) -> bool {
        &&& self.plan is Some
        &&& self.scripts@.map_values(|x: (usize, String)| (x.0 as nat, x.1@)) == remote_renames_of(
            self.plan->Some_0.renames@,
            self.tasks@,
            self.windows,
        )
    }

    /// What never changes once the run started.
    pub open spec fn same_run(&self, other: SyncRun) -> bool {
        &&& self.local == other.local
        &&& self.tasks == other.tasks
        &&& self.windows == other.windows
        &&& self.known_hosts == other.known_hosts
        &&& self.host_name == other.host_name
    }

    /// Everything but the stage is unchanged.
    pub open spec fn only_stage(&self, other: SyncRun) -> bool {
        &&& self.same_run(other)
        &&& self.workspace == other.workspace
        &&& self.plan == other.plan
        &&& self.scripts == other.scripts
    }
}

/// Starting task `i` (after the local snapshot, or after task `i - 1`):
/// past the last task the snapshots are scanned; otherwise the task's
/// destination is checked and the server is prepared.
pub open spec fn begin_task_outcome(g: SyncRun, f: SyncRun, i: int, r: SyncStep) -> bool {
    &&& f.only_stage(g)
    &&& if i >= g.tasks@.len() {
        &&& f.stage == Stage::Scan
        &&& r.notices@.len() == 0
        &&& r.action matches SyncAction::Scan(dirs) && lines(dirs@) == g.snapshots()
    } else {
        let t = g.task_at(i);
        match validation(t.server.destination_of(), t.remote@) {
            Err(e) => f.stage == Stage::Over && finished_with(r, e),
            Ok(()) => {
                &&& f.stage == Stage::Prepare(i as usize)
                &&& r.notices@.len() == 0
                &&& command_is(
                    r.action,
                    i,
                    "ssh"@,
                    ssh_line(t.server, g.windows, opt_str(g.known_hosts), false, prepare_script(t.remote@)),
                    t.local@,
                )
            },
        }
    }
}

/// Making the snapshot directory of task `i`.
pub open spec fn remote_dir_outcome(g: SyncRun, f: SyncRun, i: int, r: SyncStep) -> bool {
    &&& f.only_stage(g)
    &&& f.stage == Stage::RemoteDir(i as usize)
    &&& r.notices@.len() == 0
    &&& r.action matches SyncAction::MakeDir(d) && d@ == snapshot_of(g.workspace@, i + 1)
}

/// The next remote conflict rename, `k`, or the local ones when none is
/// left.
pub open spec fn remote_rename_outcome(g: SyncRun, f: SyncRun, k: int, cancelled: bool, pre: Seq<Seq<char>>, r: SyncStep) -> bool {
    if k >= g.scripts@.len() {
        local_rename_outcome(g, f, 0, cancelled, pre, r)
    } else {
        let (t, script) = (g.scripts@[k].0 as int, g.scripts@[k].1@);
        &&& f.only_stage(g)
        &&& f.stage == Stage::RemoteRename(k as usize)
        &&& lines(r.notices@) == pre
        &&& command_is(
            r.action,
            t,
            "ssh"@,
            ssh_line(g.tasks@[t].server, g.windows, opt_str(g.known_hosts), false, script),
            g.tasks@[t].local@,
        )
    }
}

/// The first rename of the local folder at or after `j`: the user may stop
/// before it; after the last one the merged folder is copied back.
pub open spec fn local_rename_outcome(g: SyncRun, f: SyncRun, j: int, cancelled: bool, pre: Seq<Seq<char>>, r: SyncStep) -> bool {
    let rs = g.plan->Some_0.renames@;
    let next = first_local(rs, j);
    &&& f.only_stage(g)
    &&& lines(r.notices@) == pre
    &&& if next >= rs.len() {
        &&& f.stage == Stage::CopyBack
        &&& command_is(
            r.action,
            0,
            "rsync"@,
            copy_options(merged_of(g.workspace@), g.local@, true, g.windows),
            g.local@,
        )
    } else if cancelled {
        f.stage == Stage::Over && (r.action matches SyncAction::Finish(Err(m)) && m@ == stop_text())
    } else {
        &&& f.stage == Stage::LocalRename(next as usize)
        &&& r.action matches SyncAction::Rename { root, index } && root@ == g.local@ && index
            == next
    }
}

/// The index of the first rename of the local copy (participant 0) at or
/// after `j`, or the number of renames.
pub open spec fn first_local(rs: Seq<crate::merge::Rename>, j: int) -> int
    decreases rs.len() - j,
{
    if j >= rs.len() || j < 0 {
        if j < 0 {
            first_local(rs, 0)
        } else {
            rs.len() as int
        }
    } else if rs[j].participant == 0 {
        j
    } else {
        first_local(rs, j + 1)
    }
}

/// Copying the merged folder to server `i` without replacing anything, or
/// the local comparison after the last.
pub open spec fn push_outcome(g: SyncRun, f: SyncRun, i: int, r: SyncStep) -> bool {
    &&& f.only_stage(g)
    &&& r.notices@.len() == 0
    &&& if i >= g.tasks@.len() {
        &&& f.stage == Stage::VerifyLocal
        &&& command_is(
            r.action,
            0,
            "rsync"@,
            verify_options(merged_of(g.workspace@), g.local@, None, g.windows),
            g.local@,
        )
    } else {
        let t = g.task_at(i);
        &&& f.stage == Stage::Push(i as usize)
        &&& command_is(
            r.action,
            i,
            "rsync"@,
            seq!["--ignore-existing"@, "--omit-dir-times"@] + sync_options(
                t.server,
                t.remote@,
                false,
                false,
                g.windows,
                g.ssh_opts(i),
            ),
            merged_of(g.workspace@),
        )
    }
}

/// Comparing the merged folder with server `i`, or the end after the last.
pub open spec fn verify_remote_outcome(g: SyncRun, f: SyncRun, i: int, r: SyncStep) -> bool {
    &&& f.only_stage(g)
    &&& if i >= g.tasks@.len() {
        &&& f.stage == Stage::Over
        &&& lines(r.notices@) == seq![completed_line()]
        &&& r.action matches SyncAction::Finish(Ok(()))
    } else {
        let t = g.task_at(i);
        &&& f.stage == Stage::VerifyRemote(i as usize)
        &&& r.notices@.len() == 0
        &&& command_is(
            r.action,
            i,
            "rsync"@,
            verify_options(
                merged_of(g.workspace@),
                crate::destination::rsync_destination_of(t.server.destination_of(), t.remote@),
                Some(g.ssh_opts(i)),
                g.windows,
            ),
            t.local@,
        )
    }
}

impl SyncRun {
    /// A run for the local folder `local` and its sync tasks (at least one).
    pub fn new(local: String, tasks: Vec<Task>, windows: bool, known_hosts: Option<String>, host_name: Option<String>) -> (r: SyncRun)
        requires
            tasks@.len() > 0,
        ensures
            r.local == local,
            r.tasks == tasks,
            r.windows == windows,
            r.known_hosts == known_hosts,
            r.host_name == host_name,
            r.plan is None,
            r.scripts@.len() == 0,
            r.stage == Stage::Start,
            r.wf(),
    {
        SyncRun {
            local,
            tasks,
            windows,
            known_hosts,
            host_name,
            workspace: String::new(),
            plan: None,
            scripts: Vec::new(),
            stage: Stage::Start,
        }
    }

    fn ssh_opts_exec(&self, i: usize) -> (r: Vec<String>)
        requires
            i < self.tasks@.len(),
        ensures
            strs(r@) == self.ssh_opts(i as int),
    {
        let kh: Option<&str> = match &self.known_hosts {
            Some(p) => Some(p.as_str()),
            None => None,
        };
        ssh_args(&self.tasks[i].server, self.windows, kh)
    }

    fn snapshot(&self, k: usize) -> (r: String)
        ensures
            r@ == snapshot_of(self.workspace@, k as int),
    {
        proof {
            reveal_strlit("local");
            reveal_strlit("remote-");
        }
        if k == 0 {
            join_path(self.workspace.as_str(), &chars("local"))
        } else {
            let mut name = chars("remote-");
            crate::text::push_all(&mut name, &decimal_of((k - 1) as u64));
            join_path(self.workspace.as_str(), &name)
        }
    }

    fn merged(&self) -> (r: String)
        ensures
            r@ == merged_of(self.workspace@),
    {
        proof {
            reveal_strlit("merged");
        }
        join_path(self.workspace.as_str(), &chars("merged"))
    }

    fn begin_task(&mut self, i: usize) -> (r: SyncStep)
        requires
            old(self).wf(),
            i <= old(self).tasks@.len(),
        ensures
            final(self).wf(),
            begin_task_outcome(*old(self), *final(self), i as int, r),
    {
        if i >= self.tasks.len() {
            let mut dirs: Vec<String> = Vec::new();
            let first = self.snapshot(0);
            dirs.push(first);
            assert(lines(dirs@) =~= self.snapshots().take(1));
            let n = self.tasks.len();
            let mut k: usize = 0;
            while k < n
                invariant
                    n == self.tasks@.len(),
                    k <= n,
                    lines(dirs@) == self.snapshots().take(k + 1),
                decreases n - k,
            {
                let ghost before = dirs@;
                let d = self.snapshot(k + 1);
                dirs.push(d);
                assert(lines(dirs@) =~= lines(before).push(d@));
                assert(self.snapshots().take(k + 2) =~= self.snapshots().take(k + 1).push(
                    snapshot_of(self.workspace@, k + 1),
                ));
                k = k + 1;
            }
            assert(self.snapshots().take(k + 1) == self.snapshots());
            self.stage = Stage::Scan;
            return SyncStep { notices: Vec::new(), action: SyncAction::Scan(dirs) };
        }
        let config = Config { host: self.tasks[i].server.destination(), dir: self.tasks[i].remote.clone() };
        match config.validate() {
            Err(e) => {
                self.stage = Stage::Over;
                SyncStep { notices: Vec::new(), action: SyncAction::Finish(Err(e)) }
            },
            Ok(()) => {
                proof {
                    reveal_strlit("command -v sha256sum >/dev/null || { echo 'Install sha256sum on this host before syncing.' >&2; exit 1; }; mkdir -p -- ");
                }
                let mut script = chars("command -v sha256sum >/dev/null || { echo 'Install sha256sum on this host before syncing.' >&2; exit 1; }; mkdir -p -- ");
                push_str(&mut script, quote(self.tasks[i].remote.as_str()).as_str());
                let s = string_of(&script);
                let args = ssh_call(&self.tasks[i].server, self.windows, &self.known_hosts, false, s.as_str());
                self.stage = Stage::Prepare(i);
                SyncStep {
                    notices: Vec::new(),
                    action: SyncAction::Command {
                        task: i,
                        program: owned("ssh"),
                        args,
                        dir: self.tasks[i].local.clone(),
                    },
                }
            },
        }
    }

    fn remote_dir(&mut self, i: usize) -> (r: SyncStep)
        requires
            old(self).wf(),
            i < old(self).tasks@.len(),
        ensures
            final(self).wf(),
            remote_dir_outcome(*old(self), *final(self), i as int, r),
    {
        let n = self.tasks.len();
        assert(i < n);
        let d = self.snapshot(i + 1);
        self.stage = Stage::RemoteDir(i);
        SyncStep { notices: Vec::new(), action: SyncAction::MakeDir(d) }
    }

    fn renames_local(&self, k: usize) -> (r: bool)
        requires
            self.plan is Some,
            k < self.plan->Some_0.renames@.len(),
        ensures
            r == (self.plan->Some_0.renames@[k as int].participant == 0),
    {
        match &self.plan {
            Some(p) => p.renames[k].participant == 0,
            None => false,
        }
    }

    fn local_rename_from(&mut self, j: usize, cancelled: bool, notices: Vec<String>) -> (r: SyncStep)
        requires
            old(self).wf(),
            old(self).scripts_built(),
            j <= old(self).plan->Some_0.renames@.len(),
        ensures
            final(self).wf(),
            local_rename_outcome(*old(self), *final(self), j as int, cancelled, lines(notices@), r),
    {
        let n = match &self.plan {
            Some(p) => p.renames.len(),
            None => 0,
        };
        let mut k = j;
        while k < n && !self.renames_local(k)
            invariant
                self.plan is Some,
                n == self.plan->Some_0.renames@.len(),
                j <= k <= n,
                first_local(self.plan->Some_0.renames@, j as int) == first_local(
                    self.plan->Some_0.renames@,
                    k as int,
                ),
            decreases n - k,
        {
            k = k + 1;
        }
        if k >= n {
            let merged = self.merged();
            let args = copy_args(merged.as_str(), self.local.as_str(), true, self.windows);
            self.stage = Stage::CopyBack;
            return SyncStep {
                notices,
                action: SyncAction::Command { task: 0, program: owned("rsync"), args, dir: self.local.clone() },
            };
        }
        if cancelled {
            self.stage = Stage::Over;
            return SyncStep {
                notices,
                action: SyncAction::Finish(Err(owned("Stopped. Completed copies and conflict renames remain in place."))),
            };
        }
        self.stage = Stage::LocalRename(k);
        SyncStep {
            notices,
            action: SyncAction::Rename { root: self.local.clone(), index: k },
        }
    }

    fn remote_rename_from(&mut self, k: usize, cancelled: bool, notices: Vec<String>) -> (r: SyncStep)
        requires
            old(self).wf(),
            old(self).scripts_built(),
            k <= old(self).scripts@.len(),
        ensures
            final(self).wf(),
            remote_rename_outcome(*old(self), *final(self), k as int, cancelled, lines(notices@), r),
    {
        if k >= self.scripts.len() {
            return self.local_rename_from(0, cancelled, notices);
        }
        let t = self.scripts[k].0;
        let args = ssh_call(&self.tasks[t].server, self.windows, &self.known_hosts, false, self.scripts[k].1.as_str());
        self.stage = Stage::RemoteRename(k);
        SyncStep {
            notices,
            action: SyncAction::Command { task: t, program: owned("ssh"), args, dir: self.tasks[t].local.clone() },
        }
    }

    fn push_from(&mut self, i: usize) -> (r: SyncStep)
        requires
            old(self).wf(),
            old(self).scripts_built(),
            i <= old(self).tasks@.len(),
        ensures
            final(self).wf(),
            push_outcome(*old(self), *final(self), i as int, r),
    {
        let merged = self.merged();
        if i >= self.tasks.len() {
            let args = verify_args(merged.as_str(), self.local.as_str(), None, self.windows);
            self.stage = Stage::VerifyLocal;
            return SyncStep {
                notices: Vec::new(),
                action: SyncAction::Command { task: 0, program: owned("rsync"), args, dir: self.local.clone() },
            };
        }
        let opts = self.ssh_opts_exec(i);
        let base = sync_args(&self.tasks[i].server, self.tasks[i].remote.as_str(), false, false, self.windows, &opts);
        let args = merged_push_args(&base);
        self.stage = Stage::Push(i);
        SyncStep {
            notices: Vec::new(),
            action: SyncAction::Command { task: i, program: owned("rsync"), args, dir: merged },
        }
    }

    fn verify_remote_from(&mut self, i: usize) -> (r: SyncStep)
        requires
            old(self).wf(),
            old(self).scripts_built(),
            i <= old(self).tasks@.len(),
        ensures
            final(self).wf(),
            verify_remote_outcome(*old(self), *final(self), i as int, r),
    {
        if i >= self.tasks.len() {
            self.stage = Stage::Over;
            let mut notices: Vec<String> = Vec::new();
            notices.push(owned("Folder sync completed. No deletions propagated.\n"));
            assert(lines(notices@) =~= seq![completed_line()]);
            return SyncStep { notices, action: SyncAction::Finish(Ok(())) };
        }
        let merged = self.merged();
        let opts = self.ssh_opts_exec(i);
        let dest = crate::destination::rsync_destination(
            self.tasks[i].server.destination().as_str(),
            self.tasks[i].remote.as_str(),
        );
        let args = verify_args(merged.as_str(), dest.as_str(), Some(&opts), self.windows);
        self.stage = Stage::VerifyRemote(i);
        SyncStep {
            notices: Vec::new(),
            action: SyncAction::Command { task: i, program: owned("rsync"), args, dir: self.tasks[i].local.clone() },
        }
    }
}


/// The participants' names: this host's (trimmed; `Host` when it could not
/// be read), then each server's.
pub open spec fn names_of(host: Option<String>, tasks: Seq<Task>) -> Seq<Seq<char>> {
    seq![trim(match host {
        Some(h) => h@,
        None => "Host"@,
    })] + tasks.map_values(|t: Task| t.server.name@)
}

/// The paths of the trees, file paths then directories, tree after tree.
pub open spec fn tree_listing(ts: Seq<Tree>) -> Seq<Seq<char>>
    decreases ts.len(),
{
    if ts.len() == 0 {
        seq![]
    } else {
        tree_listing(ts.drop_last()) + ts.last().listed()
    }
}

/// Every path a Windows sync checks: the copies' paths, then the merged
/// folder's files and directories, with forward slashes.
pub open spec fn windows_listing(ts: Seq<Tree>, files: Seq<crate::merge::FileEntry>, dirs: Seq<Seq<char>>) -> Seq<Seq<char>> {
    (tree_listing(ts) + files.map_values(|e: crate::merge::FileEntry| e.0) + dirs).map_values(
        |p: Seq<char>| crate::browser::remote_path_of(p, true),
    )
}

/// The run ends with `e` and changes nothing else.
pub open spec fn fails(g: SyncRun, f: SyncRun, e: Seq<char>, r: SyncStep) -> bool {
    f.only_stage(g) && f.stage == Stage::Over && finished_with(r, e)
}

/// The local snapshot is taken.
pub open spec fn copy_local_command(g: SyncRun, f: SyncRun, r: SyncStep) -> bool {
    &&& f.only_stage(g)
    &&& f.stage == Stage::CopyLocal
    &&& command_is(
        r.action,
        0,
        "rsync"@,
        copy_options(g.local@, snapshot_of(g.workspace@, 0), false, g.windows),
        g.local@,
    )
}

pub open spec fn start_outcome(g: SyncRun, f: SyncRun, cancelled: bool, r: SyncStep) -> bool {
    if cancelled {
        fails(g, f, stop_text(), r)
    } else {
        f.only_stage(g) && f.stage == Stage::Workspace && r.notices@.len() == 0
            && r.action is MakeWorkspace
    }
}

pub open spec fn workspace_outcome(g: SyncRun, f: SyncRun, res: Result<String, String>, r: SyncStep) -> bool {
    match res {
        Err(e) => fails(g, f, e@, r),
        Ok(ws) => {
            &&& f.same_run(g)
            &&& f.workspace == ws
            &&& f.plan == g.plan
            &&& f.scripts == g.scripts
            &&& f.stage == Stage::LocalDir
            &&& r.notices@.len() == 0
            &&& r.action matches SyncAction::MakeDir(d) && d@ == snapshot_of(ws@, 0)
        },
    }
}

pub open spec fn local_dir_outcome(g: SyncRun, f: SyncRun, res: Result<String, String>, r: SyncStep) -> bool {
    match res {
        Err(e) => fails(g, f, e@, r),
        Ok(_) => {
            &&& lines(r.notices@) == seq![reading_line()]
            &&& if g.windows {
                &&& f.only_stage(g)
                &&& f.stage == Stage::LocalManifest
                &&& command_is(
                    r.action,
                    0,
                    "sh"@,
                    seq!["-c"@, windows_manifest_script_of("."@)],
                    g.local@,
                )
            } else {
                copy_local_command(g, f, r)
            }
        },
    }
}

pub open spec fn local_manifest_outcome(g: SyncRun, f: SyncRun, res: Result<String, String>, r: SyncStep) -> bool {
    match res {
        Err(e) => fails(g, f, e@, r),
        Ok(m) => match manifest_verdict(m@) {
            Err(e) => fails(g, f, e, r),
            Ok(()) => r.notices@.len() == 0 && copy_local_command(g, f, r),
        },
    }
}

pub open spec fn prepare_outcome(g: SyncRun, f: SyncRun, i: int, res: Result<String, String>, r: SyncStep) -> bool {
    match res {
        Err(e) => fails(g, f, e@, r),
        Ok(_) => if g.windows {
            let t = g.task_at(i);
            &&& f.only_stage(g)
            &&& f.stage == Stage::RemoteManifest(i as usize)
            &&& r.notices@.len() == 0
            &&& command_is(
                r.action,
                i,
                "ssh"@,
                ssh_line(
                    t.server,
                    g.windows,
                    opt_str(g.known_hosts),
                    false,
                    windows_manifest_script_of(t.remote@),
                ),
                t.local@,
            )
        } else {
            remote_dir_outcome(g, f, i, r)
        },
    }
}

pub open spec fn remote_manifest_outcome(g: SyncRun, f: SyncRun, i: int, res: Result<String, String>, r: SyncStep) -> bool {
    match res {
        Err(e) => fails(g, f, e@, r),
        Ok(m) => match manifest_verdict(m@) {
            Err(e) => fails(g, f, e, r),
            Ok(()) => remote_dir_outcome(g, f, i, r),
        },
    }
}

pub open spec fn remote_dir_done_outcome(g: SyncRun, f: SyncRun, i: int, res: Result<String, String>, r: SyncStep) -> bool {
    match res {
        Err(e) => fails(g, f, e@, r),
        Ok(_) => {
            let t = g.task_at(i);
            &&& f.only_stage(g)
            &&& f.stage == Stage::Pull(i as usize)
            &&& r.notices@.len() == 0
            &&& command_is(
                r.action,
                i,
                "rsync"@,
                sync_options(t.server, t.remote@, true, false, g.windows, g.ssh_opts(i)),
                snapshot_of(g.workspace@, i + 1),
            )
        },
    }
}

pub open spec fn scan_outcome(g: SyncRun, f: SyncRun, res: Result<Vec<Tree>, String>, r: SyncStep) -> bool {
    match res {
        Err(e) => fails(g, f, e@, r),
        Ok(ts) => match plan_of(ts@, names_of(g.host_name, g.tasks@)) {
            Err(e) => fails(g, f, e, r),
            Ok(pv) => if g.windows && crate::platform::windows_paths_verdict(
                windows_listing(ts@, pv.0, pv.2),
            ) is Err {
                fails(g, f, crate::platform::windows_paths_verdict(windows_listing(ts@, pv.0, pv.2))->Err_0, r)
            } else {
                &&& f.same_run(g)
                &&& f.workspace == g.workspace
                &&& f.scripts == g.scripts
                &&& f.plan matches Some(p) && (crate::merge::file_entries(p.files@), rename_entries(p.renames@), name_views(p.dirs@)) == pv
                &&& f.stage == Stage::Materialize
                &&& r.notices@.len() == 0
                &&& r.action matches SyncAction::Materialize { output, snapshots } && output@
                    == merged_of(g.workspace@) && lines(snapshots@) == g.snapshots()
            },
        },
    }
}

/// Once the merged folder is built: the plan is summarized, every remote
/// rename script is built, and then the renames start.
pub open spec fn materialize_outcome(g: SyncRun, f: SyncRun, cancelled: bool, res: Result<String, String>, r: SyncStep) -> bool {
    match res {
        Err(e) => fails(g, f, e@, r),
        Ok(_) => {
            let p = g.plan->Some_0;
            let mid = SyncRun { scripts: f.scripts, ..g };
            &&& f.scripts@.map_values(|x: (usize, String)| (x.0 as nat, x.1@)) == remote_renames_of(
                p.renames@,
                g.tasks@,
                g.windows,
            )
            &&& remote_rename_outcome(
                mid,
                f,
                0,
                cancelled,
                seq![decimal(p.files@.len() as nat) + " files to keep; "@ + decimal(p.renames@.len() as nat)
                    + " conflict versions to rename.\n"@],
                r,
            )
        },
    }
}

/// A changed folder found by a final comparison ends the run.
pub open spec fn verify_local_outcome(g: SyncRun, f: SyncRun, res: Result<String, String>, r: SyncStep) -> bool {
    match res {
        Err(e) => fails(g, f, e@, r),
        Ok(out) => if trim(out@).len() != 0 {
            fails(
                g,
                f,
                "Local files changed during sync. Preserved all versions; run Sync again after edits finish."@,
                r,
            )
        } else {
            verify_remote_outcome(g, f, 0, r)
        },
    }
}

pub open spec fn verify_remote_done_outcome(g: SyncRun, f: SyncRun, i: int, res: Result<String, String>, r: SyncStep) -> bool {
    match res {
        Err(e) => fails(g, f, e@, r),
        Ok(out) => if trim(out@).len() != 0 {
            fails(
                g,
                f,
                "Files on "@ + g.task_at(i).server.name@ + " changed during sync. Run Sync again after edits finish."@,
                r,
            )
        } else {
            verify_remote_outcome(g, f, i + 1, r)
        },
    }
}

proof fn lemma_script_tasks(renames: Seq<crate::merge::Rename>, tasks: Seq<Task>, windows: bool)
    requires
        forall|k: int| 0 <= k < renames.len() ==> (#[trigger] renames[k]).participant <= tasks.len(),
    ensures
        forall|k: int|
            0 <= k < remote_renames_of(renames, tasks, windows).len() ==> (#[trigger] remote_renames_of(
                renames,
                tasks,
                windows,
            )[k]).0 < tasks.len(),
    decreases renames.len(),
{
    if renames.len() > 0 {
        let d = renames.drop_last();
        assert forall|k: int| 0 <= k < d.len() implies (#[trigger] d[k]).participant <= tasks.len() by {
            assert(d[k] == renames[k]);
        }
        lemma_script_tasks(d, tasks, windows);
        let rest = remote_renames_of(d, tasks, windows);
        let last = renames.last();
        assert(last == renames[renames.len() - 1]);
        if last.participant > 0 {
            let t = (last.participant - 1) as nat;
            let pushed = rest.push((t, crate::commands::rename_text(tasks[t as int].remote@, last.from@, last.to@, last.hash@, windows)));
            assert forall|k: int| 0 <= k < pushed.len() implies (#[trigger] pushed[k]).0 < tasks.len() by {
                if k < rest.len() {
                    assert(pushed[k] == rest[k]);
                }
            }
        }
    }
}

/// One step of the run, as `SyncRun::step` takes it: `s` before, `f` after,
/// `r` what it says.
pub open spec fn run_step(s: SyncRun, f: SyncRun, cancelled: bool, event: SyncEvent, r: SyncStep) -> bool {
    f.wf() && f.same_run(s) && match (s.stage, event) {
        (Stage::Start, _) => start_outcome(s, f, cancelled, r),
        (Stage::Workspace, SyncEvent::Workspace(res)) => workspace_outcome(s, f, res, r),
        (Stage::LocalDir, SyncEvent::Ran(res)) => local_dir_outcome(s, f, res, r),
        (Stage::LocalManifest, SyncEvent::Ran(res)) => local_manifest_outcome(s, f, res, r),
        (Stage::CopyLocal, SyncEvent::Ran(res)) => match res {
            Err(e) => fails(s, f, e@, r),
            Ok(_) => begin_task_outcome(s, f, 0, r),
        },
        (Stage::Prepare(i), SyncEvent::Ran(res)) => prepare_outcome(s, f, i as int, res, r),
        (Stage::RemoteManifest(i), SyncEvent::Ran(res)) => remote_manifest_outcome(s, f, i as int, res, r),
        (Stage::RemoteDir(i), SyncEvent::Ran(res)) => remote_dir_done_outcome(s, f, i as int, res, r),
        (Stage::Pull(i), SyncEvent::Ran(res)) => match res {
            Err(e) => fails(s, f, e@, r),
            Ok(_) => begin_task_outcome(s, f, i + 1, r),
        },
        (Stage::Scan, SyncEvent::Trees(res)) => scan_outcome(s, f, res, r),
        (Stage::Materialize, SyncEvent::Ran(res)) => materialize_outcome(s, f, cancelled, res, r),
        (Stage::RemoteRename(k), SyncEvent::Ran(res)) => match res {
            Err(e) => fails(s, f, e@, r),
            Ok(_) => remote_rename_outcome(s, f, k + 1, cancelled, seq![], r),
        },
        (Stage::LocalRename(j), SyncEvent::Ran(res)) => match res {
            Err(e) => fails(s, f, e@, r),
            Ok(_) => local_rename_outcome(s, f, j + 1, cancelled, seq![], r),
        },
        (Stage::CopyBack, SyncEvent::Ran(res)) => match res {
            Err(e) => fails(s, f, e@, r),
            Ok(_) => push_outcome(s, f, 0, r),
        },
        (Stage::Push(i), SyncEvent::Ran(res)) => match res {
            Err(e) => fails(s, f, e@, r),
            Ok(_) => push_outcome(s, f, i + 1, r),
        },
        (Stage::VerifyLocal, SyncEvent::Ran(res)) => verify_local_outcome(s, f, res, r),
        (Stage::VerifyRemote(i), SyncEvent::Ran(res)) => verify_remote_done_outcome(s, f, i as int, res, r),
        _ => f.stage == s.stage && f.only_stage(s)
            && r.notices@.len() == 0 && r.action is Idle,
    }
}

impl SyncRun {
    /// One step of the run: `cancelled` is whether the user asked to stop,
    /// `event` what the last action came to. See the outcome functions for
    /// each stage.
    pub fn step(&mut self, cancelled: bool, event: SyncEvent) -> (r: SyncStep)
        requires
            old(self).wf(),
            event matches SyncEvent::Trees(Ok(ts)) ==> forall|k: int| 0 <= k < ts@.len() ==> (#[trigger] ts@[k]).wf(),
        ensures
            run_step(*old(self), *final(self), cancelled, event, r),
    {
        match (&self.stage, event) {
            (Stage::Start, _) => self.on_start(cancelled),
            (Stage::Workspace, SyncEvent::Workspace(res)) => self.on_workspace(res),
            (Stage::LocalDir, SyncEvent::Ran(res)) => self.on_local_dir(res),
            (Stage::LocalManifest, SyncEvent::Ran(res)) => self.on_local_manifest(res),
            (Stage::CopyLocal, SyncEvent::Ran(res)) => match res {
                Err(e) => self.fail(e),
                Ok(_) => self.begin_task(0),
            },
            (Stage::Prepare(i), SyncEvent::Ran(res)) => {
                let i = *i;
                self.on_prepare(i, res)
            },
            (Stage::RemoteManifest(i), SyncEvent::Ran(res)) => {
                let i = *i;
                self.on_remote_manifest(i, res)
            },
            (Stage::RemoteDir(i), SyncEvent::Ran(res)) => {
                let i = *i;
                self.on_remote_dir(i, res)
            },
            (Stage::Pull(i), SyncEvent::Ran(res)) => {
                let i = *i;
                let n = self.tasks.len();
                assert(i < n);
                match res {
                    Err(e) => self.fail(e),
                    Ok(_) => self.begin_task(i + 1),
                }
            },
            (Stage::Scan, SyncEvent::Trees(res)) => self.on_scan(res),
            (Stage::Materialize, SyncEvent::Ran(res)) => self.on_materialize(cancelled, res),
            (Stage::RemoteRename(k), SyncEvent::Ran(res)) => {
                let k = *k;
                let n = self.scripts.len();
                assert(k < n);
                match res {
                    Err(e) => self.fail(e),
                    Ok(_) => {
                        let none: Vec<String> = Vec::new();
                        assert(lines(none@) =~= Seq::<Seq<char>>::empty());
                        self.remote_rename_from(k + 1, cancelled, none)
                    },
                }
            },
            (Stage::LocalRename(j), SyncEvent::Ran(res)) => {
                let j = *j;
                let n = match &self.plan {
                    Some(p) => p.renames.len(),
                    None => 0,
                };
                assert(j < n);
                match res {
                    Err(e) => self.fail(e),
                    Ok(_) => {
                        let none: Vec<String> = Vec::new();
                        assert(lines(none@) =~= Seq::<Seq<char>>::empty());
                        self.local_rename_from(j + 1, cancelled, none)
                    },
                }
            },
            (Stage::CopyBack, SyncEvent::Ran(res)) => match res {
                Err(e) => self.fail(e),
                Ok(_) => self.push_from(0),
            },
            (Stage::Push(i), SyncEvent::Ran(res)) => {
                let i = *i;
                let n = self.tasks.len();
                assert(i < n);
                match res {
                    Err(e) => self.fail(e),
                    Ok(_) => self.push_from(i + 1),
                }
            },
            (Stage::VerifyLocal, SyncEvent::Ran(res)) => self.on_verify_local(res),
            (Stage::VerifyRemote(i), SyncEvent::Ran(res)) => {
                let i = *i;
                self.on_verify_remote(i, res)
            },
            _ => SyncStep { notices: Vec::new(), action: SyncAction::Idle },
        }
    }

    fn fail(&mut self, e: String) -> (r: SyncStep)
        requires
            old(self).wf(),
        ensures
            final(self).wf(),
            fails(*old(self), *final(self), e@, r),
    {
        self.stage = Stage::Over;
        SyncStep { notices: Vec::new(), action: SyncAction::Finish(Err(e)) }
    }

    fn on_start(&mut self, cancelled: bool) -> (r: SyncStep)
        requires
            old(self).wf(),
        ensures
            final(self).wf(),
            start_outcome(*old(self), *final(self), cancelled, r),
    {
        match check_cancel(cancelled) {
            Err(e) => self.fail(e),
            Ok(()) => {
                self.stage = Stage::Workspace;
                SyncStep { notices: Vec::new(), action: SyncAction::MakeWorkspace }
            },
        }
    }

    fn on_workspace(&mut self, res: Result<String, String>) -> (r: SyncStep)
        requires
            old(self).wf(),
        ensures
            final(self).wf(),
            workspace_outcome(*old(self), *final(self), res, r),
    {
        match res {
            Err(e) => self.fail(e),
            Ok(ws) => {
                self.workspace = ws;
                let d = self.snapshot(0);
                self.stage = Stage::LocalDir;
                SyncStep { notices: Vec::new(), action: SyncAction::MakeDir(d) }
            },
        }
    }

    fn copy_local(&mut self, notices: Vec<String>) -> (r: SyncStep)
        requires
            old(self).wf(),
        ensures
            final(self).wf(),
            copy_local_command(*old(self), *final(self), r),
            r.notices == notices,
    {
        let snap = self.snapshot(0);
        let args = copy_args(self.local.as_str(), snap.as_str(), false, self.windows);
        self.stage = Stage::CopyLocal;
        SyncStep {
            notices,
            action: SyncAction::Command { task: 0, program: owned("rsync"), args, dir: self.local.clone() },
        }
    }

    fn on_local_dir(&mut self, res: Result<String, String>) -> (r: SyncStep)
        requires
            old(self).wf(),
        ensures
            final(self).wf(),
            local_dir_outcome(*old(self), *final(self), res, r),
    {
        match res {
            Err(e) => self.fail(e),
            Ok(_) => {
                let mut notices: Vec<String> = Vec::new();
                notices.push(owned("Reading copies and comparing SHA-256 hashes...\n"));
                assert(lines(notices@) =~= seq![reading_line()]);
                if self.windows {
                    let mut args: Vec<String> = Vec::new();
                    args.push(owned("-c"));
                    args.push(windows_manifest_script("."));
                    assert(strs(args@) =~= seq!["-c"@, windows_manifest_script_of("."@)]);
                    self.stage = Stage::LocalManifest;
                    SyncStep {
                        notices,
                        action: SyncAction::Command { task: 0, program: owned("sh"), args, dir: self.local.clone() },
                    }
                } else {
                    self.copy_local(notices)
                }
            },
        }
    }

    fn on_local_manifest(&mut self, res: Result<String, String>) -> (r: SyncStep)
        requires
            old(self).wf(),
        ensures
            final(self).wf(),
            local_manifest_outcome(*old(self), *final(self), res, r),
    {
        match res {
            Err(e) => self.fail(e),
            Ok(m) => match validate_windows_manifest(m.as_str()) {
                Err(e) => self.fail(e),
                Ok(()) => self.copy_local(Vec::new()),
            },
        }
    }

    fn on_prepare(&mut self, i: usize, res: Result<String, String>) -> (r: SyncStep)
        requires
            old(self).wf(),
            i < old(self).tasks@.len(),
        ensures
            final(self).wf(),
            prepare_outcome(*old(self), *final(self), i as int, res, r),
    {
        match res {
            Err(e) => self.fail(e),
            Ok(_) => {
                if self.windows {
                    let script = windows_manifest_script(self.tasks[i].remote.as_str());
                    let args = ssh_call(&self.tasks[i].server, self.windows, &self.known_hosts, false, script.as_str());
                    self.stage = Stage::RemoteManifest(i);
                    SyncStep {
                        notices: Vec::new(),
                        action: SyncAction::Command { task: i, program: owned("ssh"), args, dir: self.tasks[i].local.clone() },
                    }
                } else {
                    self.remote_dir(i)
                }
            },
        }
    }

    fn on_remote_manifest(&mut self, i: usize, res: Result<String, String>) -> (r: SyncStep)
        requires
            old(self).wf(),
            i < old(self).tasks@.len(),
        ensures
            final(self).wf(),
            remote_manifest_outcome(*old(self), *final(self), i as int, res, r),
    {
        match res {
            Err(e) => self.fail(e),
            Ok(m) => match validate_windows_manifest(m.as_str()) {
                Err(e) => self.fail(e),
                Ok(()) => self.remote_dir(i),
            },
        }
    }

    fn on_remote_dir(&mut self, i: usize, res: Result<String, String>) -> (r: SyncStep)
        requires
            old(self).wf(),
            i < old(self).tasks@.len(),
        ensures
            final(self).wf(),
            remote_dir_done_outcome(*old(self), *final(self), i as int, res, r),
    {
        match res {
            Err(e) => self.fail(e),
            Ok(_) => {
                let n = self.tasks.len();
                assert(i < n);
                let snap = self.snapshot(i + 1);
                let opts = self.ssh_opts_exec(i);
                let args = sync_args(&self.tasks[i].server, self.tasks[i].remote.as_str(), true, false, self.windows, &opts);
                self.stage = Stage::Pull(i);
                SyncStep {
                    notices: Vec::new(),
                    action: SyncAction::Command { task: i, program: owned("rsync"), args, dir: snap },
                }
            },
        }
    }

    fn on_scan(&mut self, res: Result<Vec<Tree>, String>) -> (r: SyncStep)
        requires
            old(self).wf(),
            res matches Ok(ts) ==> forall|k: int| 0 <= k < ts@.len() ==> (#[trigger] ts@[k]).wf(),
        ensures
            final(self).wf(),
            scan_outcome(*old(self), *final(self), res, r),
    {
        let ts = match res {
            Err(e) => return self.fail(e),
            Ok(ts) => ts,
        };
        let host = match &self.host_name {
            Some(h) => Some(h.clone()),
            None => None,
        };
        let names = participant_names(host, &self.tasks);
        assert(name_views(names@) =~= names_of(self.host_name, self.tasks@)) by {
            let nv = name_views(names@);
            let want = names_of(self.host_name, self.tasks@);
            assert(nv.len() == want.len());
            assert forall|k: int| 0 <= k < nv.len() implies nv[k] == want[k] by {
                if k > 0 {
                    let j = k - 1;
                    assert(names@[j + 1]@ == self.tasks@[j].server.name@);
                }
            }
        }
        let p = match plan(ts.as_slice(), names.as_slice()) {
            Err(e) => return self.fail(e),
            Ok(p) => p,
        };
        proof {
            let nv = name_views(names@);
            crate::merge::lemma_never_overwrites(ts@, nv);
            assert forall|k: int| 0 <= k < p.renames@.len() implies (#[trigger] p.renames@[k]).participant
                <= self.tasks@.len() by {
                assert(rename_entries(p.renames@)[k] == p.renames@[k]@);
                assert(crate::merge::rename_ok(ts@, plan_of(ts@, nv)->Ok_0.0, plan_of(ts@, nv)->Ok_0.1[k]));
            }
        }
        if self.windows {
            match self.check_windows_paths(&ts, &p) {
                Err(e) => return self.fail(e),
                Ok(()) => {},
            }
        }
        let mut dirs: Vec<String> = Vec::new();
        let first = self.snapshot(0);
        dirs.push(first);
        assert(lines(dirs@) =~= self.snapshots().take(1));
        let n = self.tasks.len();
        let mut k: usize = 0;
        while k < n
            invariant
                n == self.tasks@.len(),
                k <= n,
                lines(dirs@) == self.snapshots().take(k + 1),
            decreases n - k,
        {
            let ghost before = dirs@;
            let d = self.snapshot(k + 1);
            dirs.push(d);
            assert(lines(dirs@) =~= lines(before).push(d@));
            assert(self.snapshots().take(k + 2) =~= self.snapshots().take(k + 1).push(
                snapshot_of(self.workspace@, k + 1),
            ));
            k = k + 1;
        }
        assert(self.snapshots().take(k + 1) == self.snapshots());
        let output = self.merged();
        self.plan = Some(p);
        self.stage = Stage::Materialize;
        SyncStep { notices: Vec::new(), action: SyncAction::Materialize { output, snapshots: dirs } }
    }

    fn check_windows_paths(&self, ts: &Vec<Tree>, p: &Plan) -> (r: Result<(), String>)
        ensures
            match r {
                Ok(()) => crate::platform::windows_paths_verdict(windows_listing(ts@, crate::merge::file_entries(p.files@), name_views(p.dirs@))) is Ok,
                Err(e) => crate::platform::windows_paths_verdict(windows_listing(ts@, crate::merge::file_entries(p.files@), name_views(p.dirs@))) == Err::<(), Seq<char>>(e@),
            },
    {
        let mut all: Vec<String> = Vec::new();
        let mut i: usize = 0;
        while i < ts.len()
            invariant
                i <= ts@.len(),
                lines(all@) == tree_listing(ts@.take(i as int)),
            decreases ts@.len() - i,
        {
            let ghost before = all@;
            let es = ts[i].entries();
            let mut j: usize = 0;
            while j < es.len()
                invariant
                    j <= es@.len(),
                    lines(all@) == lines(before) + lines(es@).take(j as int),
                decreases es@.len() - j,
            {
                let ghost prev = all@;
                let item = es[j].clone();
                all.push(item);
                assert(lines(all@) =~= lines(prev).push(item@));
                assert(lines(es@).take(j + 1) =~= lines(es@).take(j as int).push(es@[j as int]@));
                j = j + 1;
            }
            assert(lines(es@).take(j as int) == lines(es@));
            assert(ts@.take(i + 1).drop_last() == ts@.take(i as int));
            assert(ts@.take(i + 1).last() == ts@[i as int]);
            i = i + 1;
        }
        assert(ts@.take(i as int) == ts@);
        let ghost trees_part = lines(all@);
        let mut k: usize = 0;
        while k < p.files.len()
            invariant
                k <= p.files@.len(),
                lines(all@) == trees_part + crate::merge::file_entries(p.files@).map_values(
                    |e: crate::merge::FileEntry| e.0,
                ).take(k as int),
            decreases p.files@.len() - k,
        {
            let ghost prev = all@;
            let item = p.files[k].target.clone();
            all.push(item);
            assert(lines(all@) =~= lines(prev).push(item@));
            assert(crate::merge::file_entries(p.files@).map_values(|e: crate::merge::FileEntry| e.0).take(k + 1)
                =~= crate::merge::file_entries(p.files@).map_values(|e: crate::merge::FileEntry| e.0).take(
                k as int,
            ).push(p.files@[k as int].target@));
            k = k + 1;
        }
        let ghost files_part = lines(all@);
        let mut d: usize = 0;
        while d < p.dirs.len()
            invariant
                d <= p.dirs@.len(),
                lines(all@) == files_part + name_views(p.dirs@).take(d as int),
            decreases p.dirs@.len() - d,
        {
            let ghost prev = all@;
            let item = p.dirs[d].clone();
            all.push(item);
            assert(lines(all@) =~= lines(prev).push(item@));
            assert(name_views(p.dirs@).take(d + 1) =~= name_views(p.dirs@).take(d as int).push(p.dirs@[d as int]@));
            d = d + 1;
        }
        assert(crate::merge::file_entries(p.files@).map_values(|e: crate::merge::FileEntry| e.0).take(
            p.files@.len() as int,
        ) == crate::merge::file_entries(p.files@).map_values(|e: crate::merge::FileEntry| e.0));
        assert(name_views(p.dirs@).take(p.dirs@.len() as int) == name_views(p.dirs@));
        let ghost listing = lines(all@);
        let mut slashed: Vec<String> = Vec::new();
        let mut m: usize = 0;
        while m < all.len()
            invariant
                m <= all@.len(),
                listing == lines(all@),
                lines(slashed@) == listing.take(m as int).map_values(
                    |q: Seq<char>| crate::browser::remote_path_of(q, true),
                ),
            decreases all@.len() - m,
        {
            let ghost prev = slashed@;
            let item = crate::browser::remote_path(all[m].as_str(), true);
            slashed.push(item);
            assert(lines(slashed@) =~= lines(prev).push(item@));
            assert(listing.take(m + 1).map_values(|q: Seq<char>| crate::browser::remote_path_of(q, true))
                =~= listing.take(m as int).map_values(|q: Seq<char>| crate::browser::remote_path_of(q, true)).push(
                crate::browser::remote_path_of(listing[m as int], true),
            ));
            m = m + 1;
        }
        assert(listing.take(m as int) == listing);
        let mut refs: Vec<&str> = Vec::new();
        let mut q: usize = 0;
        while q < slashed.len()
            invariant
                q <= slashed@.len(),
                refs@.map_values(|x: &str| x@) == lines(slashed@).take(q as int),
            decreases slashed@.len() - q,
        {
            let ghost prev = refs@;
            let item = slashed[q].as_str();
            refs.push(item);
            assert(refs@.map_values(|x: &str| x@) =~= prev.map_values(|x: &str| x@).push(item@));
            assert(lines(slashed@).take(q + 1) =~= lines(slashed@).take(q as int).push(slashed@[q as int]@));
            q = q + 1;
        }
        assert(lines(slashed@).take(q as int) == lines(slashed@));
        crate::platform::validate_windows_paths(refs.as_slice())
    }

    fn on_materialize(&mut self, cancelled: bool, res: Result<String, String>) -> (r: SyncStep)
        requires
            old(self).wf(),
            old(self).stage == Stage::Materialize,
            old(self).plan is Some,
        ensures
            final(self).wf(),
            materialize_outcome(*old(self), *final(self), cancelled, res, r),
    {
        match res {
            Err(e) => self.fail(e),
            Ok(_) => {
                let (summary, scripts) = match &self.plan {
                    Some(p) => {
                        proof {
                            lemma_script_tasks(p.renames@, self.tasks@, self.windows);
                        }
                        (plan_summary(p), remote_rename_jobs(p, &self.tasks, self.windows))
                    },
                    None => (String::new(), Vec::new()),
                };
                proof {
                    let p = self.plan->Some_0;
                    let rr = remote_renames_of(p.renames@, self.tasks@, self.windows);
                    assert forall|k: int| 0 <= k < scripts@.len() implies (#[trigger] scripts@[k]).0 < self.tasks@.len() by {
                        assert(scripts@.map_values(|x: (usize, String)| (x.0 as nat, x.1@))[k] == rr[k]);
                    }
                }
                self.scripts = scripts;
                let ghost text = summary@;
                let mut notices: Vec<String> = Vec::new();
                notices.push(summary);
                assert(lines(notices@) =~= seq![text]);
                self.remote_rename_from(0, cancelled, notices)
            },
        }
    }

    fn on_verify_local(&mut self, res: Result<String, String>) -> (r: SyncStep)
        requires
            old(self).wf(),
            old(self).scripts_built(),
        ensures
            final(self).wf(),
            verify_local_outcome(*old(self), *final(self), res, r),
    {
        match res {
            Err(e) => self.fail(e),
            Ok(out) => {
                if !unchanged(out.as_str()) {
                    return self.fail(changed_error(None));
                }
                self.verify_remote_from(0)
            },
        }
    }

    fn on_verify_remote(&mut self, i: usize, res: Result<String, String>) -> (r: SyncStep)
        requires
            old(self).wf(),
            old(self).scripts_built(),
            i < old(self).tasks@.len(),
        ensures
            final(self).wf(),
            verify_remote_done_outcome(*old(self), *final(self), i as int, res, r),
    {
        match res {
            Err(e) => self.fail(e),
            Ok(out) => {
                if !unchanged(out.as_str()) {
                    let e = changed_error(Some(self.tasks[i].server.name.as_str()));
                    return self.fail(e);
                }
                let n = self.tasks.len();
                assert(i < n);
                self.verify_remote_from(i + 1)
            },
        }
    }
}

/// Nothing is renamed or copied back before the merge is planned and every
/// remote rename script is built: in each stage that renames, copies or
/// compares, the scripts are exactly the plan's remote renames.
pub proof fn lemma_scripts_before_changes(run: SyncRun)
    requires
        run.wf(),
        run.stage is RemoteRename || run.stage is LocalRename || run.stage is CopyBack
            || run.stage is Push || run.stage is VerifyLocal || run.stage is VerifyRemote,
    ensures
        run.scripts_built(),
{
}

} // verus!
