//! The decisions of a two-way sync job around the merge plan: which tasks
//! share a local folder, what each participant is called, which conflict
//! renames run on which server, and how the job reports.
use vstd::prelude::*;
use crate::commands::{rename_text, remote_rename_script, Task};
use crate::merge::{Plan, Rename};
use crate::order::{locate, sorted, views};
use crate::text::{
    chars, decimal, decimal_of, join_path, owned, path_join, push_str, string_of, trim,
};

verus! {

/// The tasks of `ts` for local folder `key`, in order.
pub open spec fn tasks_for(ts: Seq<Task>, key: Seq<char>) -> Seq<Task>
    decreases ts.len(),
{
    if ts.len() == 0 {
        seq![]
    } else if ts.last().local@ == key {
        tasks_for(ts.drop_last(), key).push(ts.last())
    } else {
        tasks_for(ts.drop_last(), key)
    }
}

/// The local folders of `ts`.
pub open spec fn locals(ts: Seq<Task>) -> Set<Seq<char>> {
    Set::new(|k: Seq<char>| exists|i: int| 0 <= i < ts.len() && (#[trigger] ts[i]).local@ == k)
}

/// Groups sync tasks by local folder: the folders in path order, each with
/// its tasks in their original order. All copies of one local folder take
/// part in one merge.
pub fn group_tasks(tasks: &Vec<Task>) -> (r: (Vec<Vec<char>>, Vec<Vec<Task>>))
    ensures
        sorted(views(r.0@), true),
        views(r.0@).to_set() == locals(tasks@),
        r.1@.len() == r.0@.len(),
        forall|g: int| 0 <= g < r.0@.len() ==> (#[trigger] r.1@[g])@ == tasks_for(tasks@, r.0@[g]@),
{
    let mut keys: Vec<Vec<char>> = Vec::new();
    let mut groups: Vec<Vec<Task>> = Vec::new();
    let mut i: usize = 0;
    assert(views(keys@).to_set() =~= locals(tasks@.take(0)));
    while i < tasks.len()
        invariant
            i <= tasks@.len(),
            sorted(views(keys@), true),
            views(keys@).to_set() == locals(tasks@.take(i as int)),
            groups@.len() == keys@.len(),
            forall|g: int| 0 <= g < keys@.len() ==> (#[trigger] groups@[g])@ == tasks_for(tasks@.take(i as int), keys@[g]@),
        decreases tasks@.len() - i,
    {
        let t = tasks[i].clone();
        let key = chars(t.local.as_str());
        let ghost before_keys = views(keys@);
        let ghost prefix = tasks@.take(i as int);
        let ghost next = tasks@.take(i + 1);
        assert(next.drop_last() == prefix);
        assert(next.last() == t);
        let (j, found) = locate(&keys, &key, true);
        proof {
            crate::merge::lemma_unique(before_keys, true);
        }
        if found {
            let mut g = groups.remove(j);
            g.push(t);
            groups.insert(j, g);
            proof {
                assert forall|m: int| 0 <= m < keys@.len() implies (#[trigger] groups@[m])@ == tasks_for(next, keys@[m]@) by {
                    if m != j {
                        assert(before_keys[m] == keys@[m]@);
                        assert(before_keys[j as int] == key@);
                        assert(keys@[m]@ != key@);
                    }
                }
                assert(locals(next) =~= locals(prefix).insert(key@)) by {
                    assert forall|k: Seq<char>| locals(next).contains(k) implies locals(prefix).insert(key@).contains(k) by {
                        let a = choose|a: int| 0 <= a < next.len() && (#[trigger] next[a]).local@ == k;
                        if a < prefix.len() {
                            assert(prefix[a] == next[a]);
                        }
                    }
                    assert forall|k: Seq<char>| locals(prefix).insert(key@).contains(k) implies locals(next).contains(k) by {
                        if k == key@ {
                            assert(next[i as int].local@ == k);
                        } else {
                            let a = choose|a: int| 0 <= a < prefix.len() && (#[trigger] prefix[a]).local@ == k;
                            assert(next[a] == prefix[a]);
                        }
                    }
                }
                assert(before_keys.to_set().contains(key@));
                assert(before_keys.to_set().insert(key@) =~= before_keys.to_set());
            }
        } else {
            proof {
                crate::order::lemma_insert_at(before_keys, j as int, key@, true);
            }
            let mut g: Vec<Task> = Vec::new();
            g.push(t);
            let ghost kv = key@;
            keys.insert(j, key);
            groups.insert(j, g);
            assert(views(keys@) =~= before_keys.insert(j as int, kv));
            proof {
                assert(!before_keys.contains(kv));
                assert(tasks_for(prefix, kv) == Seq::<Task>::empty()) by {
                    lemma_tasks_for_absent(prefix, kv);
                }
                assert forall|m: int| 0 <= m < keys@.len() implies (#[trigger] groups@[m])@ == tasks_for(next, keys@[m]@) by {
                    if m < j {
                        assert(keys@[m]@ == before_keys[m]);
                        assert(keys@[m]@ != kv);
                    } else if m > j {
                        assert(keys@[m]@ == before_keys[m - 1]);
                        assert(keys@[m]@ != kv);
                    } else {
                        assert(groups@[m]@ =~= seq![t]);
                    }
                }
                assert(locals(next) =~= locals(prefix).insert(kv)) by {
                    assert forall|k: Seq<char>| locals(next).contains(k) implies locals(prefix).insert(kv).contains(k) by {
                        let a = choose|a: int| 0 <= a < next.len() && (#[trigger] next[a]).local@ == k;
                        if a < prefix.len() {
                            assert(prefix[a] == next[a]);
                        }
                    }
                    assert forall|k: Seq<char>| locals(prefix).insert(kv).contains(k) implies locals(next).contains(k) by {
                        if k == kv {
                            assert(next[i as int].local@ == k);
                        } else {
                            let a = choose|a: int| 0 <= a < prefix.len() && (#[trigger] prefix[a]).local@ == k;
                            assert(next[a] == prefix[a]);
                        }
                    }
                }
            }
        }
        i = i + 1;
    }
    assert(tasks@.take(tasks@.len() as int) == tasks@);
    (keys, groups)
}

/// A local folder that some task has has at least one task.
pub proof fn lemma_tasks_for_present(ts: Seq<Task>, key: Seq<char>)
    requires
        locals(ts).contains(key),
    ensures
        tasks_for(ts, key).len() > 0,
    decreases ts.len(),
{
    if ts.last().local@ != key {
        assert(locals(ts.drop_last()).contains(key)) by {
            let a = choose|a: int| 0 <= a < ts.len() && (#[trigger] ts[a]).local@ == key;
            assert(a != ts.len() - 1);
            assert(ts.drop_last()[a] == ts[a]);
        }
        lemma_tasks_for_present(ts.drop_last(), key);
    }
}

proof fn lemma_tasks_for_absent(ts: Seq<Task>, key: Seq<char>)
    requires
        !locals(ts).contains(key),
    ensures
        tasks_for(ts, key) == Seq::<Task>::empty(),
    decreases ts.len(),
{
    if ts.len() > 0 {
        assert(ts.last() == ts[ts.len() - 1]);
        assert(!locals(ts.drop_last()).contains(key)) by {
            if locals(ts.drop_last()).contains(key) {
                let a = choose|a: int| 0 <= a < ts.drop_last().len() && (#[trigger] ts.drop_last()[a]).local@ == key;
                assert(ts[a] == ts.drop_last()[a]);
            }
        }
        lemma_tasks_for_absent(ts.drop_last(), key);
    }
}

pub open spec fn strs(v: Seq<String>) -> Seq<Seq<char>> {
    v.map_values(|x: String| x@)
}

/// The merge participants' names: this host's name (trimmed; `Host` when
/// it could not be read), then each server's display name.
pub fn participant_names(host: Option<String>, tasks: &Vec<Task>) -> (r: Vec<String>)
    ensures
        r@.len() == tasks@.len() + 1,
        r@[0]@ == trim(match host {
            Some(h) => h@,
            None => "Host"@,
        }),
        forall|i: int| 0 <= i < tasks@.len() ==> (#[trigger] r@[i + 1])@ == tasks@[i].server.name@,
{
    let h = match host {
        Some(h) => h,
        None => owned("Host"),
    };
    let mut r: Vec<String> = Vec::new();
    r.push(string_of(&crate::text::trim_of(&chars(h.as_str()))));
    let mut i: usize = 0;
    while i < tasks.len()
        invariant
            i <= tasks@.len(),
            r@.len() == i + 1,
            r@[0]@ == trim(h@),
            forall|k: int| 0 <= k < i ==> (#[trigger] r@[k + 1])@ == tasks@[k].server.name@,
        decreases tasks@.len() - i,
    {
        r.push(tasks[i].server.name.clone());
        i = i + 1;
    }
    r
}

/// The renames that run on servers, each with its task's index and script,
/// in plan order; renames of the local copy (participant 0) run locally.
pub open spec fn remote_renames_of(renames: Seq<Rename>, tasks: Seq<Task>, windows: bool) -> Seq<(nat, Seq<char>)>
    decreases renames.len(),
{
    if renames.len() == 0 {
        seq![]
    } else {
        let r = renames.last();
        let rest = remote_renames_of(renames.drop_last(), tasks, windows);
        if r.participant > 0 {
            let t = (r.participant - 1) as nat;
            rest.push((t, rename_text(tasks[t as int].remote@, r.from@, r.to@, r.hash@, windows)))
        } else {
            rest
        }
    }
}

/// Every script, built before any original is changed.
pub fn remote_rename_jobs(plan: &Plan, tasks: &Vec<Task>, windows: bool) -> (r: Vec<(usize, String)>)
    requires
        forall|k: int| 0 <= k < plan.renames@.len() ==> (#[trigger] plan.renames@[k]).participant <= tasks@.len(),
    ensures
        r@.map_values(|x: (usize, String)| (x.0 as nat, x.1@)) == remote_renames_of(plan.renames@, tasks@, windows),
{
    let mut r: Vec<(usize, String)> = Vec::new();
    let mut k: usize = 0;
    while k < plan.renames.len()
        invariant
            k <= plan.renames@.len(),
            forall|m: int| 0 <= m < plan.renames@.len() ==> (#[trigger] plan.renames@[m]).participant <= tasks@.len(),
            r@.map_values(|x: (usize, String)| (x.0 as nat, x.1@)) == remote_renames_of(plan.renames@.take(k as int), tasks@, windows),
        decreases plan.renames@.len() - k,
    {
        let rename = &plan.renames[k];
        let ghost before = r@.map_values(|x: (usize, String)| (x.0 as nat, x.1@));
        assert(plan.renames@.take(k + 1).drop_last() == plan.renames@.take(k as int));
        assert(plan.renames@.take(k + 1).last() == *rename);
        if rename.participant > 0 {
            let t = rename.participant - 1;
            let script = remote_rename_script(tasks[t].remote.as_str(), rename, windows);
            let ghost sv = script@;
            r.push((t, script));
            assert(r@.map_values(|x: (usize, String)| (x.0 as nat, x.1@)) =~= before.push((t as nat, sv)));
        }
        k = k + 1;
    }
    assert(plan.renames@.take(plan.renames@.len() as int) == plan.renames@);
    r
}

/// What the job reports once the merged copy is built.
pub fn plan_summary(plan: &Plan) -> (r: String)
    ensures
        r@ == decimal(plan.files@.len() as nat) + " files to keep; "@ + decimal(plan.renames@.len() as nat)
            + " conflict versions to rename.\n"@,
{
    let mut out = decimal_of(plan.files.len() as u64);
    push_str(&mut out, " files to keep; ");
    crate::text::push_all(&mut out, &decimal_of(plan.renames.len() as u64));
    push_str(&mut out, " conflict versions to rename.\n");
    string_of(&out)
}

/// The error when the final comparison finds changes: in the local folder
/// (`None`), or on the named server.
pub fn changed_error(server: Option<&str>) -> (r: String)
    ensures
        r@ == match server {
            None => "Local files changed during sync. Preserved all versions; run Sync again after edits finish."@,
            Some(name) => "Files on "@ + name@ + " changed during sync. Run Sync again after edits finish."@,
        },
{
    match server {
        None => owned("Local files changed during sync. Preserved all versions; run Sync again after edits finish."),
        Some(name) => {
            let mut out = chars("Files on ");
            push_str(&mut out, name);
            push_str(&mut out, " changed during sync. Run Sync again after edits finish.");
            string_of(&out)
        },
    }
}

/// The arguments that copy the merged folder to a server without replacing
/// anything there: the transfer's arguments behind `--ignore-existing` and
/// `--omit-dir-times`.
pub fn merged_push_args(args: &Vec<String>) -> (r: Vec<String>)
    ensures
        strs(r@) == seq!["--ignore-existing"@, "--omit-dir-times"@] + strs(args@),
{
    let mut r: Vec<String> = Vec::new();
    r.push(owned("--ignore-existing"));
    r.push(owned("--omit-dir-times"));
    let mut i: usize = 0;
    while i < args.len()
        invariant
            i <= args@.len(),
            strs(r@) == seq!["--ignore-existing"@, "--omit-dir-times"@] + strs(args@.take(i as int)),
        decreases args@.len() - i,
    {
        let ghost before = strs(r@);
        r.push(args[i].clone());
        assert(strs(r@) =~= before.push(args@[i as int]@));
        i = i + 1;
        assert(strs(args@.take(i as int)) =~= strs(args@.take(i - 1)).push(args@[i - 1]@));
    }
    assert(args@.take(args@.len() as int) == args@);
    r
}

/// Whether the final checksum comparison found nothing: its listing is
/// blank.
pub fn unchanged(listing: &str) -> (r: bool)
    ensures
        r == (trim(listing@).len() == 0),
{
    crate::text::trim_of(&chars(listing)).len() == 0
}

// ---------------------------------------------------------------------------
// The scratch workspace
// ---------------------------------------------------------------------------

/// How many names are tried for a scratch workspace.
pub const SCRATCH_TRIES: u32 = 100;

/// A private directory for a merge's downloads; the app removes it when the
/// job ends.
pub struct Scratch(pub String);

/// The name of the scratch directory for process `pid` and counter `n`.
pub open spec fn scratch_name(pid: u32, n: u64) -> Seq<char> {
    "codesync-merge-"@ + decimal(pid as nat) + "-"@ + decimal(n as nat)
}

/// What creating a directory came to.
pub enum Created {
    Done,
    AlreadyExists,
    Failed(String),
}

/// What to do after an attempt.
pub enum ScratchStep {
    Ready(Scratch),
    Retry,
    Fail(String),
}

/// The message when every name was taken.
pub open spec fn no_workspace() -> Seq<char> {
    "Cannot create sync workspace."@
}

impl Scratch {
    /// The path tried for counter `n` under the temporary directory.
    pub fn candidate(temp_dir: &str, pid: u32, n: u64) -> (r: String)
        ensures
            r@ == path_join(temp_dir@, scratch_name(pid, n)),
    {
        proof {
            reveal_strlit("codesync-merge-");
            reveal_strlit("-");
        }
        let mut name: Vec<char> = Vec::new();
        push_str(&mut name, "codesync-merge-");
        crate::text::push_all(&mut name, &decimal_of(pid as u64));
        push_str(&mut name, "-");
        crate::text::push_all(&mut name, &decimal_of(n));
        join_path(temp_dir, &name)
    }

    /// After attempt number `tried` (counting from 1) at `path`: a created
    /// directory is the workspace, a taken name is retried while tries are
    /// left, any other failure ends the search with its message.
    pub fn next_step(tried: u32, path: String, outcome: Created) -> (r: ScratchStep)
        ensures
            match outcome {
                Created::Done => r matches ScratchStep::Ready(s) && s.0@ == path@,
                Created::AlreadyExists => if tried < SCRATCH_TRIES {
                    r is Retry
                } else {
                    r matches ScratchStep::Fail(m) && m@ == no_workspace()
                },
                Created::Failed(e) => r matches ScratchStep::Fail(m) && m@ == e@,
            },
    {
        match outcome {
            Created::Done => ScratchStep::Ready(Scratch(path)),
            Created::AlreadyExists => {
                if tried < SCRATCH_TRIES {
                    ScratchStep::Retry
                } else {
                    ScratchStep::Fail(owned("Cannot create sync workspace."))
                }
            },
            Created::Failed(e) => ScratchStep::Fail(e),
        }
    }
}

} // verus!
