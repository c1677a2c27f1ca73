use codesync::auth::Credentials;
use codesync::commands::{Action, Task};
use codesync::merge::Tree;
use codesync::store::{NetworkSettings, Server};
use codesync::sync_run::{SyncAction, SyncEvent, SyncRun, SyncStep};

fn task() -> Task {
    Task {
        server: Server {
            id: 1,
            name: "Server".into(),
            host: "server".into(),
            user: "me".into(),
            port: 22,
            network: NetworkSettings::default(),
        },
        credentials: Credentials::default(),
        local: "/home/me/notes".into(),
        remote: "/srv/notes".into(),
        action: Action::Sync,
    }
}

fn digest(c: char) -> String {
    std::iter::repeat(c).take(64).collect()
}

fn command(step: &SyncStep) -> (usize, String, Vec<String>, String) {
    match &step.action {
        SyncAction::Command { task, program, args, dir } => {
            (*task, program.clone(), args.clone(), dir.clone())
        }
        _ => panic!("expected a command"),
    }
}

fn ok(run: &mut SyncRun, output: &str) -> SyncStep {
    run.step(false, SyncEvent::Ran(Ok(output.into())))
}

#[test]
fn a_sync_snapshots_plans_renames_copies_back_and_verifies_in_order() {
    let mut run = SyncRun::new("/home/me/notes".into(), vec![task()], false, None, Some("laptop\n".into()));
    assert!(matches!(run.step(false, SyncEvent::Resume).action, SyncAction::MakeWorkspace));
    match run.step(false, SyncEvent::Workspace(Ok("/tmp/ws".into()))).action {
        SyncAction::MakeDir(d) => assert_eq!(d, "/tmp/ws/local"),
        _ => panic!("expected the local snapshot directory"),
    }
    let step = ok(&mut run, "");
    assert_eq!(step.notices, vec!["Reading copies and comparing SHA-256 hashes...\n"]);
    let (t, program, args, _) = command(&step);
    assert_eq!((t, program.as_str()), (0, "rsync"));
    assert_eq!(&args[args.len() - 2..], &["/home/me/notes/".to_string(), "/tmp/ws/local".to_string()]);

    let (t, program, args, dir) = command(&ok(&mut run, ""));
    assert_eq!((t, program.as_str(), dir.as_str()), (0, "ssh", "/home/me/notes"));
    assert!(args.last().unwrap().ends_with("mkdir -p -- '/srv/notes'"));
    match ok(&mut run, "").action {
        SyncAction::MakeDir(d) => assert_eq!(d, "/tmp/ws/remote-0"),
        _ => panic!("expected the server snapshot directory"),
    }
    let (_, program, args, dir) = command(&ok(&mut run, ""));
    assert_eq!((program.as_str(), dir.as_str()), ("rsync", "/tmp/ws/remote-0"));
    assert_eq!(&args[args.len() - 2..], &["me@server:/srv/notes/".to_string(), "./".to_string()]);
    match ok(&mut run, "").action {
        SyncAction::Scan(dirs) => assert_eq!(dirs, vec!["/tmp/ws/local", "/tmp/ws/remote-0"]),
        _ => panic!("expected a scan"),
    }

    let mut local = Tree::new();
    local.insert_file("notes.txt", &digest('a'));
    let mut remote = Tree::new();
    remote.insert_file("notes.txt", &digest('b'));
    match run.step(false, SyncEvent::Trees(Ok(vec![local, remote]))).action {
        SyncAction::Materialize { output, snapshots } => {
            assert_eq!(output, "/tmp/ws/merged");
            assert_eq!(snapshots.len(), 2);
        }
        _ => panic!("expected the merged copy"),
    }
    let plan = run.plan.as_ref().unwrap();
    assert_eq!(plan.renames.len(), 2);
    let step = ok(&mut run, "");
    assert_eq!(step.notices, vec!["2 files to keep; 2 conflict versions to rename.\n"]);
    // Every remote script exists before the first change.
    assert_eq!(run.scripts.len(), 1);
    let (t, program, args, _) = command(&step);
    assert_eq!((t, program.as_str()), (0, "ssh"));
    assert!(args.last().unwrap().contains("mv -nT --"));
    match ok(&mut run, "").action {
        SyncAction::Rename { root, index } => {
            assert_eq!(root, "/home/me/notes");
            assert_eq!(run.plan.as_ref().unwrap().renames[index].participant, 0);
        }
        _ => panic!("expected the local rename"),
    }
    let (_, _, args, _) = command(&ok(&mut run, ""));
    assert!(args.contains(&"--ignore-existing".to_string()));
    assert_eq!(&args[args.len() - 2..], &["/tmp/ws/merged/".to_string(), "/home/me/notes".to_string()]);
    let (t, _, args, dir) = command(&ok(&mut run, ""));
    assert_eq!((t, dir.as_str()), (0, "/tmp/ws/merged"));
    assert_eq!(&args[..2], &["--ignore-existing".to_string(), "--omit-dir-times".to_string()]);
    let (_, _, args, _) = command(&ok(&mut run, ""));
    assert_eq!(args[0], "-rcn");
    let (_, _, args, _) = command(&ok(&mut run, "\n"));
    assert_eq!(args.last().unwrap(), "me@server:/srv/notes/");
    let step = ok(&mut run, "");
    assert_eq!(step.notices, vec!["Folder sync completed. No deletions propagated.\n"]);
    assert!(matches!(step.action, SyncAction::Finish(Ok(()))));
}

#[test]
fn a_sync_stops_on_request_on_failures_and_on_changes() {
    let mut run = SyncRun::new("/home/me/notes".into(), vec![task()], false, None, None);
    match run.step(true, SyncEvent::Resume).action {
        SyncAction::Finish(Err(e)) => {
            assert_eq!(e, "Stopped. Completed copies and conflict renames remain in place.")
        }
        _ => panic!("expected a stop"),
    }

    let mut run = SyncRun::new("/home/me/notes".into(), vec![task()], false, None, None);
    run.step(false, SyncEvent::Resume);
    match run.step(false, SyncEvent::Workspace(Err("Cannot create sync workspace.".into()))).action {
        SyncAction::Finish(Err(e)) => assert_eq!(e, "Cannot create sync workspace."),
        _ => panic!("expected the failure"),
    }

    let mut bad = task();
    bad.remote = "relative".into();
    let mut run = SyncRun::new("/home/me/notes".into(), vec![bad], false, None, None);
    run.step(false, SyncEvent::Resume);
    run.step(false, SyncEvent::Workspace(Ok("/tmp/ws".into())));
    ok(&mut run, "");
    match ok(&mut run, "").action {
        SyncAction::Finish(Err(e)) => assert!(e.starts_with("Remote directory must be")),
        _ => panic!("expected the destination to be refused"),
    }

    let mut run = SyncRun::new("/home/me/notes".into(), vec![task()], false, None, None);
    run.step(false, SyncEvent::Resume);
    run.step(false, SyncEvent::Workspace(Ok("/tmp/ws".into())));
    for _ in 0..5 {
        ok(&mut run, "");
    }
    let mut same = Tree::new();
    same.insert_file("a.txt", &digest('c'));
    let mut copy = Tree::new();
    copy.insert_file("a.txt", &digest('c'));
    run.step(false, SyncEvent::Trees(Ok(vec![same, copy])));
    let step = ok(&mut run, "");
    assert_eq!(step.notices, vec!["1 files to keep; 0 conflict versions to rename.\n"]);
    // No renames: straight to copying back.
    let (_, _, args, _) = command(&step);
    assert!(args.contains(&"--ignore-existing".to_string()));
    ok(&mut run, "");
    ok(&mut run, "");
    match ok(&mut run, "notes.txt\n").action {
        SyncAction::Finish(Err(e)) => assert_eq!(
            e,
            "Local files changed during sync. Preserved all versions; run Sync again after edits finish."
        ),
        _ => panic!("expected the change to be reported"),
    }
}
