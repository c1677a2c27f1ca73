//! The command-line tool: which command the arguments ask for, and the ssh
//! and rsync command lines each command runs for a folder's `.codesync`.
use vstd::prelude::*;
use crate::config::{validation, Config};
use crate::shell::{quote, quoted};
use crate::text::{chars, join, owned, push_str, string_of};

verus! {

/// What the arguments ask for.
pub enum CliCommand {
    Help,
    /// Pull and reinstall from the Git checkout (`--repo`, when given).
    Update { repo: Option<String> },
    Gui,
    /// Save a validated destination; `force` replaces an existing one.
    Init { force: bool, config: Config },
    Setup,
    /// Transfer one way: `pull` from the server, else push to it.
    Sync { pull: bool, dry: bool },
    /// Push, then run `command` (already quoted for the remote shell) in the
    /// remote folder.
    Run { command: String },
    Shell,
}

/// A command as a value: a kind number, two flags and two texts.
pub type CliView = (nat, bool, bool, Seq<char>, Seq<char>);

impl View for CliCommand {
    type V = CliView;

    open spec fn view(&self) -> CliView {
        match self {
            CliCommand::Help => (0, false, false, seq![], seq![]),
            CliCommand::Update { repo } => match repo {
                Some(r) => (1, true, false, r@, seq![]),
                None => (1, false, false, seq![], seq![]),
            },
            CliCommand::Gui => (2, false, false, seq![], seq![]),
            CliCommand::Init { force, config } => (3, *force, false, config.host@, config.dir@),
            CliCommand::Setup => (4, false, false, seq![], seq![]),
            CliCommand::Sync { pull, dry } => (5, *pull, *dry, seq![], seq![]),
            CliCommand::Run { command } => (6, false, false, command@, seq![]),
            CliCommand::Shell => (7, false, false, seq![], seq![]),
        }
    }
}

pub open spec fn strs(v: Seq<String>) -> Seq<Seq<char>> {
    v.map_values(|x: String| x@)
}

/// The program and its arguments, each quoted, separated by spaces.
pub open spec fn remote_command(args: Seq<Seq<char>>) -> Seq<char> {
    join(args.map_values(|a: Seq<char>| quoted(a)), " "@)
}

/// What the arguments (without the program name) ask for, or the usage
/// error to report.
pub open spec fn cli_of(args: Seq<Seq<char>>) -> Result<CliView, Seq<char>> {
    if args.len() == 0 {
        Ok((0, false, false, seq![], seq![]))
    } else {
        let action = args[0];
        if action == "help"@ || action == "--help"@ || action == "-h"@ {
            Ok((0, false, false, seq![], seq![]))
        } else if action == "update"@ {
            if args.len() == 1 {
                Ok((1, false, false, seq![], seq![]))
            } else if args.len() == 3 && args[1] == "--repo"@ {
                Ok((1, true, false, args[2], seq![]))
            } else {
                Err("Usage: codesync update [--repo /path/to/codesync]"@)
            }
        } else if action == "gui"@ {
            if args.len() != 1 {
                Err("Usage: codesync gui"@)
            } else {
                Ok((2, false, false, seq![], seq![]))
            }
        } else if action == "init"@ {
            let found = if args.len() == 3 {
                Some((false, args[1], args[2]))
            } else if args.len() == 4 && args[1] == "--force"@ {
                Some((true, args[2], args[3]))
            } else {
                None
            };
            match found {
                None => Err("Usage: codesync init [--force] USER@HOST /absolute/remote/folder"@),
                Some((force, host, dir)) => match validation(host, dir) {
                    Err(e) => Err(e),
                    Ok(()) => Ok((3, force, false, host, dir)),
                },
            }
        } else if action == "setup"@ {
            if args.len() != 1 {
                Err("Usage: codesync setup"@)
            } else {
                Ok((4, false, false, seq![], seq![]))
            }
        } else if action == "push"@ || action == "pull"@ {
            if args.len() > 2 || (args.len() == 2 && args[1] != "--dry-run"@) {
                Err("Usage: codesync "@ + action + " [--dry-run]"@)
            } else {
                Ok((5, action == "pull"@, args.len() == 2, seq![], seq![]))
            }
        } else if action == "run"@ {
            if args.len() < 2 {
                Err("Usage: codesync run COMMAND [ARGS...]"@)
            } else {
                Ok((6, false, false, remote_command(args.skip(1)), seq![]))
            }
        } else if action == "shell"@ {
            if args.len() != 1 {
                Err("Usage: codesync shell"@)
            } else {
                Ok((7, false, false, seq![], seq![]))
            }
        } else {
            Err("Unknown command: "@ + action + ". Use codesync --help."@)
        }
    }
}

/// `push` and `pull` take at most one more argument, `--dry-run`: the command
/// then transfers toward the server exactly when the word is `push`, and only
/// previews the transfer exactly when `--dry-run` follows. Anything else after
/// the word is a usage error.
pub proof fn lemma_sync_flags(args: Seq<Seq<char>>)
    requires
        args.len() >= 1,
        args[0] == "push"@ || args[0] == "pull"@,
    ensures
        (args.len() == 1 || (args.len() == 2 && args[1] == "--dry-run"@)) ==> (cli_of(args) matches Ok(v)
            && v.0 == 5 && v.1 == (args[0] == "pull"@) && v.2 == (args.len() == 2)),
        (args.len() == 1 && args[0] == "push"@) ==> cli_of(args) == Ok::<CliView, Seq<char>>((5, false, false, seq![], seq![])),
        (args.len() == 2 && args[0] == "push"@ && args[1] == "--dry-run"@) ==> cli_of(args) == Ok::<CliView, Seq<char>>((5, false, true, seq![], seq![])),
        (args.len() == 1 && args[0] == "pull"@) ==> cli_of(args) == Ok::<CliView, Seq<char>>((5, true, false, seq![], seq![])),
        (args.len() > 2 || (args.len() == 2 && args[1] != "--dry-run"@)) ==> cli_of(args) is Err,
{
    reveal_strlit("push");
    reveal_strlit("pull");
    reveal_strlit("help");
    reveal_strlit("--help");
    reveal_strlit("-h");
    reveal_strlit("update");
    reveal_strlit("gui");
    reveal_strlit("init");
    reveal_strlit("setup");
    let a = args[0];
    assert(a.len() == 4);
    assert(a != "help"@) by {
        if a == "help"@ {
            assert(a[1] == 'u');
        }
    }
    assert(a != "init"@) by {
        if a == "init"@ {
            assert(a[0] == 'p');
        }
    }
    assert(a != "--help"@);
    assert(a != "-h"@);
    assert(a != "update"@);
    assert(a != "gui"@);
    assert(a != "setup"@);
    assert(("push"@ == "pull"@) == false) by {
        assert("push"@[1] == 'u');
        assert("push"@[2] != "pull"@[2]);
    }
}

/// What each command word asks for: no word, `help`, `--help` or `-h` ask
/// for help; `update` alone or with `--repo PATH` asks to update (from that
/// checkout); `init [--force] HOST DIR` asks to save that destination, with
/// `force` exactly when `--force` is given, and fails with the validation
/// message when the destination is invalid; `run` followed by a command asks
/// to run that command with each word quoted for the remote shell; `gui`,
/// `setup` and `shell` alone ask for themselves.
pub proof fn lemma_command_words(args: Seq<Seq<char>>)
    ensures
        (args.len() == 0 || args[0] == "help"@ || args[0] == "--help"@ || args[0] == "-h"@)
            ==> cli_of(args) == Ok::<CliView, Seq<char>>((0, false, false, seq![], seq![])),
        (args.len() == 1 && args[0] == "update"@) ==> cli_of(args) == Ok::<CliView, Seq<char>>(
            (1, false, false, seq![], seq![]),
        ),
        (args.len() == 3 && args[0] == "update"@ && args[1] == "--repo"@) ==> cli_of(args) == Ok::<
            CliView,
            Seq<char>,
        >((1, true, false, args[2], seq![])),
        (args.len() == 3 && args[0] == "init"@) ==> cli_of(args) == match validation(
            args[1],
            args[2],
        ) {
            Ok(()) => Ok::<CliView, Seq<char>>((3, false, false, args[1], args[2])),
            Err(e) => Err(e),
        },
        (args.len() == 4 && args[0] == "init"@ && args[1] == "--force"@) ==> cli_of(args)
            == match validation(args[2], args[3]) {
            Ok(()) => Ok::<CliView, Seq<char>>((3, true, false, args[2], args[3])),
            Err(e) => Err(e),
        },
        (args.len() >= 2 && args[0] == "run"@) ==> cli_of(args) == Ok::<CliView, Seq<char>>(
            (6, false, false, join(args.skip(1).map_values(|a: Seq<char>| quoted(a)), " "@), seq![]),
        ),
        (args.len() == 1 && args[0] == "gui"@) ==> cli_of(args) == Ok::<CliView, Seq<char>>(
            (2, false, false, seq![], seq![]),
        ),
        (args.len() == 1 && args[0] == "setup"@) ==> cli_of(args) == Ok::<CliView, Seq<char>>(
            (4, false, false, seq![], seq![]),
        ),
        (args.len() == 1 && args[0] == "shell"@) ==> cli_of(args) == Ok::<CliView, Seq<char>>(
            (7, false, false, seq![], seq![]),
        ),
{
    reveal_strlit("push");
    reveal_strlit("pull");
    reveal_strlit("help");
    reveal_strlit("--help");
    reveal_strlit("-h");
    reveal_strlit("update");
    reveal_strlit("gui");
    reveal_strlit("init");
    reveal_strlit("setup");
    reveal_strlit("run");
    reveal_strlit("shell");
    if args.len() > 0 {
        let a = args[0];
        if a == "update"@ {
            assert(a[0] == 'u');
            assert(a != "--help"@) by {
                assert("--help"@[0] == '-');
            }
        }
        if a == "init"@ {
            assert(a[0] == 'i');
            assert(a != "help"@) by {
                assert("help"@[0] == 'h');
            }
        }
        if a == "gui"@ {
            assert(a[0] == 'g');
        }
        if a == "setup"@ {
            assert(a[0] == 's');
            assert(a[1] == 'e');
        }
        if a == "run"@ {
            assert(a[0] == 'r');
            assert(a != "gui"@) by {
                assert("gui"@[0] == 'g');
            }
        }
        if a == "shell"@ {
            assert(a[0] == 's');
            assert(a[1] == 'h');
            assert(a != "setup"@) by {
                assert("setup"@[1] == 'e');
            }
        }
    }
}

fn same(a: &String, s: &str) -> (r: bool)
    ensures
        r == (a@ == s@),
{
    crate::text::eq_str(&chars(a.as_str()), s)
}

/// Reads the command-line arguments (without the program name).
pub fn parse_cli(args: &Vec<String>) -> (r: Result<CliCommand, String>)
    ensures
        match r {
            Ok(c) => cli_of(strs(args@)) == Ok::<CliView, Seq<char>>(c@),
            Err(e) => cli_of(strs(args@)) == Err::<CliView, Seq<char>>(e@),
        },
{
    let ghost a = strs(args@);
    if args.len() == 0 {
        return Ok(CliCommand::Help);
    }
    let action = &args[0];
    assert(a[0] == action@);
    if same(action, "help") || same(action, "--help") || same(action, "-h") {
        return Ok(CliCommand::Help);
    }
    if same(action, "update") {
        if args.len() == 1 {
            return Ok(CliCommand::Update { repo: None });
        }
        if args.len() == 3 && same(&args[1], "--repo") {
            return Ok(CliCommand::Update { repo: Some(args[2].clone()) });
        }
        return Err(owned("Usage: codesync update [--repo /path/to/codesync]"));
    }
    if same(action, "gui") {
        if args.len() != 1 {
            return Err(owned("Usage: codesync gui"));
        }
        return Ok(CliCommand::Gui);
    }
    if same(action, "init") {
        let (force, host, dir) = if args.len() == 3 {
            (false, args[1].clone(), args[2].clone())
        } else if args.len() == 4 && same(&args[1], "--force") {
            (true, args[2].clone(), args[3].clone())
        } else {
            return Err(owned("Usage: codesync init [--force] USER@HOST /absolute/remote/folder"));
        };
        let config = Config { host, dir };
        match config.validate() {
            Err(e) => return Err(e),
            Ok(()) => {},
        }
        return Ok(CliCommand::Init { force, config });
    }
    if same(action, "setup") {
        if args.len() != 1 {
            return Err(owned("Usage: codesync setup"));
        }
        return Ok(CliCommand::Setup);
    }
    if same(action, "push") || same(action, "pull") {
        if args.len() > 2 || (args.len() == 2 && !same(&args[1], "--dry-run")) {
            let mut msg = chars("Usage: codesync ");
            push_str(&mut msg, action.as_str());
            push_str(&mut msg, " [--dry-run]");
            return Err(string_of(&msg));
        }
        return Ok(CliCommand::Sync { pull: same(action, "pull"), dry: args.len() == 2 });
    }
    if same(action, "run") {
        if args.len() < 2 {
            return Err(owned("Usage: codesync run COMMAND [ARGS...]"));
        }
        let mut parts: Vec<Vec<char>> = Vec::new();
        let mut i: usize = 1;
        while i < args.len()
            invariant
                1 <= i <= args@.len(),
                a == strs(args@),
                crate::order::views(parts@) == a.skip(1).take(i - 1).map_values(|x: Seq<char>| quoted(x)),
            decreases args@.len() - i,
        {
            let ghost before = crate::order::views(parts@);
            parts.push(chars(quote(args[i].as_str()).as_str()));
            assert(crate::order::views(parts@) =~= before.push(quoted(a[i as int])));
            i = i + 1;
            assert(a.skip(1).take(i - 1) =~= a.skip(1).take(i - 2).push(a[i - 1]));
        }
        assert(a.skip(1).take(args@.len() - 1) == a.skip(1));
        assert(parts@.map_values(|p: Vec<char>| p@) == crate::order::views(parts@));
        let joined = crate::text::join_vec(&parts, " ");
        return Ok(CliCommand::Run { command: string_of(&joined) });
    }
    if same(action, "shell") {
        if args.len() != 1 {
            return Err(owned("Usage: codesync shell"));
        }
        return Ok(CliCommand::Shell);
    }
    let mut msg = chars("Unknown command: ");
    push_str(&mut msg, action.as_str());
    push_str(&mut msg, ". Use codesync --help.");
    Err(string_of(&msg))
}

// ---------------------------------------------------------------------------
// What each command runs
// ---------------------------------------------------------------------------

/// The ssh options every call uses: one shared connection per destination.
pub open spec fn ssh_options() -> Seq<Seq<char>> {
    seq!["-o"@, "ControlMaster=auto"@, "-o"@, "ControlPersist=10m"@, "-o"@, "ControlPath=~/.ssh/codesync-%C"@]
}

fn push_owned(v: &mut Vec<String>, s: &str)
    ensures
        strs(final(v)@) == strs(old(v)@).push(s@),
{
    v.push(owned(s));
    assert(strs(v@) =~= strs(old(v)@).push(s@));
}

fn push_string(v: &mut Vec<String>, s: String)
    ensures
        strs(final(v)@) == strs(old(v)@).push(s@),
{
    let ghost sv = s@;
    v.push(s);
    assert(strs(v@) =~= strs(old(v)@).push(sv));
}

fn push_options(v: &mut Vec<String>)
    ensures
        strs(final(v)@) == strs(old(v)@) + ssh_options(),
{
    push_owned(v, "-o");
    push_owned(v, "ControlMaster=auto");
    push_owned(v, "-o");
    push_owned(v, "ControlPersist=10m");
    push_owned(v, "-o");
    push_owned(v, "ControlPath=~/.ssh/codesync-%C");
    assert(strs(v@) =~= strs(old(v)@) + ssh_options());
}

pub open spec fn transport_text() -> Seq<char> {
    "ssh -o ControlMaster=auto -o ControlPersist=10m -o ControlPath=~/.ssh/codesync-%C"@
}

/// The remote shell rsync uses: ssh with the shared options.
pub fn ssh_transport() -> (r: String)
    ensures
        r@ == transport_text(),
{
    owned("ssh -o ControlMaster=auto -o ControlPersist=10m -o ControlPath=~/.ssh/codesync-%C")
}

/// ssh's arguments to run `script` at the configured destination, with a
/// terminal when `interactive`.
pub open spec fn ssh_command_of(host: Seq<char>, script: Seq<char>, interactive: bool) -> Seq<Seq<char>> {
    ssh_options() + (if interactive { seq!["-t"@] } else { seq![] }) + seq![
        crate::destination::ssh_destination_of(host),
        script,
    ]
}

pub fn ssh_command(config: &Config, script: &str, interactive: bool) -> (r: Vec<String>)
    ensures
        strs(r@) == ssh_command_of(config.host@, script@, interactive),
{
    let mut r: Vec<String> = Vec::new();
    push_options(&mut r);
    if interactive {
        push_owned(&mut r, "-t");
    }
    let d = crate::destination::ssh_destination(config.host.as_str());
    push_string(&mut r, d);
    push_owned(&mut r, script);
    assert(strs(r@) =~= ssh_command_of(config.host@, script@, interactive));
    r
}

/// rsync's arguments for `push` or `pull` (a dry run when `dry`).
pub open spec fn sync_command_of(host: Seq<char>, dir: Seq<char>, pull: bool, dry: bool) -> Seq<Seq<char>> {
    let remote = crate::destination::rsync_destination_of(host, dir);
    seq!["-az"@, "--protect-args"@, "--itemize-changes"@, "-e"@, transport_text()]
        + crate::commands::exclude_options() + (if dry { seq!["--dry-run"@] } else { seq![] })
        + seq!["--"@] + if pull { seq![remote, "./"@] } else { seq!["./"@, remote] }
}

/// Every push and pull, dry or not, passes rsync `-az`, `--protect-args`,
/// `--itemize-changes` and `-e` with the shared ssh command, then one
/// `--exclude=` option for each of `.git`, `target`, `node_modules`, `.codesync`, `.env`, `.env.*`,
/// `*.pem` and `*.key`, in that order, before the `--` that ends the options,
/// followed by the two ends of the transfer: from the server to `./` for a
/// pull, from `./` to the server for a push.
pub proof fn lemma_sync_excludes(host: Seq<char>, dir: Seq<char>, pull: bool, dry: bool)
    ensures
        ({
            let a = sync_command_of(host, dir, pull, dry);
            let k: int = if dry { 14 } else { 13 };
            &&& a.len() == k + 3
            &&& a.subrange(0, 4) == seq!["-az"@, "--protect-args"@, "--itemize-changes"@, "-e"@]
            &&& a[4] == transport_text()
            &&& a.subrange(5, 13) == seq![
                "--exclude="@ + ".git"@,
                "--exclude="@ + "target"@,
                "--exclude="@ + "node_modules"@,
                "--exclude="@ + ".codesync"@,
                "--exclude="@ + ".env"@,
                "--exclude="@ + ".env.*"@,
                "--exclude="@ + "*.pem"@,
                "--exclude="@ + "*.key"@,
            ]
            &&& (dry ==> a[13] == "--dry-run"@)
            &&& a[k] == "--"@
            &&& a[k + 1] == (if pull { crate::destination::rsync_destination_of(host, dir) } else { "./"@ })
            &&& a[k + 2] == (if pull { "./"@ } else { crate::destination::rsync_destination_of(host, dir) })
        }),
{
    let a = sync_command_of(host, dir, pull, dry);
    let e = crate::commands::exclude_options();
    assert(e.len() == 8);
    assert(a.subrange(5, 13) =~= e);
    assert(a.subrange(0, 4) =~= seq!["-az"@, "--protect-args"@, "--itemize-changes"@, "-e"@]);
}

pub fn sync_command(config: &Config, pull: bool, dry: bool) -> (r: Vec<String>)
    ensures
        strs(r@) == sync_command_of(config.host@, config.dir@, pull, dry),
{
    let mut r: Vec<String> = Vec::new();
    push_owned(&mut r, "-az");
    push_owned(&mut r, "--protect-args");
    push_owned(&mut r, "--itemize-changes");
    push_owned(&mut r, "-e");
    push_string(&mut r, ssh_transport());
    let patterns = crate::config::excludes();
    let mut i: usize = 0;
    let ghost head = strs(r@);
    assert(strs(r@) == head + crate::commands::exclude_options().take(0));
    while i < patterns.len()
        invariant
            i <= patterns@.len(),
            strs(patterns@) == crate::config::exclude_patterns(),
            strs(r@) == head + crate::commands::exclude_options().take(i as int),
        decreases patterns@.len() - i,
    {
        let mut a = chars("--exclude=");
        push_str(&mut a, patterns[i].as_str());
        let ghost before = strs(r@);
        r.push(string_of(&a));
        assert(strs(r@) =~= before.push(a@));
        i = i + 1;
        assert(crate::commands::exclude_options().take(i as int) =~= crate::commands::exclude_options().take(i - 1).push(
            crate::commands::exclude_options()[i - 1],
        ));
    }
    assert(crate::commands::exclude_options().take(patterns@.len() as int) == crate::commands::exclude_options());
    if dry {
        push_owned(&mut r, "--dry-run");
    }
    push_owned(&mut r, "--");
    let remote = crate::destination::rsync_destination(config.host.as_str(), config.dir.as_str());
    if pull {
        push_string(&mut r, remote);
        push_owned(&mut r, "./");
    } else {
        push_owned(&mut r, "./");
        push_string(&mut r, remote);
    }
    assert(strs(r@) =~= sync_command_of(config.host@, config.dir@, pull, dry));
    r
}

/// The script that creates the remote folder before a push.
pub fn mkdir_script(config: &Config) -> (r: String)
    ensures
        r@ == "mkdir -p -- "@ + quoted(config.dir@),
{
    let mut out = chars("mkdir -p -- ");
    push_str(&mut out, quote(config.dir.as_str()).as_str());
    string_of(&out)
}

/// The script that runs `command` in the remote folder.
pub fn run_script(config: &Config, command: &str) -> (r: String)
    ensures
        r@ == "cd -- "@ + quoted(config.dir@) + " && "@ + command@,
{
    let mut out = chars("cd -- ");
    push_str(&mut out, quote(config.dir.as_str()).as_str());
    push_str(&mut out, " && ");
    push_str(&mut out, command);
    string_of(&out)
}

/// The script that opens a login shell in the remote folder, creating it
/// first.
pub fn shell_script(config: &Config) -> (r: String)
    ensures
        r@ == "mkdir -p -- "@ + quoted(config.dir@) + " && cd -- "@ + quoted(config.dir@)
            + " && exec \"${SHELL:-/bin/sh}\" -l"@,
{
    let q = quote(config.dir.as_str());
    let mut out = chars("mkdir -p -- ");
    push_str(&mut out, q.as_str());
    push_str(&mut out, " && cd -- ");
    push_str(&mut out, q.as_str());
    push_str(&mut out, " && exec \"${SHELL:-/bin/sh}\" -l");
    string_of(&out)
}

/// The script that installs what the server needs: `setup` run by `sh`.
pub fn setup_command(setup: &str) -> (r: String)
    ensures
        r@ == "sh -c "@ + quoted(setup@),
{
    let mut out = chars("sh -c ");
    push_str(&mut out, quote(setup).as_str());
    string_of(&out)
}

/// How a finished command reads: its name and exit status when it failed.
pub fn execute_outcome(name: &str, success: bool, status: &str) -> (r: Result<(), String>)
    ensures
        success ==> r is Ok,
        !success ==> (r matches Err(e) && e@ == name@ + " failed ("@ + status@ + ")"@),
{
    if success {
        return Ok(());
    }
    let mut out = chars(name);
    push_str(&mut out, " failed (");
    push_str(&mut out, status);
    push_str(&mut out, ")");
    Err(string_of(&out))
}

/// The message for a failed server setup.
pub fn setup_failure(e: &str) -> (r: String)
    ensures
        r@ == "Server setup failed: "@ + e@ + ". Settings are saved; retry with codesync setup."@,
{
    let mut out = chars("Server setup failed: ");
    push_str(&mut out, e);
    push_str(&mut out, ". Settings are saved; retry with codesync setup.");
    string_of(&out)
}

/// The two lines `init` writes to `.codesync`.
pub fn config_text(config: &Config) -> (r: String)
    ensures
        r@ == config.host@ + "\n"@ + config.dir@ + "\n"@,
{
    let mut out = chars(config.host.as_str());
    push_str(&mut out, "\n");
    push_str(&mut out, config.dir.as_str());
    push_str(&mut out, "\n");
    string_of(&out)
}

} // verus!
