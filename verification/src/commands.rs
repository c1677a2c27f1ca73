//! What jobs run and how their results read: the messages for failed
//! commands, Tailscale sign-in links, and the fixed scripts.
use vstd::prelude::*;
use crate::shell::{quote, quoted};
use crate::text::{
    last_index, chars, contains_seq, contains_str, decimal, decimal_of, is_ascii_alnum, is_ws, owned,
    push_str, string_of, to_lowercase, unicode_lowercase,
};

verus! {

// ---------------------------------------------------------------------------
// Tasks
// ---------------------------------------------------------------------------

/// What a job does with one server.
#[derive(Debug)]
pub enum Action {
    /// List a directory, or preview a file, under `~/codesync`.
    Browse { path: String, preview: bool },
    Test,
    Setup,
    Tailscale,
    PrepareHost,
    DisableHost,
    Sync,
}

/// One step of a job: a server with its passwords, the local folder and
/// the remote directory it maps, and what to do.
#[derive(Debug)]
pub struct Task {
    pub server: crate::store::Server,
    pub credentials: crate::auth::Credentials,
    pub local: String,
    pub remote: String,
    pub action: Action,
}

impl Clone for Action {
    fn clone(&self) -> (r: Self)
        ensures
            r == *self,
    {
        match self {
            Action::Browse { path, preview } => Action::Browse { path: path.clone(), preview: *preview },
            Action::Test => Action::Test,
            Action::Setup => Action::Setup,
            Action::Tailscale => Action::Tailscale,
            Action::PrepareHost => Action::PrepareHost,
            Action::DisableHost => Action::DisableHost,
            Action::Sync => Action::Sync,
        }
    }
}

impl Clone for Task {
    fn clone(&self) -> (r: Self)
        ensures
            r == *self,
    {
        Task {
            server: self.server.clone(),
            credentials: self.credentials.clone(),
            local: self.local.clone(),
            remote: self.remote.clone(),
            action: self.action.clone(),
        }
    }
}

// ---------------------------------------------------------------------------
// Why a command failed
// ---------------------------------------------------------------------------

/// The explanation shown for a failed command, from its lowercased error
/// output: the first matching rule wins.
pub open spec fn reason_for(error: Seq<char>) -> Seq<char> {
    if contains_seq(error, "identification has changed"@) || contains_seq(
        error,
        "host key verification failed"@,
    ) {
        "The SSH server identity was not accepted. Verify the fingerprint; a different machine may be using this address."@
    } else if contains_seq(error, "could not resolve hostname"@) {
        "The server hostname could not be resolved. Check its address and DNS."@
    } else if contains_seq(error, "connection refused"@) {
        "The SSH port refused the connection. Check the port and whether SSH is running."@
    } else if contains_seq(error, "timed out"@) || contains_seq(error, "no route to host"@)
        || contains_seq(error, "network is unreachable"@) {
        "The server could not be reached. Check the selected connection mode and network."@
    } else if contains_seq(error, "incorrect password"@) || contains_seq(error, "sorry, try again"@) {
        "The administrator password was rejected."@
    } else if contains_seq(error, "a password is required"@) || contains_seq(
        error,
        "no password was provided"@,
    ) {
        "Administrator authentication is required."@
    } else if contains_seq(error, "permission denied"@) || contains_seq(
        error,
        "authentication failed"@,
    ) {
        "Authentication was rejected. Check the credentials for this step."@
    } else if contains_seq(error, "authentication agent"@) || contains_seq(error, "not authorized"@) {
        "Desktop administrator authorization was unavailable or cancelled."@
    } else if contains_seq(error, "bad owner or permissions"@) {
        "SSH refused a configuration file because of its ownership or permissions."@
    } else {
        "Check the activity output for this step."@
    }
}

/// The ten explanations a failed command can get.
pub open spec fn fixed_reasons() -> Seq<Seq<char>> {
    seq![
        "The SSH server identity was not accepted. Verify the fingerprint; a different machine may be using this address."@,
        "The server hostname could not be resolved. Check its address and DNS."@,
        "The SSH port refused the connection. Check the port and whether SSH is running."@,
        "The server could not be reached. Check the selected connection mode and network."@,
        "The administrator password was rejected."@,
        "Administrator authentication is required."@,
        "Authentication was rejected. Check the credentials for this step."@,
        "Desktop administrator authorization was unavailable or cancelled."@,
        "SSH refused a configuration file because of its ownership or permissions."@,
        "Check the activity output for this step."@,
    ]
}

/// Whatever the error output says, the explanation is one of the ten fixed
/// texts: nothing of the output (host names, paths) is repeated in it.
pub proof fn lemma_reason_is_fixed(error: Seq<char>)
    ensures
        fixed_reasons().contains(reason_for(error)),
{
    let f = fixed_reasons();
    let r = reason_for(error);
    assert(f[0] == "The SSH server identity was not accepted. Verify the fingerprint; a different machine may be using this address."@);
    assert(f[1] == "The server hostname could not be resolved. Check its address and DNS."@);
    assert(f[2] == "The SSH port refused the connection. Check the port and whether SSH is running."@);
    assert(f[3] == "The server could not be reached. Check the selected connection mode and network."@);
    assert(f[4] == "The administrator password was rejected."@);
    assert(f[5] == "Administrator authentication is required."@);
    assert(f[6] == "Authentication was rejected. Check the credentials for this step."@);
    assert(f[7] == "Desktop administrator authorization was unavailable or cancelled."@);
    assert(f[8] == "SSH refused a configuration file because of its ownership or permissions."@);
    assert(f[9] == "Check the activity output for this step."@);
}

/// Explains a failed command from its error output (compared in lower
/// case).
pub fn failure_reason(stderr: &str) -> (r: &'static str)
    ensures
        r@ == reason_for(unicode_lowercase(stderr@)),
        crate::text::all_ascii(stderr@) ==> r@ == reason_for(crate::text::ascii_lower_seq(stderr@)),
{
    let error = to_lowercase(&chars(stderr));
    if contains_str(&error, "identification has changed") || contains_str(
        &error,
        "host key verification failed",
    ) {
        "The SSH server identity was not accepted. Verify the fingerprint; a different machine may be using this address."
    } else if contains_str(&error, "could not resolve hostname") {
        "The server hostname could not be resolved. Check its address and DNS."
    } else if contains_str(&error, "connection refused") {
        "The SSH port refused the connection. Check the port and whether SSH is running."
    } else if contains_str(&error, "timed out") || contains_str(&error, "no route to host")
        || contains_str(&error, "network is unreachable") {
        "The server could not be reached. Check the selected connection mode and network."
    } else if contains_str(&error, "incorrect password") || contains_str(&error, "sorry, try again") {
        "The administrator password was rejected."
    } else if contains_str(&error, "a password is required") || contains_str(
        &error,
        "no password was provided",
    ) {
        "Administrator authentication is required."
    } else if contains_str(&error, "permission denied") || contains_str(
        &error,
        "authentication failed",
    ) {
        "Authentication was rejected. Check the credentials for this step."
    } else if contains_str(&error, "authentication agent") || contains_str(&error, "not authorized") {
        "Desktop administrator authorization was unavailable or cancelled."
    } else if contains_str(&error, "bad owner or permissions") {
        "SSH refused a configuration file because of its ownership or permissions."
    } else {
        "Check the activity output for this step."
    }
}

// ---------------------------------------------------------------------------
// Tailscale sign-in links
// ---------------------------------------------------------------------------

/// The whitespace-separated words of `s` (`str::split_whitespace`).
pub open spec fn words(s: Seq<char>) -> Seq<Seq<char>>
    decreases s.len(),
{
    if s.len() == 0 {
        seq![]
    } else {
        let w = words(s.drop_last());
        let c = s.last();
        if is_ws(c) {
            w
        } else if s.len() == 1 || is_ws(s[s.len() - 2]) {
            w.push(seq![c])
        } else {
            w.update(w.len() - 1, w.last().push(c))
        }
    }
}

/// Characters trimmed from both ends of a word before it is read as a link.
pub open spec fn wrapper_char(c: char) -> bool {
    c == '"' || c == '\'' || c == '(' || c == ')' || c == '<' || c == '>'
}

/// `s` with `wrapper_char`s removed from both ends.
pub open spec fn unwrap_word(s: Seq<char>) -> Seq<char>
    decreases s.len(),
{
    if s.len() > 0 && wrapper_char(s[0]) {
        unwrap_word(s.drop_first())
    } else if s.len() > 0 && wrapper_char(s.last()) {
        unwrap_word(s.drop_last())
    } else {
        s
    }
}

/// A character allowed in the path of a sign-in link.
pub open spec fn link_char(c: char) -> bool {
    is_ascii_alnum(c) || c == '/' || c == '?' || c == '=' || c == '&' || c == '-' || c == '_'
        || c == '.' || c == '%'
}

pub open spec fn login_prefix() -> Seq<char> {
    "https://login.tailscale.com/"@
}

/// `url` is a Tailscale sign-in link: the login site, then a non-empty path
/// of `link_char`s.
pub open spec fn is_login_url(url: Seq<char>) -> bool {
    &&& url.len() > login_prefix().len()
    &&& url.take(login_prefix().len() as int) == login_prefix()
    &&& forall|i: int| login_prefix().len() <= i < url.len() ==> link_char(#[trigger] url[i])
}

/// The first word of `ws` that is a sign-in link once unwrapped.
pub open spec fn first_login(ws: Seq<Seq<char>>) -> Option<Seq<char>>
    decreases ws.len(),
{
    if ws.len() == 0 {
        None
    } else if is_login_url(unwrap_word(ws[0])) {
        Some(unwrap_word(ws[0]))
    } else {
        first_login(ws.drop_first())
    }
}

fn is_wrapper(c: char) -> (r: bool)
    ensures
        r == wrapper_char(c),
{
    c == '"' || c == '\'' || c == '(' || c == ')' || c == '<' || c == '>'
}

fn unwrap_of(w: &Vec<char>) -> (r: Vec<char>)
    ensures
        r@ == unwrap_word(w@),
{
    let mut start: usize = 0;
    let mut end: usize = w.len();
    assert(w@.subrange(0, w@.len() as int) == w@);
    while start < end && is_wrapper(w[start])
        invariant
            start <= end == w@.len(),
            unwrap_word(w@) == unwrap_word(w@.subrange(start as int, end as int)),
        decreases end - start,
    {
        assert(w@.subrange(start as int, end as int).drop_first() == w@.subrange(start + 1, end as int));
        start = start + 1;
    }
    while start < end && is_wrapper(w[end - 1])
        invariant
            start <= end <= w@.len(),
            start == end || !wrapper_char(w@[start as int]),
            unwrap_word(w@) == unwrap_word(w@.subrange(start as int, end as int)),
        decreases end - start,
    {
        let ghost t = w@.subrange(start as int, end as int);
        assert(t.drop_last() == w@.subrange(start as int, end - 1));
        assert(t[0] == w@[start as int]);
        end = end - 1;
    }
    assert(w@.subrange(start as int, end as int).len() == 0 || w@.subrange(start as int, end as int)[0]
        == w@[start as int]);
    crate::text::slice(w, start, end)
}

fn login_url_of(url: &Vec<char>) -> (r: bool)
    ensures
        r == is_login_url(url@),
{
    let prefix = chars("https://login.tailscale.com/");
    if url.len() <= prefix.len() || !crate::text::starts_with(url, &prefix) {
        proof {
            if url@.len() > prefix@.len() {
                assert(url@.take(prefix@.len() as int) != prefix@);
            }
        }
        return false;
    }
    let mut i = prefix.len();
    while i < url.len()
        invariant
            prefix@ == login_prefix(),
            prefix@.len() <= i <= url@.len(),
            forall|k: int| prefix@.len() <= k < i ==> link_char(#[trigger] url@[k]),
        decreases url@.len() - i,
    {
        let c = url[i];
        let ok = crate::text::is_alnum(c) || c == '/' || c == '?' || c == '=' || c == '&' || c == '-'
            || c == '_' || c == '.' || c == '%';
        if !ok {
            return false;
        }
        i = i + 1;
    }
    assert(url@.take(prefix@.len() as int) =~= prefix@);
    true
}

proof fn lemma_words_nonempty(s: Seq<char>)
    requires
        s.len() > 0,
        !is_ws(s.last()),
    ensures
        words(s).len() > 0,
    decreases s.len(),
{
    if s.len() > 1 && !is_ws(s[s.len() - 2]) {
        assert(s.drop_last().last() == s[s.len() - 2]);
        lemma_words_nonempty(s.drop_last());
    }
}

/// The whitespace-separated words of `s`.
fn words_of(s: &Vec<char>) -> (r: Vec<Vec<char>>)
    ensures
        r@.len() == words(s@).len(),
        forall|i: int| 0 <= i < r@.len() ==> #[trigger] r@[i]@ == words(s@)[i],
{
    let mut r: Vec<Vec<char>> = Vec::new();
    let mut i: usize = 0;
    while i < s.len()
        invariant
            i <= s@.len(),
            r@.len() == words(s@.take(i as int)).len(),
            forall|k: int| 0 <= k < r@.len() ==> #[trigger] r@[k]@ == words(s@.take(i as int))[k],
        decreases s@.len() - i,
    {
        let c = s[i];
        let ghost t = s@.take(i + 1);
        assert(t.drop_last() == s@.take(i as int));
        assert(t.last() == c);
        if crate::text::is_whitespace(c) {
        } else if i == 0 || crate::text::is_whitespace(s[i - 1]) {
            assert(i == 0 || t[t.len() - 2] == s@[i - 1]);
            let mut w: Vec<char> = Vec::new();
            w.push(c);
            r.push(w);
        } else {
            assert(t[t.len() - 2] == s@[i - 1]);
            proof {
                assert(s@.take(i as int).last() == s@[i - 1]);
                lemma_words_nonempty(s@.take(i as int));
            }
            let last = r.len() - 1;
            let mut w = r.remove(last);
            w.push(c);
            r.push(w);
        }
        i = i + 1;
        assert forall|k: int| 0 <= k < r@.len() implies #[trigger] r@[k]@ == words(s@.take(i as int))[k] by {
        }
    }
    assert(s@.take(s@.len() as int) == s@);
    r
}

/// The Tailscale sign-in link in a line of output, if there is one: the
/// first word that, without surrounding quotes, brackets and parentheses, is
/// a link to the login site.
pub fn login_url(line: &str) -> (r: Option<String>)
    ensures
        match r {
            Some(u) => first_login(words(line@)) == Some(u@),
            None => first_login(words(line@)) is None,
        },
{
    proof {
        reveal_strlit("https://login.tailscale.com/");
    }
    let ws = words_of(&chars(line));
    let ghost wv = words(line@);
    let mut i: usize = 0;
    assert(wv.skip(0) == wv);
    while i < ws.len()
        invariant
            i <= ws@.len() == wv.len(),
            wv == words(line@),
            forall|k: int| 0 <= k < ws@.len() ==> #[trigger] ws@[k]@ == wv[k],
            first_login(wv) == first_login(wv.skip(i as int)),
        decreases ws@.len() - i,
    {
        let url = unwrap_of(&ws[i]);
        assert(wv.skip(i as int)[0] == wv[i as int]);
        if login_url_of(&url) {
            return Some(string_of(&url));
        }
        assert(wv.skip(i as int).drop_first() == wv.skip(i + 1));
        i = i + 1;
    }
    None
}

// ---------------------------------------------------------------------------
// Fixed scripts
// ---------------------------------------------------------------------------

/// Where the helper that stops SSH is installed.
pub const STOP_SSH_HELPER: &'static str = "/usr/local/libexec/codesync-stop-ssh";

/// Appends `s` to `out`.
fn put(out: &mut Vec<char>, s: &str)
    ensures
        final(out)@ == old(out)@ + s@,
{
    push_str(out, s)
}

pub open spec fn policy_text(uid: u32) -> Seq<char> {
    "# Codesync: only stop SSH, never enable it or run arbitrary commands.\n#"@ + decimal(uid as nat)
        + " ALL=(root) NOPASSWD: NOSETENV: /usr/local/libexec/codesync-stop-ssh \"\"\n"@
}

/// The sudoers rule that lets user `uid` run the stop helper, without
/// arguments or environment, and nothing else.
pub fn stop_ssh_policy(uid: u32) -> (r: String)
    ensures
        r@ == policy_text(uid),
{
    let mut out: Vec<char> = Vec::new();
    put(&mut out, "# Codesync: only stop SSH, never enable it or run arbitrary commands.\n#");
    let digits = decimal_of(uid as u64);
    crate::text::push_all(&mut out, &digits);
    put(&mut out, " ALL=(root) NOPASSWD: NOSETENV: /usr/local/libexec/codesync-stop-ssh \"\"\n");
    string_of(&out)
}

pub open spec fn helper_text(control: Seq<char>) -> Seq<char> {
    "#!/bin/sh\nPATH=/usr/sbin:/usr/bin:/sbin:/bin\nexport PATH\nunset ENV BASH_ENV CDPATH\n[ \"$#\" -eq 0 ] || exit 2\nset -- disable\n"@
        + control
}

/// The helper installed for password-free shutdown: a fixed environment, no
/// arguments accepted, and the host control script run with `disable`.
pub fn stop_ssh_helper(control: &str) -> (r: String)
    ensures
        r@ == helper_text(control@),
{
    let mut out: Vec<char> = Vec::new();
    put(
        &mut out,
        "#!/bin/sh\nPATH=/usr/sbin:/usr/bin:/sbin:/bin\nexport PATH\nunset ENV BASH_ENV CDPATH\n[ \"$#\" -eq 0 ] || exit 2\nset -- disable\n",
    );
    put(&mut out, control);
    string_of(&out)
}

pub open spec fn policy_setup_text(uid: u32, control: Seq<char>) -> Seq<char> {
    if uid == 0 {
        seq![]
    } else {
        "\ncommand -v sudo >/dev/null && command -v visudo >/dev/null || { echo 'Install sudo before preparing password-free SSH shutdown.' >&2; exit 1; }\numask 077\nwork=$(mktemp -d)\ntrap 'rm -rf -- \"$work\"' EXIT HUP INT TERM\nprintf %s "@ + quoted(helper_text(control))
            + " > \"$work/helper\"\nprintf %s "@ + quoted(policy_text(uid))
            + " > \"$work/policy\"\nvisudo -cf \"$work/policy\"\ninstall -d -o 0 -g 0 -m 0755 /usr/local/libexec\ninstall -o 0 -g 0 -m 0755 \"$work/helper\" "@
            + "/usr/local/libexec/codesync-stop-ssh"@
            + "\ninstall -d -o 0 -g 0 -m 0750 /etc/sudoers.d\ninstall -o 0 -g 0 -m 0440 \"$work/policy\" /etc/sudoers.d/codesync-stop-ssh-"@ + decimal(uid as nat)
            + "\nrm -rf -- \"$work\"\ntrap - EXIT HUP INT TERM\n"@
    }
}

pub open spec fn host_setup_text(uid: u32, control: Seq<char>, setup: Seq<char>) -> Seq<char> {
    "set -eu\n"@ + policy_setup_text(uid, control) + "\n"@ + setup
}

/// The script that prepares this host for incoming connections (`setup`),
/// run as root. For a user other than root it first installs, after
/// `visudo` accepts it, the sudoers rule and helper that let that user stop
/// SSH without a password.
pub fn host_setup_script(uid: u32, control: &str, setup: &str) -> (r: String)
    ensures
        r@ == host_setup_text(uid, control@, setup@),
{
    let mut out: Vec<char> = Vec::new();
    put(&mut out, "set -eu\n");
    if uid != 0 {
        let helper = quote(stop_ssh_helper(control).as_str());
        let policy = quote(stop_ssh_policy(uid).as_str());
        put(&mut out, "\ncommand -v sudo >/dev/null && command -v visudo >/dev/null || { echo 'Install sudo before preparing password-free SSH shutdown.' >&2; exit 1; }\numask 077\nwork=$(mktemp -d)\ntrap 'rm -rf -- \"$work\"' EXIT HUP INT TERM\nprintf %s ");
        put(&mut out, helper.as_str());
        put(&mut out, " > \"$work/helper\"\nprintf %s ");
        put(&mut out, policy.as_str());
        put(&mut out, " > \"$work/policy\"\nvisudo -cf \"$work/policy\"\ninstall -d -o 0 -g 0 -m 0755 /usr/local/libexec\ninstall -o 0 -g 0 -m 0755 \"$work/helper\" ");
        put(&mut out, STOP_SSH_HELPER);
        put(&mut out, "\ninstall -d -o 0 -g 0 -m 0750 /etc/sudoers.d\ninstall -o 0 -g 0 -m 0440 \"$work/policy\" /etc/sudoers.d/codesync-stop-ssh-");
        let digits = decimal_of(uid as u64);
        crate::text::push_all(&mut out, &digits);
        put(&mut out, "\nrm -rf -- \"$work\"\ntrap - EXIT HUP INT TERM\n");
    }
    put(&mut out, "\n");
    put(&mut out, setup);
    string_of(&out)
}

pub open spec fn escalation(first: Seq<char>, command: Seq<char>, last: Seq<char>) -> Seq<char> {
    first + command + "; elif command -v sudo >/dev/null 2>&1; then sudo -S -p '' -- "@ + command
        + "; elif command -v doas >/dev/null 2>&1; then doas -n "@ + command + last
}

/// Runs `command` as root if the shell is root, else through `sudo` reading
/// the password from standard input, else through non-interactive `doas`.
fn escalate(first: &str, command: &Vec<char>, last: &str) -> (r: String)
    ensures
        r@ == escalation(first@, command@, last@),
{
    let mut out: Vec<char> = Vec::new();
    put(&mut out, first);
    crate::text::push_all(&mut out, command);
    put(&mut out, "; elif command -v sudo >/dev/null 2>&1; then sudo -S -p '' -- ");
    crate::text::push_all(&mut out, command);
    put(&mut out, "; elif command -v doas >/dev/null 2>&1; then doas -n ");
    crate::text::push_all(&mut out, command);
    put(&mut out, last);
    string_of(&out)
}

pub open spec fn sh_command(script: Seq<char>) -> Seq<char> {
    "sh -c "@ + quoted(script)
}

fn sh_command_of(script: &str) -> (r: Vec<char>)
    ensures
        r@ == sh_command(script@),
{
    let mut out: Vec<char> = Vec::new();
    put(&mut out, "sh -c ");
    let q = quote(script);
    put(&mut out, q.as_str());
    out
}

pub open spec fn privileged_text(script: Seq<char>) -> Seq<char> {
    escalation(
        "if [ \"$(id -u)\" = 0 ]; then "@,
        sh_command(script),
        "; else printf '%s\\n' 'Server setup requires root, sudo, or passwordless doas.' >&2; exit 1; fi"@,
    )
}

/// Runs `script` on a server as root: directly, through `sudo` with the
/// password on standard input, or through passwordless `doas`.
pub fn privileged_remote(script: &str) -> (r: String)
    ensures
        r@ == privileged_text(script@),
{
    let command = sh_command_of(script);
    escalate(
        "if [ \"$(id -u)\" = 0 ]; then ",
        &command,
        "; else printf '%s\\n' 'Server setup requires root, sudo, or passwordless doas.' >&2; exit 1; fi",
    )
}

pub open spec fn setup_text(installer: Seq<char>) -> Seq<char> {
    escalation(
        "if command -v rsync >/dev/null 2>&1; then rsync --version; elif [ \"$(id -u)\" = 0 ]; then "@,
        sh_command(installer),
        "; else printf '%s\\n' 'Install rsync manually, or enable sudo for this account.' >&2; exit 1; fi"@,
    )
}

/// The server setup command: report rsync's version if it is installed,
/// else run `installer` as root (directly, through `sudo` with the password
/// on standard input, or through passwordless `doas`).
pub fn setup_script(installer: &str) -> (r: String)
    ensures
        r@ == setup_text(installer@),
{
    let command = sh_command_of(installer);
    escalate(
        "if command -v rsync >/dev/null 2>&1; then rsync --version; elif [ \"$(id -u)\" = 0 ]; then ",
        &command,
        "; else printf '%s\\n' 'Install rsync manually, or enable sudo for this account.' >&2; exit 1; fi",
    )
}

// ---------------------------------------------------------------------------
// Command lines
// ---------------------------------------------------------------------------

/// The character sequences of a list of strings.
pub open spec fn strs(v: Seq<String>) -> Seq<Seq<char>> {
    v.map_values(|x: String| x@)
}

fn push_owned(v: &mut Vec<String>, s: &str)
    ensures
        strs(final(v)@) == strs(old(v)@).push(s@),
{
    v.push(owned(s));
    assert(strs(v@) =~= strs(old(v)@).push(s@));
}

fn push_chars(v: &mut Vec<String>, s: &Vec<char>)
    ensures
        strs(final(v)@) == strs(old(v)@).push(s@),
{
    v.push(string_of(s));
    assert(strs(v@) =~= strs(old(v)@).push(s@));
}

fn append_all(v: &mut Vec<String>, w: &Vec<String>)
    ensures
        strs(final(v)@) == strs(old(v)@) + strs(w@),
{
    let mut i: usize = 0;
    while i < w.len()
        invariant
            i <= w@.len(),
            strs(v@) == strs(old(v)@) + strs(w@.take(i as int)),
        decreases w@.len() - i,
    {
        let ghost before = strs(v@);
        v.push(w[i].clone());
        i = i + 1;
        assert(strs(w@.take(i as int)) =~= strs(w@.take(i - 1)).push(w@[i - 1]@));
        assert(strs(v@) =~= before.push(w@[i - 1]@));
    }
    assert(w@.take(w@.len() as int) == w@);
}

/// The options every ssh call to `server` uses: its port, a shared
/// connection per server (not on Windows), fixed timeouts, strict checking
/// of the identity saved under the server's alias in Codesync's own
/// known-hosts file (at `known_hosts` on Windows, when given), and no
/// terminal.
pub open spec fn ssh_options(server: crate::store::Server, windows: bool, known_hosts: Option<Seq<char>>) -> Seq<Seq<char>> {
    seq![
        "-p"@,
        decimal(server.port as nat),
        "-o"@,
        if windows { "ControlMaster=no"@ } else { "ControlMaster=auto"@ },
        "-o"@,
        "ControlPersist=10m"@,
        "-o"@,
        if windows { "ControlPath=none"@ } else { "ControlPath=~/.ssh/codesync-server-"@ + decimal(server.id as nat) + "-%C"@ },
        "-o"@,
        "NumberOfPasswordPrompts=1"@,
        "-o"@,
        "ConnectTimeout=15"@,
        "-o"@,
        "ServerAliveInterval=15"@,
        "-o"@,
        "ServerAliveCountMax=2"@,
        "-o"@,
        "StrictHostKeyChecking=yes"@,
        "-o"@,
        "PreferredAuthentications=publickey,password"@,
        "-o"@,
        "KbdInteractiveAuthentication=no"@,
        "-T"@,
        "-o"@,
        "HostKeyAlias="@ + server.alias(),
        "-o"@,
        match known_hosts {
            Some(path) if windows => "UserKnownHostsFile=\""@ + path + "\""@,
            _ => "UserKnownHostsFile=~/.ssh/codesync_known_hosts"@,
        },
        "-o"@,
        "GlobalKnownHostsFile=/dev/null"@,
        "-o"@,
        "CheckHostIP=no"@
    ]
}

/// The options for ssh calls to `server`; see `ssh_options`. On Windows,
/// `known_hosts` is where the user's `.ssh/codesync_known_hosts` is, in the
/// form the ssh program reads.
pub fn ssh_args(server: &crate::store::Server, windows: bool, known_hosts: Option<&str>) -> (r: Vec<String>)
    ensures
        strs(r@) == ssh_options(*server, windows, match known_hosts {
            Some(p) => Some(p@),
            None => None,
        }),
{
    let mut r: Vec<String> = Vec::new();
    push_owned(&mut r, "-p");
    push_chars(&mut r, &decimal_of(server.port as u64));
    push_owned(&mut r, "-o");
    if windows {
        push_owned(&mut r, "ControlMaster=no");
    } else {
        push_owned(&mut r, "ControlMaster=auto");
    }
    push_owned(&mut r, "-o");
    push_owned(&mut r, "ControlPersist=10m");
    push_owned(&mut r, "-o");
    if windows {
        push_owned(&mut r, "ControlPath=none");
    } else {
        let mut path = chars("ControlPath=~/.ssh/codesync-server-");
        crate::text::push_all(&mut path, &decimal_of(server.id));
        put(&mut path, "-%C");
        push_chars(&mut r, &path);
    }
    push_owned(&mut r, "-o");
    push_owned(&mut r, "NumberOfPasswordPrompts=1");
    push_owned(&mut r, "-o");
    push_owned(&mut r, "ConnectTimeout=15");
    push_owned(&mut r, "-o");
    push_owned(&mut r, "ServerAliveInterval=15");
    push_owned(&mut r, "-o");
    push_owned(&mut r, "ServerAliveCountMax=2");
    push_owned(&mut r, "-o");
    push_owned(&mut r, "StrictHostKeyChecking=yes");
    push_owned(&mut r, "-o");
    push_owned(&mut r, "PreferredAuthentications=publickey,password");
    push_owned(&mut r, "-o");
    push_owned(&mut r, "KbdInteractiveAuthentication=no");
    push_owned(&mut r, "-T");
    push_owned(&mut r, "-o");
    let mut alias = chars("HostKeyAlias=");
    put(&mut alias, server.identity_alias().as_str());
    push_chars(&mut r, &alias);
    push_owned(&mut r, "-o");
    match known_hosts {
        Some(path) if windows => {
            let mut file = chars("UserKnownHostsFile=\"");
            put(&mut file, path);
            put(&mut file, "\"");
            push_chars(&mut r, &file);
        },
        _ => {
            push_owned(&mut r, "UserKnownHostsFile=~/.ssh/codesync_known_hosts");
        },
    }
    push_owned(&mut r, "-o");
    push_owned(&mut r, "GlobalKnownHostsFile=/dev/null");
    push_owned(&mut r, "-o");
    push_owned(&mut r, "CheckHostIP=no");
    assert(strs(r@) =~= ssh_options(*server, windows, match known_hosts {
        Some(p) => Some(p@),
        None => None,
    }));
    r
}

/// An ssh option as used before the server's identity is saved: the user
/// is asked to confirm an unknown identity, and no shared connection is
/// used.
pub open spec fn first_contact_option(a: Seq<char>) -> Seq<char> {
    if a == "StrictHostKeyChecking=yes"@ {
        "StrictHostKeyChecking=ask"@
    } else if a == "ControlMaster=auto"@ {
        "ControlMaster=no"@
    } else if a.len() >= 12 && a.take(12) == "ControlPath="@ {
        "ControlPath=none"@
    } else {
        a
    }
}

/// `args` with `first_contact_option` applied to each.
pub fn first_contact_args(args: &Vec<String>) -> (r: Vec<String>)
    ensures
        strs(r@) == strs(args@).map_values(|a: Seq<char>| first_contact_option(a)),
{
    proof {
        reveal_strlit("ControlPath=");
    }
    let mut r: Vec<String> = Vec::new();
    let mut i: usize = 0;
    while i < args.len()
        invariant
            i <= args@.len(),
            "ControlPath="@.len() == 12,
            strs(r@) == strs(args@).take(i as int).map_values(|a: Seq<char>| first_contact_option(a)),
        decreases args@.len() - i,
    {
        let a = chars(args[i].as_str());
        let ghost before = strs(r@);
        if crate::text::eq_str(&a, "StrictHostKeyChecking=yes") {
            push_owned(&mut r, "StrictHostKeyChecking=ask");
        } else if crate::text::eq_str(&a, "ControlMaster=auto") {
            push_owned(&mut r, "ControlMaster=no");
        } else if crate::text::starts_with_str(&a, "ControlPath=") {
            push_owned(&mut r, "ControlPath=none");
        } else {
            push_chars(&mut r, &a);
        }
        assert(strs(args@).take(i + 1) =~= strs(args@).take(i as int).push(args@[i as int]@));
        i = i + 1;
        assert(strs(r@) =~= strs(args@).take(i as int).map_values(|a: Seq<char>| first_contact_option(a)));
    }
    assert(strs(args@).take(args@.len() as int) == strs(args@));
    r
}

/// The remote shell that rsync runs: `ssh` and the options, each quoted,
/// separated by spaces.
pub open spec fn transport_of(options: Seq<Seq<char>>) -> Seq<char> {
    crate::text::join(seq!["ssh"@].add(options).map_values(|a: Seq<char>| quoted(a)), " "@)
}

pub fn transport(options: &Vec<String>) -> (r: String)
    ensures
        r@ == transport_of(strs(options@)),
{
    let mut parts: Vec<Vec<char>> = Vec::new();
    parts.push(chars(quote("ssh").as_str()));
    let mut i: usize = 0;
    let ghost all = seq!["ssh"@].add(strs(options@));
    proof {
        reveal_strlit("ssh");
    }
    while i < options.len()
        invariant
            i <= options@.len(),
            all == seq!["ssh"@].add(strs(options@)),
            crate::order::views(parts@) == all.take(i + 1).map_values(|a: Seq<char>| quoted(a)),
        decreases options@.len() - i,
    {
        let ghost before = crate::order::views(parts@);
        let q = chars(quote(options[i].as_str()).as_str());
        assert(q@ == quoted(all[i + 1]));
        parts.push(q);
        assert(crate::order::views(parts@) =~= before.push(quoted(all[i + 1])));
        i = i + 1;
        assert(all.take(i + 1) =~= all.take(i as int).push(all[i as int]));
        assert(crate::order::views(parts@) =~= all.take(i + 1).map_values(|a: Seq<char>| quoted(a)));
    }
    assert(all.take(options@.len() + 1int) == all);
    let joined = crate::text::join_vec(&parts, " ");
    assert(parts@.map_values(|p: Vec<char>| p@) == crate::order::views(parts@));
    string_of(&joined)
}

/// `--exclude=` with each excluded pattern.
pub open spec fn exclude_options() -> Seq<Seq<char>> {
    crate::config::exclude_patterns().map_values(|p: Seq<char>| "--exclude="@ + p)
}

fn push_excludes(v: &mut Vec<String>)
    ensures
        strs(final(v)@) == strs(old(v)@) + exclude_options(),
{
    let patterns = crate::config::excludes();
    let mut i: usize = 0;
    while i < patterns.len()
        invariant
            i <= patterns@.len(),
            strs(patterns@) == crate::config::exclude_patterns(),
            strs(v@) == strs(old(v)@) + exclude_options().take(i as int),
        decreases patterns@.len() - i,
    {
        let mut a = chars("--exclude=");
        put(&mut a, patterns[i].as_str());
        push_chars(v, &a);
        i = i + 1;
        assert(exclude_options().take(i as int) =~= exclude_options().take(i - 1).push(
            exclude_options()[i - 1],
        ));
    }
    assert(exclude_options().take(patterns@.len() as int) == exclude_options());
}

/// The options rsync needs on Windows.
pub open spec fn platform_options(windows: bool) -> Seq<Seq<char>> {
    if windows {
        seq!["--no-owner"@, "--no-group"@, "--no-perms"@, "--omit-dir-times"@]
    } else {
        seq![]
    }
}

fn push_platform(v: &mut Vec<String>, windows: bool)
    ensures
        strs(final(v)@) == strs(old(v)@) + platform_options(windows),
{
    let extra = crate::platform::rsync_options(windows);
    append_all(v, &extra);
    assert(strs(extra@) =~= platform_options(windows));
}

/// rsync's arguments for a one-way transfer between the current directory
/// and `remote` on `server` (`pull` from the server, else push to it),
/// optionally as a dry run.
pub open spec fn sync_options(server: crate::store::Server, remote: Seq<char>, pull: bool, dry: bool, windows: bool, ssh: Seq<Seq<char>>) -> Seq<Seq<char>> {
    let target = crate::destination::rsync_destination_of(server.destination_of(), remote);
    seq!["-az"@, "--protect-args"@, "--itemize-changes"@, "-e"@, transport_of(ssh)] + exclude_options()
        + (if dry { seq!["--dry-run"@] } else { seq![] }) + platform_options(windows) + seq!["--"@]
        + if pull { seq![target, "./"@] } else { seq!["./"@, target] }
}

/// The rsync arguments of a transfer; `ssh` holds the ssh options for the
/// server (see `ssh_args`).
pub fn sync_args(server: &crate::store::Server, remote: &str, pull: bool, dry: bool, windows: bool, ssh: &Vec<String>) -> (r: Vec<String>)
    ensures
        strs(r@) == sync_options(*server, remote@, pull, dry, windows, strs(ssh@)),
{
    let mut r: Vec<String> = Vec::new();
    push_owned(&mut r, "-az");
    push_owned(&mut r, "--protect-args");
    push_owned(&mut r, "--itemize-changes");
    push_owned(&mut r, "-e");
    let t = transport(ssh);
    push_chars(&mut r, &chars(t.as_str()));
    let ghost head = strs(r@);
    push_excludes(&mut r);
    let ghost mid = strs(r@);
    if dry {
        push_owned(&mut r, "--dry-run");
    }
    let ghost mid2 = strs(r@);
    push_platform(&mut r, windows);
    push_owned(&mut r, "--");
    let target = crate::destination::rsync_destination(server.destination().as_str(), remote);
    if pull {
        push_chars(&mut r, &chars(target.as_str()));
        push_owned(&mut r, "./");
    } else {
        push_owned(&mut r, "./");
        push_chars(&mut r, &chars(target.as_str()));
    }
    assert(strs(r@) =~= sync_options(*server, remote@, pull, dry, windows, strs(ssh@)));
    r
}

/// rsync's arguments for a local copy of the contents of `source` into
/// `destination`, optionally without replacing existing files.
pub open spec fn copy_options(source: Seq<char>, destination: Seq<char>, missing_only: bool, windows: bool) -> Seq<Seq<char>> {
    seq!["-a"@, "--itemize-changes"@, "--omit-dir-times"@] + exclude_options()
        + (if missing_only { seq!["--ignore-existing"@] } else { seq![] }) + platform_options(windows)
        + seq![
        "--"@,
        crate::platform::local_path_of(source, windows) + "/"@,
        crate::platform::local_path_of(destination, windows),
    ]
}

pub fn copy_args(source: &str, destination: &str, missing_only: bool, windows: bool) -> (r: Vec<String>)
    ensures
        strs(r@) == copy_options(source@, destination@, missing_only, windows),
{
    let mut r: Vec<String> = Vec::new();
    push_owned(&mut r, "-a");
    push_owned(&mut r, "--itemize-changes");
    push_owned(&mut r, "--omit-dir-times");
    push_excludes(&mut r);
    if missing_only {
        push_owned(&mut r, "--ignore-existing");
    }
    push_platform(&mut r, windows);
    push_owned(&mut r, "--");
    let mut from = chars(crate::platform::local_path(source, windows).as_str());
    put(&mut from, "/");
    push_chars(&mut r, &from);
    push_chars(&mut r, &chars(crate::platform::local_path(destination, windows).as_str()));
    assert(strs(r@) =~= copy_options(source@, destination@, missing_only, windows));
    r
}

/// rsync's arguments for a checksum comparison that lists the files of
/// `source` that differ in `destination`: remote through ssh (with the
/// options `ssh`) when given, else local.
pub open spec fn verify_options(source: Seq<char>, destination: Seq<char>, ssh: Option<Seq<Seq<char>>>, windows: bool) -> Seq<Seq<char>> {
    seq!["-rcn"@, "--out-format=%n"@, "--protect-args"@] + exclude_options() + match ssh {
        Some(o) => seq!["-e"@, transport_of(o)],
        None => seq![],
    } + platform_options(windows) + seq![
        "--"@,
        crate::platform::local_path_of(source, windows) + "/"@,
        if ssh is Some {
            destination
        } else {
            crate::platform::local_path_of(destination, windows)
        },
    ]
}

pub fn verify_args(source: &str, destination: &str, ssh: Option<&Vec<String>>, windows: bool) -> (r: Vec<String>)
    ensures
        strs(r@) == verify_options(source@, destination@, match ssh {
            Some(o) => Some(strs(o@)),
            None => None,
        }, windows),
{
    let mut r: Vec<String> = Vec::new();
    push_owned(&mut r, "-rcn");
    push_owned(&mut r, "--out-format=%n");
    push_owned(&mut r, "--protect-args");
    push_excludes(&mut r);
    match ssh {
        Some(o) => {
            push_owned(&mut r, "-e");
            let t = transport(o);
            push_chars(&mut r, &chars(t.as_str()));
        },
        None => {},
    }
    push_platform(&mut r, windows);
    push_owned(&mut r, "--");
    let mut from = chars(crate::platform::local_path(source, windows).as_str());
    put(&mut from, "/");
    push_chars(&mut r, &from);
    if ssh.is_some() {
        push_chars(&mut r, &chars(destination));
    } else {
        push_chars(&mut r, &chars(crate::platform::local_path(destination, windows).as_str()));
    }
    assert(strs(r@) =~= verify_options(source@, destination@, match ssh {
        Some(o) => Some(strs(o@)),
        None => None,
    }, windows));
    r
}

// ---------------------------------------------------------------------------
// Conflict renames on a server
// ---------------------------------------------------------------------------

/// A relative path and each of its parents, longest first (`Path::ancestors`
/// without the empty one), for paths in normal form.
pub open spec fn ancestors(p: Seq<char>) -> Seq<Seq<char>>
    decreases p.len(),
{
    if p.len() == 0 {
        seq![]
    } else {
        match last_index(p, '/') {
            Some(i) => {
                proof {
                    crate::text::lemma_last_index(p, '/');
                }
                seq![p] + ancestors(p.take(i))
            },
            None => seq![p],
        }
    }
}

/// The script's refusal to work through a symbolic link: one test per
/// ancestor.
pub open spec fn link_checks(ancs: Seq<Seq<char>>) -> Seq<char>
    decreases ancs.len(),
{
    if ancs.len() == 0 {
        seq![]
    } else {
        "test ! -L "@ + quoted(ancs[0]) + " || exit 1; "@ + link_checks(ancs.drop_first())
    }
}

/// A path as a server sees it: backslashes become slashes on Windows.
pub open spec fn slashed(p: Seq<char>, windows: bool) -> Seq<char> {
    crate::browser::remote_path_of(p, windows)
}

pub open spec fn rename_text(root: Seq<char>, from: Seq<char>, to: Seq<char>, hash: Seq<char>, windows: bool) -> Seq<char> {
    let f = quoted(slashed(from, windows));
    let t = quoted(slashed(to, windows));
    "set -eu; cd -- "@ + quoted(root) + "; "@ + link_checks(ancestors(slashed(from, windows)))
        + "test -f "@ + f + "; test ! -e "@ + t + "; test ! -L "@ + t + "; actual=$(sha256sum < "@
        + f + "); test \"${actual%% *}\" = "@ + quoted(hash)
        + " || { echo 'File changed during sync; retry after edits finish.' >&2; exit 1; }; mv -nT -- "@
        + f + " "@ + t + "; test ! -e "@ + f + "; test ! -L "@ + f
}

/// The script that applies a conflict rename in the copy at `root` on a
/// server: it refuses symbolic links on the way, a missing or changed
/// source (by its SHA-256 digest) and an existing destination, and never
/// replaces a file.
pub fn remote_rename_script(root: &str, rename: &crate::merge::Rename, windows: bool) -> (r: String)
    ensures
        r@ == rename_text(root@, rename.from@, rename.to@, rename.hash@, windows),
{
    let from_path = crate::browser::remote_path(rename.from.as_str(), windows);
    let to_path = crate::browser::remote_path(rename.to.as_str(), windows);
    let f = quote(from_path.as_str());
    let t = quote(to_path.as_str());
    let mut out: Vec<char> = Vec::new();
    put(&mut out, "set -eu; cd -- ");
    put(&mut out, quote(root).as_str());
    put(&mut out, "; ");
    let ghost head = out@;
    let mut current = chars(from_path.as_str());
    assert(head + link_checks(ancestors(current@)) == head + link_checks(ancestors(slashed(rename.from@, windows))));
    while current.len() > 0
        invariant
            out@ + link_checks(ancestors(current@)) == head + link_checks(ancestors(slashed(rename.from@, windows))),
        decreases current@.len(),
    {
        let ghost before = out@;
        let ghost cur = current@;
        put(&mut out, "test ! -L ");
        put(&mut out, quote(string_of(&current).as_str()).as_str());
        put(&mut out, " || exit 1; ");
        proof {
            crate::text::lemma_last_index(cur, '/');
        }
        match crate::text::rfind_char(&current, '/') {
            Some(i) => {
                assert(ancestors(cur) == seq![cur] + ancestors(cur.take(i as int)));
                current = crate::text::slice(&current, 0, i);
            },
            None => {
                assert(ancestors(cur) == seq![cur]);
                current = Vec::new();
                assert(ancestors(current@) == Seq::<Seq<char>>::empty());
            },
        }
        assert(seq![cur] + ancestors(current@) == ancestors(cur));
        assert((seq![cur] + ancestors(current@)).drop_first() =~= ancestors(current@));
        assert(out@ + link_checks(ancestors(current@)) =~= before + link_checks(ancestors(cur)));
    }
    assert(ancestors(current@) == Seq::<Seq<char>>::empty());
    put(&mut out, "test -f ");
    put(&mut out, f.as_str());
    put(&mut out, "; test ! -e ");
    put(&mut out, t.as_str());
    put(&mut out, "; test ! -L ");
    put(&mut out, t.as_str());
    put(&mut out, "; actual=$(sha256sum < ");
    put(&mut out, f.as_str());
    put(&mut out, "); test \"${actual%% *}\" = ");
    put(&mut out, quote(rename.hash.as_str()).as_str());
    put(
        &mut out,
        " || { echo 'File changed during sync; retry after edits finish.' >&2; exit 1; }; mv -nT -- ",
    );
    put(&mut out, f.as_str());
    put(&mut out, " ");
    put(&mut out, t.as_str());
    put(&mut out, "; test ! -e ");
    put(&mut out, f.as_str());
    put(&mut out, "; test ! -L ");
    put(&mut out, f.as_str());
    assert(out@ =~= rename_text(root@, rename.from@, rename.to@, rename.hash@, windows));
    string_of(&out)
}

// ---------------------------------------------------------------------------
// Reading what commands report
// ---------------------------------------------------------------------------

/// What the host status script printed, as the switch reads it: `Ok(true)`
/// for enabled, `Ok(false)` for disabled.
pub open spec fn ssh_status_of(windows: bool, success: bool, stdout: Seq<u8>) -> Result<bool, Seq<char>> {
    let text = crate::text::trim(crate::jobs::utf8_lossy(stdout));
    if windows {
        Err("Windows hosts connect to Linux servers; incoming SSH setup is Linux-only."@)
    } else if !success {
        Err("Cannot read SSH status. A running systemd or OpenRC service manager is required."@)
    } else if text == "enabled"@ {
        Ok(true)
    } else if text == "disabled"@ {
        Ok(false)
    } else {
        Err("Unexpected SSH service status."@)
    }
}

/// Whether incoming SSH is enabled on this host, from the exit status and
/// output of the host status script. Windows hosts have no incoming SSH.
pub fn host_ssh_status(windows: bool, success: bool, stdout: &[u8]) -> (r: Result<bool, String>)
    ensures
        match r {
            Ok(b) => ssh_status_of(windows, success, stdout@) == Ok::<bool, Seq<char>>(b),
            Err(e) => ssh_status_of(windows, success, stdout@) == Err::<bool, Seq<char>>(e@),
        },
{
    if windows {
        return Err(owned("Windows hosts connect to Linux servers; incoming SSH setup is Linux-only."));
    }
    if !success {
        return Err(owned("Cannot read SSH status. A running systemd or OpenRC service manager is required."));
    }
    let text = crate::text::trim_of(&crate::jobs::decode_lossy(stdout));
    if crate::text::eq_str(&text, "enabled") {
        Ok(true)
    } else if crate::text::eq_str(&text, "disabled") {
        Ok(false)
    } else {
        Err(owned("Unexpected SSH service status."))
    }
}

/// How a finished command reads: stopped by the user, its standard output
/// (decoded lossily) when it succeeded, or a message naming the program,
/// its exit status and the likely reason.
pub open spec fn outcome_of(stopped: bool, success: bool, program: Seq<char>, status: Seq<char>, stdout: Seq<u8>, stderr: Seq<u8>) -> Result<Seq<char>, Seq<char>> {
    if stopped {
        Err("Stopped. Files already transferred remain in place."@)
    } else if success {
        Ok(crate::jobs::utf8_lossy(stdout))
    } else {
        Err(program + " failed ("@ + status + "). "@ + reason_for(
            unicode_lowercase(crate::jobs::utf8_lossy(stderr)),
        ))
    }
}

pub fn command_outcome(stopped: bool, success: bool, program: &str, status: &str, stdout: &[u8], stderr: &[u8]) -> (r: Result<String, String>)
    ensures
        match r {
            Ok(o) => outcome_of(stopped, success, program@, status@, stdout@, stderr@) == Ok::<
                Seq<char>,
                Seq<char>,
            >(o@),
            Err(e) => outcome_of(stopped, success, program@, status@, stdout@, stderr@) == Err::<
                Seq<char>,
                Seq<char>,
            >(e@),
        },
        !stopped && success && vstd::utf8::valid_utf8(stdout@) ==> (r matches Ok(o) && o@
            == vstd::utf8::decode_utf8(stdout@)),
        !stopped && !success && vstd::utf8::valid_utf8(stderr@) && crate::text::all_ascii(
            vstd::utf8::decode_utf8(stderr@),
        ) ==> (r matches Err(e) && e@ == program@ + " failed ("@ + status@ + "). "@ + reason_for(
            crate::text::ascii_lower_seq(vstd::utf8::decode_utf8(stderr@)),
        )),
{
    if stopped {
        return Err(owned("Stopped. Files already transferred remain in place."));
    }
    if success {
        return Ok(string_of(&crate::jobs::decode_lossy(stdout)));
    }
    let errors = string_of(&crate::jobs::decode_lossy(stderr));
    let mut out = chars(program);
    put(&mut out, " failed (");
    put(&mut out, status);
    put(&mut out, "). ");
    put(&mut out, failure_reason(errors.as_str()));
    Err(string_of(&out))
}

/// The most output kept from one stream of a command.
pub const CAPTURE_LIMIT: usize = 2000000;

/// Keeps a chunk read from a command while less than `CAPTURE_LIMIT` bytes
/// are kept.
pub fn capture(captured: &mut Vec<u8>, chunk: &[u8])
    ensures
        final(captured)@ == if old(captured)@.len() < CAPTURE_LIMIT {
            old(captured)@ + chunk@
        } else {
            old(captured)@
        },
{
    if captured.len() < CAPTURE_LIMIT {
        let mut i: usize = 0;
        while i < chunk.len()
            invariant
                old(captured)@.len() < CAPTURE_LIMIT,
                i <= chunk@.len(),
                captured@ == old(captured)@ + chunk@.take(i as int),
            decreases chunk@.len() - i,
        {
            captured.push(chunk[i]);
            i = i + 1;
            assert(chunk@.take(i as int) == chunk@.take(i - 1).push(chunk@[i - 1]));
        }
        assert(chunk@.take(chunk@.len() as int) == chunk@);
    }
}

/// What the activity shows for a line of Tailscale output: the sign-in link
/// and a notice in its place when the line has one, else nothing special.
pub open spec fn tailscale_line_of(bytes: Seq<u8>, label: Seq<char>) -> Option<(Seq<char>, Seq<char>)> {
    match first_login(words(crate::jobs::utf8_lossy(bytes))) {
        Some(url) => Some((url, label + ": sign-in required. Use the sign-in button above.\n"@)),
        None => None,
    }
}

pub fn tailscale_line(bytes: &[u8], label: &str) -> (r: Option<(String, String)>)
    ensures
        match r {
            Some((u, n)) => tailscale_line_of(bytes@, label@) == Some((u@, n@)),
            None => tailscale_line_of(bytes@, label@) is None,
        },
{
    let text = string_of(&crate::jobs::decode_lossy(bytes));
    match login_url(text.as_str()) {
        Some(url) => {
            let mut notice = chars(label);
            put(&mut notice, ": sign-in required. Use the sign-in button above.\n");
            Some((url, string_of(&notice)))
        },
        None => None,
    }
}

/// What a wait for the host password saw in one poll.
pub enum PasswordPoll {
    /// The password was entered.
    Entered(String),
    /// The dialog was cancelled or closed.
    Closed,
    /// Nothing yet.
    Nothing,
}

/// One step of waiting for the host password: `Ok(Some(_))` when it was
/// entered, `Ok(None)` to keep waiting, or why the wait ends. A stop wins;
/// five minutes without an answer end the wait.
pub fn host_password_step(cancelled: bool, poll: PasswordPoll, elapsed_ms: u64) -> (r: Result<Option<String>, String>)
    ensures
        cancelled ==> (r matches Err(e) && e@ == "Stopped."@),
        !cancelled ==> match poll {
            PasswordPoll::Entered(p) => (r matches Ok(Some(q)) && q@ == p@),
            PasswordPoll::Closed => (r matches Err(e) && e@ == "Host authorization cancelled."@),
            PasswordPoll::Nothing => if elapsed_ms > 300000 {
                (r matches Err(e) && e@ == "Host authorization timed out. Retry setup."@)
            } else {
                r matches Ok(None)
            },
        },
{
    if cancelled {
        return Err(owned("Stopped."));
    }
    match poll {
        PasswordPoll::Entered(p) => Ok(Some(p)),
        PasswordPoll::Closed => Err(owned("Host authorization cancelled.")),
        PasswordPoll::Nothing => if elapsed_ms > 300000 {
            Err(owned("Host authorization timed out. Retry setup."))
        } else {
            Ok(None)
        },
    }
}

// ---------------------------------------------------------------------------
// Choosing an address for a server
// ---------------------------------------------------------------------------

/// A sync needs the server's identity confirmed first.
pub fn require_identity(known: bool, sync: bool) -> (r: Result<(), String>)
    ensures
        r is Ok == (known || !sync),
        r matches Err(e) ==> e@ == "Confirm this server's identity first: select the server and use Test connection. Check its fingerprint against the intended server."@,
{
    if !known && sync {
        Err(owned("Confirm this server's identity first: select the server and use Test connection. Check its fingerprint against the intended server."))
    } else {
        Ok(())
    }
}

/// `new` is `old` after adopting the Tailscale address `peer`: when `old`
/// has none, the address is saved, and when `old` is configured by IP
/// address its port carries over; otherwise nothing changes.
pub open spec fn adopted(old: crate::store::Server, new: crate::store::Server, peer: Option<Seq<char>>) -> bool {
    match peer {
        Some(a) if old.network.tailscale_host@.len() == 0 => {
            &&& new.network.tailscale_host@ == a
            &&& new.network.tailscale_port == if crate::ip::ip_value(crate::tailscale::trim_brackets(old.host@)) is Some {
                old.port
            } else {
                old.network.tailscale_port
            }
            &&& new.id == old.id
            &&& new.name == old.name
            &&& new.host == old.host
            &&& new.user == old.user
            &&& new.port == old.port
            &&& new.network.mode == old.network.mode
            &&& new.network.public_host == old.network.public_host
            &&& new.network.public_port == old.network.public_port
        },
        _ => new == old,
    }
}

/// Adopts the Tailscale address of a peer found for a server that has
/// none; see `adopted`.
pub fn adopt_peer(server: &mut crate::store::Server, peer: Option<String>)
    ensures
        adopted(*old(server), *final(server), match peer {
            Some(a) => Some(a@),
            None => None,
        }),
{
    if let Some(address) = peer {
        if crate::text::chars(server.network.tailscale_host.as_str()).len() == 0 {
            let host = crate::tailscale::without_brackets(&chars(server.host.as_str()));
            if crate::ip::parse_ip(&host).is_some() {
                server.network.tailscale_port = server.port;
            }
            server.network.tailscale_host = address;
        }
    }
}

pub open spec fn checking_text(label: Seq<char>) -> Seq<char> {
    "Checking "@ + label + " connection against this server's SSH identity...\n"@
}

/// The activity line before an address is tried.
pub fn checking_message(label: &str) -> (r: String)
    ensures
        r@ == checking_text(label@),
{
    let mut out = chars("Checking ");
    push_str(&mut out, label);
    push_str(&mut out, " connection against this server's SSH identity...\n");
    string_of(&out)
}

/// The activity line once an address is chosen.
pub fn using_message(label: &str) -> (r: String)
    ensures
        r@ == "Using "@ + label@ + "; server identity verified.\n"@,
{
    let mut out = chars("Using ");
    push_str(&mut out, label);
    push_str(&mut out, "; server identity verified.\n");
    string_of(&out)
}

/// What a failed address means: before the identity is saved the job stops
/// (the user chose where to confirm it); afterwards the next address is
/// tried, and this line is shown.
pub fn endpoint_failure(known: bool, label: &str, reason: &str) -> (r: Result<String, String>)
    ensures
        !known ==> (r matches Err(e) && e@ == "Initial server connection failed: "@ + reason@
            + " Select Local only or Remote only to choose where to confirm its fingerprint."@),
        known ==> (r matches Ok(line) && line@ == label@ + ": "@ + reason@ + "\n"@),
{
    if !known {
        let mut out = chars("Initial server connection failed: ");
        push_str(&mut out, reason);
        push_str(&mut out, " Select Local only or Remote only to choose where to confirm its fingerprint.");
        return Err(string_of(&out));
    }
    let mut out = chars(label);
    push_str(&mut out, ": ");
    push_str(&mut out, reason);
    push_str(&mut out, "\n");
    Ok(string_of(&out))
}

/// The port that `${SSH_CONNECTION##* }` printed: a number from 1 to 65535,
/// around whitespace.
pub fn listening_port(text: &str) -> (r: Option<u16>)
    ensures
        match r {
            Some(p) => crate::text::parse_unsigned(crate::text::trim(text@), 65535) == Some(p as nat) && p != 0,
            None => crate::text::parse_unsigned(crate::text::trim(text@), 65535) is None
                || crate::text::parse_unsigned(crate::text::trim(text@), 65535) == Some(0nat),
        },
{
    let t = crate::text::trim_of(&chars(text));
    match crate::text::parse_unsigned_of(&t, 65535) {
        Some(v) => if v == 0 {
            None
        } else {
            Some(v as u16)
        },
        None => None,
    }
}

} // verus!
