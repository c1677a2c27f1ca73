//! Saved servers, folders and the links between them.
use vstd::prelude::*;
use crate::config::{result_view, validate_parts, validation, Config};
use crate::destination::ssh_destination_of;
use crate::text::{
    chars, decimal, decimal_of, eq_str, ends_with_str, has_char, is_suffix,
    owned, push_all, push_str, slice, split, split_char, string_of, trim,
    trim_end_char, trim_end_matches, trim_of, join_path, path_join, last_index, lemma_last_index,
};

verus! {

// ---------------------------------------------------------------------------
// Remote directories
// ---------------------------------------------------------------------------

/// The components of a Linux path that name entries: the pieces between
/// slashes, without empty pieces and `.` (which `Path::components` drops or
/// reports as the current directory).
pub open spec fn named_pieces(p: Seq<char>) -> Seq<Seq<char>>
    decreases split_char(p, '/').len(),
{
    keep_named(split_char(p, '/'))
}

pub open spec fn keep_named(ps: Seq<Seq<char>>) -> Seq<Seq<char>>
    decreases ps.len(),
{
    if ps.len() == 0 {
        seq![]
    } else if ps.last().len() == 0 || ps.last() == "."@ {
        keep_named(ps.drop_last())
    } else {
        keep_named(ps.drop_last()).push(ps.last())
    }
}

/// `Path::file_name` on a Linux path: the last component, unless the path has
/// none, ends in `..`, or is only a root or `.`.
pub open spec fn file_name_of(p: Seq<char>) -> Option<Seq<char>> {
    let named = named_pieces(p);
    if named.len() == 0 || named.last() == ".."@ {
        None
    } else {
        Some(named.last())
    }
}

/// The last component of a local path; see `file_name_of`.
pub fn file_name(path: &str) -> (r: Option<String>)
    ensures
        match r {
            Some(n) => file_name_of(path@) == Some(n@),
            None => file_name_of(path@) is None,
        },
{
    let p = chars(path);
    let parts = split(&p, '/');
    let ghost ps = split_char(p@, '/');
    let mut last: Option<usize> = None;
    let mut i: usize = 0;
    while i < parts.len()
        invariant
            i <= parts@.len() == ps.len(),
            ps == split_char(p@, '/'),
            forall|k: int| 0 <= k < parts@.len() ==> #[trigger] parts@[k]@ == ps[k],
            match last {
                Some(j) => j < i && keep_named(ps.take(i as int)).len() > 0 && keep_named(
                    ps.take(i as int),
                ).last() == ps[j as int],
                None => keep_named(ps.take(i as int)).len() == 0,
            },
        decreases parts.len() - i,
    {
        proof {
            assert(ps.take(i + 1).drop_last() == ps.take(i as int));
            assert(ps.take(i + 1).last() == parts@[i as int]@);
        }
        if !(parts[i].len() == 0 || eq_str(&parts[i], ".")) {
            last = Some(i);
        }
        i = i + 1;
    }
    assert(ps.take(ps.len() as int) == ps);
    match last {
        None => None,
        Some(j) => {
            if eq_str(&parts[j], "..") {
                None
            } else {
                Some(string_of(&parts[j]))
            }
        },
    }
}

pub open spec fn folder_name_error() -> Seq<char> {
    "Choose a local folder with a valid directory name, or enter an explicit remote path."@
}

/// The remote directory a link uses. Empty input, `codesync` and
/// `~/codesync` mean `codesync/<local folder name>` in the server user's home;
/// an absolute `.../codesync` gets the local folder name appended too. Any
/// other input is used as typed, trimmed of surrounding whitespace.
pub open spec fn remote_directory_of(input: Seq<char>, local: Seq<char>) -> Result<
    Seq<char>,
    Seq<char>,
> {
    let trimmed = trim_end_char(trim(input), '/');
    let base = if (trimmed.len() == 0 && trim(input).len() == 0) || trimmed == "~/codesync"@ {
        "codesync"@
    } else {
        trimmed
    };
    if base == "codesync"@ || (base.len() > 0 && base[0] == '/' && is_suffix("/codesync"@, base)) {
        match file_name_of(local) {
            Some(name) => Ok(base + seq!['/'] + name),
            None => Err(folder_name_error()),
        }
    } else {
        Ok(trim(input))
    }
}

pub open spec fn string_result(r: Result<String, String>) -> Result<Seq<char>, Seq<char>> {
    match r {
        Ok(s) => Ok(s@),
        Err(e) => Err(e@),
    }
}

/// Resolves the remote directory of a link for the local folder `local`; see
/// `remote_directory_of`.
pub fn remote_directory(input: &str, local: &str) -> (r: Result<String, String>)
    ensures
        string_result(r) == remote_directory_of(input@, local@),
{
    let raw = chars(input);
    let t = trim_of(&raw);
    let trimmed = trim_end_matches(&t, '/');
    let base = if (trimmed.len() == 0 && t.len() == 0) || eq_str(&trimmed, "~/codesync") {
        chars("codesync")
    } else {
        trimmed
    };
    proof {
        let tt = trim_end_char(trim(input@), '/');
        assert(t@ == trim(input@));
        assert(base@ == if (tt.len() == 0 && trim(input@).len() == 0) || tt == "~/codesync"@ {
            "codesync"@
        } else {
            tt
        });
    }
    if eq_str(&base, "codesync") || (base.len() > 0 && base[0] == '/' && ends_with_str(
        &base,
        "/codesync",
    )) {
        proof {
            assert(base@ == "codesync"@ || (base@.len() > 0 && base@[0] == '/' && is_suffix(
                "/codesync"@,
                base@,
            )));
        }
        match file_name(local) {
            Some(name) => {
                let ghost b = base@;
                let mut out = base;
                out.push('/');
                push_str(&mut out, name.as_str());
                assert(out@ =~= b + seq!['/'] + name@);
                Ok(string_of(&out))
            },
            None => Err(
                owned(
                    "Choose a local folder with a valid directory name, or enter an explicit remote path.",
                ),
            ),
        }
    } else {
        Ok(string_of(&t))
    }
}

/// Neither end of `s` is whitespace.
pub open spec fn no_ws_ends(s: Seq<char>) -> bool {
    s.len() == 0 || (!crate::text::is_ws(s[0]) && !crate::text::is_ws(s.last()))
}

proof fn lemma_trim_start_skips(t: Seq<char>) -> (k: int)
    ensures
        0 <= k <= t.len(),
        crate::text::trim_start(t) == t.skip(k),
        crate::text::trim_start(t).len() > 0 ==> !crate::text::is_ws(crate::text::trim_start(t)[0]),
    decreases t.len(),
{
    if t.len() > 0 && crate::text::is_ws(t[0]) {
        let j = lemma_trim_start_skips(t.drop_first());
        assert(t.drop_first().skip(j) =~= t.skip(j + 1));
        j + 1
    } else {
        assert(t.skip(0) =~= t);
        0
    }
}

proof fn lemma_trim_end_last(s: Seq<char>)
    ensures
        crate::text::trim_end(s).len() <= s.len(),
        crate::text::trim_end(s) == s.take(crate::text::trim_end(s).len() as int),
        crate::text::trim_end(s).len() > 0 ==> !crate::text::is_ws(crate::text::trim_end(s).last()),
    decreases s.len(),
{
    if s.len() > 0 && crate::text::is_ws(s.last()) {
        lemma_trim_end_last(s.drop_last());
        let t = crate::text::trim_end(s.drop_last());
        assert(s.drop_last().take(t.len() as int) =~= s.take(t.len() as int));
    } else {
        assert(s.take(s.len() as int) =~= s);
    }
}

/// What `trim` gives has no whitespace at either end.
pub proof fn lemma_trim_ends(s: Seq<char>)
    ensures
        no_ws_ends(trim(s)),
{
    lemma_trim_end_last(s);
    let t = crate::text::trim_end(s);
    let k = lemma_trim_start_skips(t);
    let u = trim(s);
    if u.len() > 0 {
        assert(u.last() == t.skip(k).last());
        assert(t.skip(k).last() == t.last());
    }
}

/// Text without whitespace at either end is its own `trim`.
pub proof fn lemma_trim_keeps(s: Seq<char>)
    requires
        no_ws_ends(s),
    ensures
        trim(s) == s,
{
    if s.len() > 0 {
        assert(crate::text::trim_end(s) == s);
        assert(crate::text::trim_start(s) == s);
    }
}

/// `trim` twice is `trim` once.
pub proof fn lemma_trim_twice(s: Seq<char>)
    ensures
        trim(trim(s)) == trim(s),
{
    lemma_trim_ends(s);
    lemma_trim_keeps(trim(s));
}

proof fn lemma_split_pieces_free(s: Seq<char>, c: char)
    ensures
        forall|i: int, j: int|
            0 <= i < split_char(s, c).len() && 0 <= j < split_char(s, c)[i].len() ==> #[trigger] split_char(
                s,
                c,
            )[i][j] != c,
    decreases s.len(),
{
    crate::text::lemma_first_index(s, c);
    match crate::text::first_index(s, c) {
        Some(k) => {
            lemma_split_pieces_free(s.skip(k + 1), c);
            let rest = split_char(s.skip(k + 1), c);
            assert forall|i: int, j: int|
                0 <= i < split_char(s, c).len() && 0 <= j < split_char(s, c)[i].len() implies #[trigger] split_char(
                s,
                c,
            )[i][j] != c by {
                if i == 0 {
                    assert(split_char(s, c)[0] == s.take(k));
                } else {
                    assert(split_char(s, c)[i] == rest[i - 1]);
                }
            }
        },
        None => {
            assert forall|i: int, j: int|
                0 <= i < split_char(s, c).len() && 0 <= j < split_char(s, c)[i].len() implies #[trigger] split_char(
                s,
                c,
            )[i][j] != c by {
                assert(split_char(s, c)[i] == s);
                assert(s.contains(s[j]));
            }
        },
    }
}

proof fn lemma_keep_named_from(ps: Seq<Seq<char>>)
    ensures
        forall|i: int| 0 <= i < keep_named(ps).len() ==> (#[trigger] keep_named(ps)[i]).len() > 0
            && exists|j: int| 0 <= j < ps.len() && ps[j] == keep_named(ps)[i],
    decreases ps.len(),
{
    if ps.len() > 0 {
        lemma_keep_named_from(ps.drop_last());
        let prev = keep_named(ps.drop_last());
        assert forall|i: int| 0 <= i < keep_named(ps).len() implies (#[trigger] keep_named(ps)[i]).len() > 0
            && exists|j: int| 0 <= j < ps.len() && ps[j] == keep_named(ps)[i] by {
            if i < prev.len() {
                assert(keep_named(ps)[i] == prev[i]);
                let j = choose|j: int| 0 <= j < ps.drop_last().len() && ps.drop_last()[j] == prev[i];
                assert(ps[j] == ps.drop_last()[j]);
            } else {
                assert(keep_named(ps)[i] == ps.last());
                assert(ps[ps.len() - 1] == ps.last());
            }
        }
    }
}

/// A file name is a non-empty component without a slash.
pub proof fn lemma_file_name_plain(p: Seq<char>)
    ensures
        file_name_of(p) matches Some(n) ==> n.len() > 0 && forall|k: int| 0 <= k < n.len() ==> n[k] != '/',
{
    if let Some(n) = file_name_of(p) {
        let ps = split_char(p, '/');
        lemma_keep_named_from(ps);
        lemma_split_pieces_free(p, '/');
        let named = keep_named(ps);
        assert(n == named[named.len() - 1]);
        let j = choose|j: int| 0 <= j < ps.len() && ps[j] == named[named.len() - 1];
        assert forall|k: int| 0 <= k < n.len() implies n[k] != '/' by {
            assert(ps[j][k] == n[k]);
        }
    }
}

/// Resolving a remote directory a second time keeps it: what
/// `remote_directory` gives, given again with the same local folder, comes
/// back unchanged, unless the folder is itself named `codesync` or its name
/// ends in whitespace (which `trim` would then remove).
pub proof fn lemma_remote_directory_stable(input: Seq<char>, local: Seq<char>)
    requires
        remote_directory_of(input, local) is Ok,
        file_name_of(local) matches Some(n) ==> n != "codesync"@ && !crate::text::is_ws(n.last()),
    ensures
        remote_directory_of(remote_directory_of(input, local)->Ok_0, local) == remote_directory_of(
            input,
            local,
        ),
{
    let o = remote_directory_of(input, local)->Ok_0;
    let trimmed = trim_end_char(trim(input), '/');
    let base = if (trimmed.len() == 0 && trim(input).len() == 0) || trimmed == "~/codesync"@ {
        "codesync"@
    } else {
        trimmed
    };
    reveal_strlit("codesync");
    reveal_strlit("/codesync");
    reveal_strlit("~/codesync");
    if base == "codesync"@ || (base.len() > 0 && base[0] == '/' && is_suffix("/codesync"@, base)) {
        let n = file_name_of(local)->Some_0;
        lemma_file_name_plain(local);
        assert(o == base + seq!['/'] + n);
        assert(o[0] == base[0]);
        assert(o.last() == n.last());
        assert(no_ws_ends(o));
        lemma_trim_keeps(o);
        assert(trim_end_char(o, '/') == o);
        assert(o != "~/codesync"@) by {
            if o == "~/codesync"@ {
                assert(o[0] == '~');
            }
        }
        assert(o != "codesync"@) by {
            assert(o.len() > 8);
        }
        assert(!(o.len() > 0 && o[0] == '/' && is_suffix("/codesync"@, o))) by {
            if o.len() > 0 && o[0] == '/' && is_suffix("/codesync"@, o) {
                let sfx = "/codesync"@;
                let l = n.len();
                if l >= 9 {
                    assert(o.skip(o.len() - 9)[0] == o[o.len() - 9]);
                    assert(o[o.len() - 9] == n[l - 9]);
                } else {
                    assert(o[o.len() - 1 - l] == '/');
                    assert(o.skip(o.len() - 9)[8 - l] == o[o.len() - 1 - l]);
                    assert(sfx[8 - l] == '/');
                    assert(l == 8);
                    assert(n =~= "codesync"@) by {
                        assert forall|k: int| 0 <= k < 8 implies n[k] == "codesync"@[k] by {
                            assert(o[o.len() - 8 + k] == n[k]);
                            assert(o.skip(o.len() - 9)[1 + k] == o[o.len() - 8 + k]);
                            assert(sfx[1 + k] == "codesync"@[k]);
                        }
                    }
                }
            }
        }
    } else {
        lemma_trim_twice(input);
    }
}

// ---------------------------------------------------------------------------
// Servers
// ---------------------------------------------------------------------------

/// Which addresses a server may be reached at.
#[derive(Clone, Copy, Debug, PartialEq, Eq, Structural)]
pub enum ConnectionMode {
    /// Tailscale, then the local / primary address, then the public one.
    Automatic,
    /// Only the local / primary address.
    LocalOnly,
    /// Tailscale, then the public address; never the local one.
    RemoteOnly,
}

impl Default for ConnectionMode {
    fn default() -> (r: Self)
        ensures
            r == ConnectionMode::Automatic,
    {
        ConnectionMode::Automatic
    }
}

/// Addresses besides the local / primary one.
#[derive(Debug)]
pub struct NetworkSettings {
    pub mode: ConnectionMode,
    pub public_host: String,
    pub public_port: u16,
    pub tailscale_host: String,
    pub tailscale_port: u16,
}

impl Default for NetworkSettings {
    fn default() -> (r: Self)
        ensures
            r.mode == ConnectionMode::Automatic,
            r.public_host@ == Seq::<char>::empty(),
            r.public_port == 22,
            r.tailscale_host@ == Seq::<char>::empty(),
            r.tailscale_port == 22,
    {
        NetworkSettings {
            mode: ConnectionMode::Automatic,
            public_host: String::new(),
            public_port: 22,
            tailscale_host: String::new(),
            tailscale_port: 22,
        }
    }
}

impl Clone for NetworkSettings {
    fn clone(&self) -> (r: Self)
        ensures
            r == *self,
    {
        NetworkSettings {
            mode: self.mode,
            public_host: self.public_host.clone(),
            public_port: self.public_port,
            tailscale_host: self.tailscale_host.clone(),
            tailscale_port: self.tailscale_port,
        }
    }
}

/// A saved SSH server.
#[derive(Debug)]
pub struct Server {
    pub id: u64,
    pub name: String,
    pub host: String,
    pub user: String,
    pub port: u16,
    pub network: NetworkSettings,
}

impl Clone for Server {
    fn clone(&self) -> (r: Self)
        ensures
            r == *self,
    {
        Server {
            id: self.id,
            name: self.name.clone(),
            host: self.host.clone(),
            user: self.user.clone(),
            port: self.port,
            network: self.network.clone(),
        }
    }
}

/// One address to try: host, port and a label.
pub open spec fn endpoint(host: Seq<char>, port: u16, label: Seq<char>) -> (Seq<char>, u16, Seq<char>) {
    (host, port, label)
}

/// `host` with the server's user in front, when there is one.
pub open spec fn with_user(user: Seq<char>, host: Seq<char>) -> Seq<char> {
    if user.len() == 0 {
        host
    } else {
        user + seq!['@'] + host
    }
}

pub open spec fn server_fields_error() -> Seq<char> {
    "Enter a server name, address, and a port between 1 and 65535."@
}

pub open spec fn server_at_error() -> Seq<char> {
    "Enter the IP / hostname and username in their separate fields."@
}

pub open spec fn remote_fields_error() -> Seq<char> {
    "Enter the remote address and port separately."@
}

/// The checks on one optional extra address, after the earlier checks passed.
pub open spec fn extra_address_verdict(user: Seq<char>, host: Seq<char>, port: u16) -> Result<
    (),
    Seq<char>,
> {
    if host.len() == 0 {
        Ok(())
    } else if port == 0 || host.contains('@') {
        Err(remote_fields_error())
    } else {
        validation(with_user(user, host), "/work"@)
    }
}

impl Server {
    /// The SSH identity alias shared by every address of this server.
    pub open spec fn alias(&self) -> Seq<char> {
        "codesync-server-"@ + decimal(self.id as nat)
    }

    /// The addresses to try, in order.
    pub open spec fn endpoint_list(&self) -> Seq<(Seq<char>, u16, Seq<char>)> {
        let n = self.network;
        let tail = if n.mode != ConnectionMode::LocalOnly && n.tailscale_host@.len() > 0 {
            seq![endpoint(n.tailscale_host@, n.tailscale_port, "Tailscale"@)]
        } else {
            seq![]
        };
        let local = if n.mode != ConnectionMode::RemoteOnly {
            seq![endpoint(self.host@, self.port, "Local / primary"@)]
        } else {
            seq![]
        };
        let public = if n.mode != ConnectionMode::LocalOnly && n.public_host@.len() > 0 {
            seq![endpoint(n.public_host@, n.public_port, "Public"@)]
        } else {
            seq![]
        };
        tail + local + public
    }

    /// The SSH destination of the local / primary address.
    pub open spec fn destination_of(&self) -> Seq<char> {
        ssh_destination_of(with_user(self.user@, self.host@))
    }

    /// What `validate` reports.
    pub open spec fn verdict(&self) -> Result<(), Seq<char>> {
        if trim(self.name@).len() == 0 || trim(self.host@).len() == 0 || self.port == 0 {
            Err(server_fields_error())
        } else if self.host@.contains('@') || self.user@.contains('@') {
            Err(server_at_error())
        } else {
            match extra_address_verdict(
                self.user@,
                self.network.public_host@,
                self.network.public_port,
            ) {
                Err(e) => Err(e),
                Ok(()) => match extra_address_verdict(
                    self.user@,
                    self.network.tailscale_host@,
                    self.network.tailscale_port,
                ) {
                    Err(e) => Err(e),
                    Ok(()) => validation(with_user(self.user@, self.host@), "/work"@),
                },
            }
        }
    }

    /// `codesync-server-<id>`.
    pub fn identity_alias(&self) -> (r: String)
        ensures
            r@ == self.alias(),
    {
        let mut out = chars("codesync-server-");
        let d = decimal_of(self.id);
        push_all(&mut out, &d);
        string_of(&out)
    }

    /// The addresses to try, in order: Tailscale (unless local only, and when
    /// set), local / primary (unless remote only), public (unless local only,
    /// and when set).
    pub fn endpoints(&self) -> (r: Vec<(&str, u16, &'static str)>)
        ensures
            r@.map_values(|e: (&str, u16, &str)| (e.0@, e.1, e.2@)) == self.endpoint_list(),
    {
        let mut r: Vec<(&str, u16, &'static str)> = Vec::new();
        let n = &self.network;
        if n.mode != ConnectionMode::LocalOnly && !n.tailscale_host.as_str().is_empty() {
            r.push((n.tailscale_host.as_str(), n.tailscale_port, "Tailscale"));
        }
        if n.mode != ConnectionMode::RemoteOnly {
            r.push((self.host.as_str(), self.port, "Local / primary"));
        }
        if n.mode != ConnectionMode::LocalOnly && !n.public_host.as_str().is_empty() {
            r.push((n.public_host.as_str(), n.public_port, "Public"));
        }
        assert(r@.map_values(|e: (&str, u16, &str)| (e.0@, e.1, e.2@)) =~= self.endpoint_list());
        r
    }

    /// The SSH destination: `user@host`, or `host` without a user.
    pub fn destination(&self) -> (r: String)
        ensures
            r@ == self.destination_of(),
    {
        let d = user_host(&self.user, &self.host);
        crate::destination::ssh_destination(d.as_str())
    }

    /// Checks the server form: a name, an address and a non-zero port; no `@`
    /// in the address or user; each extra address with a port and without
    /// `@`; every address a valid destination.
    pub fn validate(&self) -> (r: Result<(), String>)
        ensures
            result_view(r) == self.verdict(),
    {
        let name = chars(self.name.as_str());
        let host = chars(self.host.as_str());
        let user = chars(self.user.as_str());
        if trim_of(&name).len() == 0 || trim_of(&host).len() == 0 || self.port == 0 {
            return Err(owned("Enter a server name, address, and a port between 1 and 65535."));
        }
        if has_char(&host, '@') || has_char(&user, '@') {
            return Err(owned("Enter the IP / hostname and username in their separate fields."));
        }
        match extra_address(&self.user, &self.network.public_host, self.network.public_port) {
            Err(e) => return Err(e),
            Ok(()) => {},
        }
        match extra_address(&self.user, &self.network.tailscale_host, self.network.tailscale_port) {
            Err(e) => return Err(e),
            Ok(()) => {},
        }
        let d = user_host(&self.user, &self.host);
        validate_parts(d.as_str(), "/work")
    }
}

/// `user@host`, or `host` without a user.
pub fn user_host(user: &String, host: &String) -> (r: String)
    ensures
        r@ == with_user(user@, host@),
{
    if user.as_str().is_empty() {
        host.clone()
    } else {
        let mut out = chars(user.as_str());
        out.push('@');
        push_str(&mut out, host.as_str());
        string_of(&out)
    }
}

fn extra_address(user: &String, host: &String, port: u16) -> (r: Result<(), String>)
    ensures
        result_view(r) == extra_address_verdict(user@, host@, port),
{
    let h = chars(host.as_str());
    if h.len() == 0 {
        return Ok(());
    }
    if port == 0 || has_char(&h, '@') {
        return Err(owned("Enter the remote address and port separately."));
    }
    let d = user_host(user, host);
    validate_parts(d.as_str(), "/work")
}


// ---------------------------------------------------------------------------
// Folders, links and the saved data
// ---------------------------------------------------------------------------

/// A local folder.
#[derive(Debug)]
pub struct Folder {
    pub id: u64,
    pub name: String,
    pub path: String,
}

impl Clone for Folder {
    fn clone(&self) -> (r: Self)
        ensures
            r == *self,
    {
        Folder { id: self.id, name: self.name.clone(), path: self.path.clone() }
    }
}

/// A link from a local folder to a directory on a server.
#[derive(Debug)]
pub struct Link {
    pub id: u64,
    pub folder: u64,
    pub server: u64,
    pub remote: String,
}

impl Clone for Link {
    fn clone(&self) -> (r: Self)
        ensures
            r == *self,
    {
        Link { id: self.id, folder: self.folder, server: self.server, remote: self.remote.clone() }
    }
}

/// A link as plain values.
pub struct LinkView {
    pub id: u64,
    pub folder: u64,
    pub server: u64,
    pub remote: Seq<char>,
}

impl View for Link {
    type V = LinkView;

    open spec fn view(&self) -> LinkView {
        LinkView { id: self.id, folder: self.folder, server: self.server, remote: self.remote@ }
    }
}

pub open spec fn link_views(ls: Seq<Link>) -> Seq<LinkView> {
    ls.map_values(|l: Link| l@)
}

/// Everything the app saves.
#[derive(Debug)]
pub struct Data {
    pub servers: Vec<Server>,
    pub folders: Vec<Folder>,
    pub links: Vec<Link>,
}

impl Default for Data {
    fn default() -> (r: Self)
        ensures
            r.servers@.len() == 0,
            r.folders@.len() == 0,
            r.links@.len() == 0,
    {
        Data { servers: Vec::new(), folders: Vec::new(), links: Vec::new() }
    }
}

impl Clone for Data {
    fn clone(&self) -> (r: Self)
        ensures
            r.servers@ == self.servers@,
            r.folders@ == self.folders@,
            r.links@ == self.links@,
    {
        let mut servers: Vec<Server> = Vec::new();
        let mut i: usize = 0;
        while i < self.servers.len()
            invariant
                i <= self.servers@.len(),
                servers@ == self.servers@.take(i as int),
            decreases self.servers.len() - i,
        {
            servers.push(self.servers[i].clone());
            i = i + 1;
            assert(servers@ =~= self.servers@.take(i as int));
        }
        let mut folders: Vec<Folder> = Vec::new();
        let mut i: usize = 0;
        while i < self.folders.len()
            invariant
                i <= self.folders@.len(),
                folders@ == self.folders@.take(i as int),
            decreases self.folders.len() - i,
        {
            folders.push(self.folders[i].clone());
            i = i + 1;
            assert(folders@ =~= self.folders@.take(i as int));
        }
        let mut links: Vec<Link> = Vec::new();
        let mut i: usize = 0;
        while i < self.links.len()
            invariant
                i <= self.links@.len(),
                links@ == self.links@.take(i as int),
            decreases self.links.len() - i,
        {
            links.push(self.links[i].clone());
            i = i + 1;
            assert(links@ =~= self.links@.take(i as int));
        }
        assert(servers@ =~= self.servers@);
        assert(folders@ =~= self.folders@);
        assert(links@ =~= self.links@);
        Data { servers, folders, links }
    }
}

/// The largest value in a sequence, or 0.
pub open spec fn seq_max(s: Seq<u64>) -> nat
    decreases s.len(),
{
    if s.len() == 0 {
        0
    } else if seq_max(s.drop_last()) >= s.last() {
        seq_max(s.drop_last())
    } else {
        s.last() as nat
    }
}

pub proof fn lemma_seq_max(s: Seq<u64>)
    ensures
        forall|i: int| 0 <= i < s.len() ==> s[i] <= seq_max(s),
        seq_max(s) <= u64::MAX,
        s.len() > 0 ==> exists|i: int| 0 <= i < s.len() && s[i] == seq_max(s),
    decreases s.len(),
{
    if s.len() > 0 {
        lemma_seq_max(s.drop_last());
        assert forall|i: int| 0 <= i < s.len() implies s[i] <= seq_max(s) by {
            if i < s.len() - 1 {
                assert(s[i] == s.drop_last()[i]);
            }
        }
        if seq_max(s.drop_last()) >= s.last() && s.len() > 1 {
            let i = choose|i: int| 0 <= i < s.drop_last().len() && s.drop_last()[i] == seq_max(
                s.drop_last(),
            );
            assert(s[i] == seq_max(s));
        }
        if seq_max(s.drop_last()) >= s.last() && s.len() == 1 {
            assert(s[0] == s.last());
        }
    }
}

/// `max + 1` as the release build computes it: wrapping at 2^64.
pub open spec fn after(m: nat) -> u64 {
    if m + 1 > u64::MAX {
        0
    } else {
        (m + 1) as u64
    }
}

/// A clock reading: microseconds since the Unix epoch, truncated to 64 bits.
#[verifier::external_body]
fn clock_micros() -> u64 {
    std::time::SystemTime::now().duration_since(std::time::UNIX_EPOCH).map_or(0, |d| d.as_micros() as u64)
}

/// The first server, folder or link with the given id.
pub open spec fn server_by_id(ss: Seq<Server>, id: u64) -> Option<Server>
    decreases ss.len(),
{
    if ss.len() == 0 {
        None
    } else if ss[0].id == id {
        Some(ss[0])
    } else {
        server_by_id(ss.drop_first(), id)
    }
}

pub open spec fn folder_by_id(fs: Seq<Folder>, id: u64) -> Option<Folder>
    decreases fs.len(),
{
    if fs.len() == 0 {
        None
    } else if fs[0].id == id {
        Some(fs[0])
    } else {
        folder_by_id(fs.drop_first(), id)
    }
}

pub open spec fn folder_by_path(fs: Seq<Folder>, path: Seq<char>) -> Option<Folder>
    decreases fs.len(),
{
    if fs.len() == 0 {
        None
    } else if fs[0].path@ == path {
        Some(fs[0])
    } else {
        folder_by_path(fs.drop_first(), path)
    }
}

/// The first link between a folder and a server.
pub open spec fn link_by_pair(ls: Seq<LinkView>, folder: u64, server: u64) -> Option<LinkView>
    decreases ls.len(),
{
    if ls.len() == 0 {
        None
    } else if ls[0].folder == folder && ls[0].server == server {
        Some(ls[0])
    } else {
        link_by_pair(ls.drop_first(), folder, server)
    }
}

pub open spec fn choose_folder_error() -> Seq<char> {
    "Choose a local folder."@
}

pub open spec fn choose_server_error() -> Seq<char> {
    "Choose a server."@
}

pub open spec fn duplicate_link_error() -> Seq<char> {
    "This folder is already linked to that server. Edit the existing link."@
}

pub open spec fn destination_taken_error() -> Seq<char> {
    "Another folder already uses this destination on that server."@
}

/// Whether an existing link resolves to the same directory (ignoring
/// trailing slashes).
pub open spec fn same_destination(folders: Seq<Folder>, l: LinkView, remote: Seq<char>) -> bool {
    match folder_by_id(folders, l.folder) {
        Some(f) => match remote_directory_of(l.remote, f.path@) {
            Ok(existing) => trim_end_char(existing, '/') == trim_end_char(remote, '/'),
            Err(_) => false,
        },
        None => false,
    }
}

/// What `Data::validate_link` reports: the folder and server must exist, the
/// resolved directory must be a valid destination, no other link may join the
/// same folder and server, and no other link to that server may use the same
/// directory.
pub open spec fn link_verdict(
    folders: Seq<Folder>,
    servers: Seq<Server>,
    links: Seq<LinkView>,
    link: LinkView,
) -> Result<(), Seq<char>> {
    match folder_by_id(folders, link.folder) {
        None => Err(choose_folder_error()),
        Some(f) => match remote_directory_of(link.remote, f.path@) {
            Err(e) => Err(e),
            Ok(remote) => match server_by_id(servers, link.server) {
                None => Err(choose_server_error()),
                Some(s) => match validation(s.destination_of(), remote) {
                    Err(e) => Err(e),
                    Ok(()) => if exists|i: int|
                        0 <= i < links.len() && #[trigger] links[i].id != link.id
                            && links[i].folder == link.folder && links[i].server == link.server {
                        Err(duplicate_link_error())
                    } else if exists|i: int|
                        0 <= i < links.len() && #[trigger] links[i].id != link.id
                            && links[i].server == link.server && same_destination(
                            folders,
                            links[i],
                            remote,
                        ) {
                        Err(destination_taken_error())
                    } else {
                        Ok(())
                    },
                },
            },
        },
    }
}

/// When a link is accepted, in one statement: its folder and server exist,
/// its remote directory resolves for the folder, the server's destination
/// with that directory is a valid configuration, no other link joins the
/// same folder and server, and no other link to that server resolves to
/// the same directory (trailing slashes aside).
pub proof fn lemma_link_accepted(folders: Seq<Folder>, servers: Seq<Server>, links: Seq<LinkView>, link: LinkView)
    ensures
        (link_verdict(folders, servers, links, link) is Ok) == {
            &&& folder_by_id(folders, link.folder) is Some
            &&& server_by_id(servers, link.server) is Some
            &&& remote_directory_of(link.remote, folder_by_id(folders, link.folder)->Some_0.path@) is Ok
            &&& validation(
                server_by_id(servers, link.server)->Some_0.destination_of(),
                remote_directory_of(link.remote, folder_by_id(folders, link.folder)->Some_0.path@)->Ok_0,
            ) is Ok
            &&& forall|i: int|
                0 <= i < links.len() && #[trigger] links[i].id != link.id ==> !(links[i].folder
                    == link.folder && links[i].server == link.server)
            &&& forall|i: int|
                0 <= i < links.len() && #[trigger] links[i].id != link.id && links[i].server
                    == link.server ==> !same_destination(
                    folders,
                    links[i],
                    remote_directory_of(link.remote, folder_by_id(folders, link.folder)->Some_0.path@)->Ok_0,
                )
        },
{
}

impl Data {
    pub open spec fn ids(&self) -> Seq<u64> {
        self.servers@.map_values(|s: Server| s.id) + self.folders@.map_values(|f: Folder| f.id)
            + self.links@.map_values(|l: Link| l.id)
    }

    /// The largest id in use, or 0.
    pub open spec fn max_id(&self) -> nat {
        seq_max(self.ids())
    }

    /// The least id `next_id` can return: one more than the largest in use.
    pub open spec fn least_next_id(&self) -> u64 {
        after(self.max_id())
    }

    /// The next id when the clock reads `now`.
    pub open spec fn next_id_at(&self, now: u64) -> u64 {
        if self.least_next_id() >= now {
            self.least_next_id()
        } else {
            now
        }
    }

    fn max_id_exec(&self) -> (r: u64)
        ensures
            r == self.max_id(),
    {
        let ghost ids = self.ids();
        let ghost a = self.servers@.map_values(|s: Server| s.id);
        let ghost b = self.folders@.map_values(|f: Folder| f.id);
        let ghost c = self.links@.map_values(|l: Link| l.id);
        let mut m: u64 = 0;
        let mut i: usize = 0;
        while i < self.servers.len()
            invariant
                i <= self.servers@.len(),
                a == self.servers@.map_values(|s: Server| s.id),
                m == seq_max(a.take(i as int)),
            decreases self.servers.len() - i,
        {
            assert(a.take(i + 1).drop_last() == a.take(i as int));
            if self.servers[i].id > m {
                m = self.servers[i].id;
            }
            i = i + 1;
        }
        assert(a.take(a.len() as int) == a);
        let mut i: usize = 0;
        while i < self.folders.len()
            invariant
                i <= self.folders@.len(),
                a == self.servers@.map_values(|s: Server| s.id),
                b == self.folders@.map_values(|f: Folder| f.id),
                m == seq_max(a + b.take(i as int)),
            decreases self.folders.len() - i,
        {
            assert((a + b.take(i + 1)).drop_last() == a + b.take(i as int));
            assert((a + b.take(i + 1)).last() == self.folders@[i as int].id);
            if self.folders[i].id > m {
                m = self.folders[i].id;
            }
            i = i + 1;
        }
        assert(b.take(b.len() as int) == b);
        let mut i: usize = 0;
        while i < self.links.len()
            invariant
                i <= self.links@.len(),
                a == self.servers@.map_values(|s: Server| s.id),
                b == self.folders@.map_values(|f: Folder| f.id),
                c == self.links@.map_values(|l: Link| l.id),
                m == seq_max(a + b + c.take(i as int)),
            decreases self.links.len() - i,
        {
            assert((a + b + c.take(i + 1)).drop_last() == a + b + c.take(i as int));
            assert((a + b + c.take(i + 1)).last() == self.links@[i as int].id);
            if self.links[i].id > m {
                m = self.links[i].id;
            }
            i = i + 1;
        }
        assert(c.take(c.len() as int) == c);
        assert(a + b + c == ids);
        m
    }

    /// The next id when the clock reads `now`: one more than the largest id in
    /// use (wrapping like the release build), or `now` if that is larger.
    pub fn next_id_from(&self, now: u64) -> (r: u64)
        ensures
            r == self.next_id_at(now),
    {
        let m = self.max_id_exec();
        let least = m.wrapping_add(1);
        assert(least == self.least_next_id()) by {
            if m == u64::MAX {
            }
        }
        if least >= now {
            least
        } else {
            now
        }
    }

    /// A new id: above every id in use, or the current time in microseconds
    /// if that is larger, so that a removed server's identity alias is never
    /// reused. Whatever the clock reads, the result is at least
    /// `least_next_id()`, and any such value can come back.
    pub fn next_id(&self) -> (r: u64)
        ensures
            r >= self.least_next_id(),
    {
        let now = clock_micros();
        self.next_id_from(now)
    }
}


pub(crate) fn folder_index(fs: &Vec<Folder>, id: u64) -> (r: Option<usize>)
    ensures
        match r {
            Some(i) => i < fs@.len() && folder_by_id(fs@, id) == Some(fs@[i as int]),
            None => folder_by_id(fs@, id) is None,
        },
{
    let mut i: usize = 0;
    assert(fs@.skip(0) == fs@);
    while i < fs.len()
        invariant
            i <= fs@.len(),
            folder_by_id(fs@, id) == folder_by_id(fs@.skip(i as int), id),
        decreases fs.len() - i,
    {
        assert(fs@.skip(i as int)[0] == fs@[i as int]);
        if fs[i].id == id {
            return Some(i);
        }
        assert(fs@.skip(i as int).drop_first() == fs@.skip(i + 1));
        i = i + 1;
    }
    None
}

pub(crate) fn server_index(ss: &Vec<Server>, id: u64) -> (r: Option<usize>)
    ensures
        match r {
            Some(i) => i < ss@.len() && server_by_id(ss@, id) == Some(ss@[i as int]),
            None => server_by_id(ss@, id) is None,
        },
{
    let mut i: usize = 0;
    assert(ss@.skip(0) == ss@);
    while i < ss.len()
        invariant
            i <= ss@.len(),
            server_by_id(ss@, id) == server_by_id(ss@.skip(i as int), id),
        decreases ss.len() - i,
    {
        assert(ss@.skip(i as int)[0] == ss@[i as int]);
        if ss[i].id == id {
            return Some(i);
        }
        assert(ss@.skip(i as int).drop_first() == ss@.skip(i + 1));
        i = i + 1;
    }
    None
}

fn link_index(ls: &Vec<Link>, folder: u64, server: u64) -> (r: Option<usize>)
    ensures
        match r {
            Some(i) => i < ls@.len() && link_by_pair(link_views(ls@), folder, server) == Some(
                ls@[i as int]@,
            ),
            None => link_by_pair(link_views(ls@), folder, server) is None,
        },
{
    let ghost v = link_views(ls@);
    let mut i: usize = 0;
    assert(v.skip(0) == v);
    while i < ls.len()
        invariant
            i <= ls@.len(),
            v == link_views(ls@),
            link_by_pair(v, folder, server) == link_by_pair(v.skip(i as int), folder, server),
        decreases ls.len() - i,
    {
        assert(v.skip(i as int)[0] == ls@[i as int]@);
        if ls[i].folder == folder && ls[i].server == server {
            return Some(i);
        }
        assert(v.skip(i as int).drop_first() == v.skip(i + 1));
        i = i + 1;
    }
    None
}

fn trimmed_equal(a: &String, b: &String) -> (r: bool)
    ensures
        r == (trim_end_char(a@, '/') == trim_end_char(b@, '/')),
{
    let av = chars(a.as_str());
    let bv = chars(b.as_str());
    let at = trim_end_matches(&av, '/');
    let bt = trim_end_matches(&bv, '/');
    crate::text::eq(&at, &bt)
}

impl Data {
    /// Checks a link against the saved data; see `link_verdict`.
    #[verifier::loop_isolation(false)]
    pub fn validate_link(&self, link: &Link) -> (r: Result<(), String>)
        ensures
            result_view(r) == link_verdict(
                self.folders@,
                self.servers@,
                link_views(self.links@),
                link@,
            ),
    {
        let fi = match folder_index(&self.folders, link.folder) {
            Some(i) => i,
            None => return Err(owned("Choose a local folder.")),
        };
        let remote = match remote_directory(link.remote.as_str(), self.folders[fi].path.as_str()) {
            Ok(r) => r,
            Err(e) => return Err(e),
        };
        let si = match server_index(&self.servers, link.server) {
            Some(i) => i,
            None => return Err(owned("Choose a server.")),
        };
        let d = self.servers[si].destination();
        match validate_parts(d.as_str(), remote.as_str()) {
            Err(e) => return Err(e),
            Ok(()) => {},
        }
        let ghost lv = link_views(self.links@);
        let mut i: usize = 0;
        while i < self.links.len()
            invariant
                i <= self.links@.len(),
                lv == link_views(self.links@),
                forall|k: int|
                    0 <= k < i ==> !(#[trigger] lv[k].id != link.id && lv[k].folder == link.folder
                        && lv[k].server == link.server),
            decreases self.links.len() - i,
        {
            let l = &self.links[i];
            if l.id != link.id && l.folder == link.folder && l.server == link.server {
                assert(lv[i as int].id != link.id);
                return Err(
                    owned("This folder is already linked to that server. Edit the existing link."),
                );
            }
            i = i + 1;
        }
        let mut i: usize = 0;
        while i < self.links.len()
            invariant
                i <= self.links@.len(),
                lv == link_views(self.links@),
                forall|k: int|
                    0 <= k < i ==> !(#[trigger] lv[k].id != link.id && lv[k].server == link.server
                        && same_destination(self.folders@, lv[k], remote@)),
            decreases self.links.len() - i,
        {
            let l = &self.links[i];
            if l.id != link.id && l.server == link.server {
                let same = match folder_index(&self.folders, l.folder) {
                    Some(j) => match remote_directory(l.remote.as_str(), self.folders[j].path.as_str()) {
                        Ok(existing) => trimmed_equal(&existing, &remote),
                        Err(_) => false,
                    },
                    None => false,
                };
                assert(same == same_destination(self.folders@, lv[i as int], remote@));
                if same {
                    assert(lv[i as int].id != link.id);
                    return Err(owned("Another folder already uses this destination on that server."));
                }
            }
            i = i + 1;
        }
        Ok(())
    }
}


// ---------------------------------------------------------------------------
// Sharing selected folders with selected servers
// ---------------------------------------------------------------------------

pub open spec fn select_error() -> Seq<char> {
    "Select at least one folder and one server."@
}

pub open spec fn missing_error() -> Seq<char> {
    "A selected folder or server no longer exists. Select again."@
}

pub open spec fn share_error(folder: Seq<char>, server: Seq<char>, e: Seq<char>) -> Seq<char> {
    "Cannot link "@ + folder + " to "@ + server + ": "@ + e
        + " Open the folder and add a link with a distinct remote directory."@
}

/// The folders whose ids are selected, in saved order.
pub open spec fn picked_folders(fs: Seq<Folder>, set: Set<u64>) -> Seq<Folder>
    decreases fs.len(),
{
    if fs.len() == 0 {
        seq![]
    } else if set.contains(fs.last().id) {
        picked_folders(fs.drop_last(), set).push(fs.last())
    } else {
        picked_folders(fs.drop_last(), set)
    }
}

/// The servers whose ids are selected, in saved order.
pub open spec fn picked_servers(ss: Seq<Server>, set: Set<u64>) -> Seq<Server>
    decreases ss.len(),
{
    if ss.len() == 0 {
        seq![]
    } else if set.contains(ss.last().id) {
        picked_servers(ss.drop_last(), set).push(ss.last())
    } else {
        picked_servers(ss.drop_last(), set)
    }
}

/// A batch in progress: the links created so far and the links of the batch
/// so far (existing or created), in order.
pub type Batch = (Seq<LinkView>, Seq<LinkView>);

/// The pairs of a batch, folders in order and, within each, the servers in
/// order.
pub open spec fn share_order(fs: Seq<Folder>, ss: Seq<Server>) -> Seq<(Folder, Server)>
    decreases fs.len(),
{
    if fs.len() == 0 {
        seq![]
    } else {
        share_order(fs.drop_last(), ss) + ss.map_values(|s: Server| (fs.last(), s))
    }
}

proof fn lemma_link_by_pair_matches(ls: Seq<LinkView>, folder: u64, server: u64)
    ensures
        link_by_pair(ls, folder, server) matches Some(l) ==> l.folder == folder && l.server == server,
    decreases ls.len(),
{
    if ls.len() > 0 {
        lemma_link_by_pair_matches(ls.drop_first(), folder, server);
    }
}

impl Data {
    pub open spec fn fresh_ids(&self, ids: Seq<u64>) -> bool {
        forall|k: int|
            0 <= k < ids.len() ==> #[trigger] ids[k] >= after(seq_max(self.ids() + ids.take(k)))
    }

    /// One folder and one server: the existing link between them, or a new one
    /// to `codesync/<folder name>` with the next id, checked against the saved
    /// links and the ones created so far.
    pub open spec fn share_pair(&self, st: Batch, f: Folder, s: Server, ids: Seq<u64>) -> Result<
        Batch,
        Seq<char>,
    > {
        match link_by_pair(link_views(self.links@), f.id, s.id) {
            Some(l) => Ok((st.0, st.1.push(l))),
            None => match remote_directory_of("codesync"@, f.path@) {
                Err(e) => Err(e),
                Ok(remote) => {
                    let link = LinkView {
                        id: ids[st.0.len() as int],
                        folder: f.id,
                        server: s.id,
                        remote: remote,
                    };
                    match link_verdict(
                        self.folders@,
                        self.servers@,
                        link_views(self.links@) + st.0,
                        link,
                    ) {
                        Err(e) => Err(share_error(f.name@, s.name@, e)),
                        Ok(()) => Ok((st.0.push(link), st.1.push(link))),
                    }
                },
            },
        }
    }

    pub open spec fn share_servers(&self, st: Batch, f: Folder, ss: Seq<Server>, ids: Seq<u64>) -> Result<
        Batch,
        Seq<char>,
    >
        decreases ss.len(),
    {
        if ss.len() == 0 {
            Ok(st)
        } else {
            match self.share_servers(st, f, ss.drop_last(), ids) {
                Err(e) => Err(e),
                Ok(st2) => self.share_pair(st2, f, ss.last(), ids),
            }
        }
    }

    pub open spec fn share_folders(&self, fs: Seq<Folder>, ss: Seq<Server>, ids: Seq<u64>) -> Result<
        Batch,
        Seq<char>,
    >
        decreases fs.len(),
    {
        if fs.len() == 0 {
            Ok((seq![], seq![]))
        } else {
            match self.share_folders(fs.drop_last(), ss, ids) {
                Err(e) => Err(e),
                Ok(st2) => self.share_servers(st2, fs.last(), ss, ids),
            }
        }
    }

    /// The whole batch for the selected folders and servers, when the new
    /// links receive the ids `ids` in order.
    pub open spec fn share_outcome(&self, fset: Set<u64>, sset: Set<u64>, ids: Seq<u64>) -> Result<
        Batch,
        Seq<char>,
    > {
        if fset.is_empty() || sset.is_empty() {
            Err(select_error())
        } else {
            match self.share_folders(
                picked_folders(self.folders@, fset),
                picked_servers(self.servers@, sset),
                ids,
            ) {
                Err(e) => Err(e),
                Ok(st) => if st.1.len() != fset.len() * sset.len() {
                    Err(missing_error())
                } else {
                    Ok(st)
                },
            }
        }
    }

    /// How a link of a batch stands for its folder and server: the existing
    /// link between them, unchanged, or a new one to `codesync/<folder
    /// name>` among the links the batch created.
    pub open spec fn shared_as(&self, p: (Folder, Server), l: LinkView, created: Seq<LinkView>) -> bool {
        &&& l.folder == p.0.id
        &&& l.server == p.1.id
        &&& match link_by_pair(link_views(self.links@), p.0.id, p.1.id) {
            Some(x) => l == x,
            None => remote_directory_of("codesync"@, p.0.path@) == Ok::<Seq<char>, Seq<char>>(l.remote)
                && created.contains(l),
        }
    }

    proof fn lemma_pair_shape(&self, st: Batch, f: Folder, s: Server, ids: Seq<u64>)
        requires
            self.share_pair(st, f, s, ids) is Ok,
        ensures
            ({
                let st2 = self.share_pair(st, f, s, ids)->Ok_0;
                &&& st2.1 == st.1.push(st2.1.last())
                &&& st2.0.len() >= st.0.len()
                &&& st2.0.take(st.0.len() as int) == st.0
                &&& self.shared_as((f, s), st2.1.last(), st2.0)
            }),
    {
        lemma_link_by_pair_matches(link_views(self.links@), f.id, s.id);
        let st2 = self.share_pair(st, f, s, ids)->Ok_0;
        assert(st2.0.take(st.0.len() as int) =~= st.0);
        if link_by_pair(link_views(self.links@), f.id, s.id) is None {
            assert(st2.0.last() == st2.1.last());
            assert(st2.0[st2.0.len() - 1] == st2.0.last());
        }
    }

    proof fn lemma_servers_shape(&self, st: Batch, f: Folder, ss: Seq<Server>, ids: Seq<u64>)
        requires
            self.share_servers(st, f, ss, ids) is Ok,
        ensures
            ({
                let st2 = self.share_servers(st, f, ss, ids)->Ok_0;
                &&& st2.1.len() == st.1.len() + ss.len()
                &&& st2.1.take(st.1.len() as int) == st.1
                &&& st2.0.len() >= st.0.len()
                &&& st2.0.take(st.0.len() as int) == st.0
                &&& forall|j: int| 0 <= j < ss.len() ==> self.shared_as((f, ss[j]), #[trigger] st2.1[st.1.len() + j], st2.0)
            }),
        decreases ss.len(),
    {
        let st2 = self.share_servers(st, f, ss, ids)->Ok_0;
        if ss.len() == 0 {
            assert(st2.1.take(st.1.len() as int) =~= st.1);
            assert(st2.0.take(st.0.len() as int) =~= st.0);
        } else {
            self.lemma_servers_shape(st, f, ss.drop_last(), ids);
            let mid = self.share_servers(st, f, ss.drop_last(), ids)->Ok_0;
            self.lemma_pair_shape(mid, f, ss.last(), ids);
            assert(st2.1.take(st.1.len() as int) =~= st.1) by {
                assert(mid.1.take(st.1.len() as int) == st.1);
            }
            assert(st2.0.take(st.0.len() as int) =~= st.0) by {
                assert(mid.0.take(st.0.len() as int) == st.0);
                assert(st2.0.take(mid.0.len() as int) == mid.0);
            }
            assert forall|j: int| 0 <= j < ss.len() implies self.shared_as((f, ss[j]), #[trigger] st2.1[st.1.len() + j], st2.0) by {
                if j < ss.len() - 1 {
                    assert(st2.1[st.1.len() + j] == mid.1[st.1.len() + j]);
                    assert(ss.drop_last()[j] == ss[j]);
                    let l = mid.1[st.1.len() + j];
                    if link_by_pair(link_views(self.links@), f.id, ss[j].id) is None {
                        let k = choose|k: int| 0 <= k < mid.0.len() && mid.0[k] == l;
                        assert(st2.0[k] == mid.0[k]);
                    }
                } else {
                    assert(st2.1[st.1.len() + j] == st2.1.last());
                }
            }
        }
    }

    /// A batch has one link for each selected folder and server, folders in
    /// saved order and, within each, the servers in saved order; each link is
    /// the existing one for its pair, unchanged, or a new one to
    /// `codesync/<folder name>` that the batch created.
    pub proof fn lemma_share_order(&self, fs: Seq<Folder>, ss: Seq<Server>, ids: Seq<u64>)
        requires
            self.share_folders(fs, ss, ids) is Ok,
        ensures
            ({
                let st = self.share_folders(fs, ss, ids)->Ok_0;
                let order = share_order(fs, ss);
                &&& st.1.len() == order.len()
                &&& forall|i: int| 0 <= i < order.len() ==> self.shared_as(#[trigger] order[i], st.1[i], st.0)
            }),
        decreases fs.len(),
    {
        if fs.len() > 0 {
            self.lemma_share_order(fs.drop_last(), ss, ids);
            let mid = self.share_folders(fs.drop_last(), ss, ids)->Ok_0;
            let st = self.share_folders(fs, ss, ids)->Ok_0;
            self.lemma_servers_shape(mid, fs.last(), ss, ids);
            let prev = share_order(fs.drop_last(), ss);
            let order = share_order(fs, ss);
            assert(order == prev + ss.map_values(|s: Server| (fs.last(), s)));
            assert forall|i: int| 0 <= i < order.len() implies self.shared_as(#[trigger] order[i], st.1[i], st.0) by {
                if i < prev.len() {
                    assert(order[i] == prev[i]);
                    assert(st.1[i] == st.1.take(mid.1.len() as int)[i]);
                    let l = mid.1[i];
                    if link_by_pair(link_views(self.links@), prev[i].0.id, prev[i].1.id) is None {
                        let k = choose|k: int| 0 <= k < mid.0.len() && mid.0[k] == l;
                        assert(st.0[k] == st.0.take(mid.0.len() as int)[k]);
                    }
                } else {
                    let j = i - prev.len();
                    assert(order[i] == (fs.last(), ss[j]));
                    assert(st.1[mid.1.len() + j] == st.1[i]);
                }
            }
        }
    }

    /// The links a batch creates, in order: each gets the next of `ids`, and
    /// each passed `validate_link`'s rule against the saved links and the
    /// ones created before it.
    pub open spec fn created_ok(&self, created: Seq<LinkView>, ids: Seq<u64>) -> bool {
        forall|k: int|
            0 <= k < created.len() ==> (#[trigger] created[k]).id == ids[k] && link_verdict(
                self.folders@,
                self.servers@,
                link_views(self.links@) + created.take(k),
                created[k],
            ) is Ok
    }

    proof fn lemma_servers_created(&self, st: Batch, f: Folder, ss: Seq<Server>, ids: Seq<u64>)
        requires
            self.share_servers(st, f, ss, ids) is Ok,
            self.created_ok(st.0, ids),
        ensures
            self.created_ok(self.share_servers(st, f, ss, ids)->Ok_0.0, ids),
        decreases ss.len(),
    {
        if ss.len() > 0 {
            self.lemma_servers_created(st, f, ss.drop_last(), ids);
            let mid = self.share_servers(st, f, ss.drop_last(), ids)->Ok_0;
            let nx = self.share_pair(mid, f, ss.last(), ids)->Ok_0;
            if nx.0.len() > mid.0.len() {
                assert forall|k: int| 0 <= k < nx.0.len() implies (#[trigger] nx.0[k]).id == ids[k]
                    && link_verdict(
                    self.folders@,
                    self.servers@,
                    link_views(self.links@) + nx.0.take(k),
                    nx.0[k],
                ) is Ok by {
                    if k < mid.0.len() {
                        assert(nx.0[k] == mid.0[k]);
                        assert(nx.0.take(k) =~= mid.0.take(k));
                    } else {
                        assert(nx.0.take(k) =~= mid.0);
                    }
                }
            }
        }
    }

    proof fn lemma_folders_created(&self, fs: Seq<Folder>, ss: Seq<Server>, ids: Seq<u64>)
        requires
            self.share_folders(fs, ss, ids) is Ok,
        ensures
            self.created_ok(self.share_folders(fs, ss, ids)->Ok_0.0, ids),
        decreases fs.len(),
    {
        if fs.len() > 0 {
            self.lemma_folders_created(fs.drop_last(), ss, ids);
            let mid = self.share_folders(fs.drop_last(), ss, ids)->Ok_0;
            self.lemma_servers_created(mid, fs.last(), ss, ids);
        }
    }

    /// What a successful share gives, in one statement (see `share_links`,
    /// whose saved links are the old ones followed by `created`): one link
    /// per selected folder and server, folders then servers in saved order;
    /// each the existing link for its pair, unchanged, or a new one to
    /// `codesync/<folder name>`; the new ones take the ids in order and each
    /// passed `validate_link`'s rule when it was added.
    pub proof fn lemma_share_links_law(&self, fset: Set<u64>, sset: Set<u64>, ids: Seq<u64>)
        requires
            self.share_outcome(fset, sset, ids) is Ok,
        ensures
            ({
                let (created, links) = self.share_outcome(fset, sset, ids)->Ok_0;
                let order = share_order(
                    picked_folders(self.folders@, fset),
                    picked_servers(self.servers@, sset),
                );
                &&& links.len() == order.len()
                &&& forall|i: int| 0 <= i < order.len() ==> self.shared_as(#[trigger] order[i], links[i], created)
                &&& self.created_ok(created, ids)
            }),
    {
        self.lemma_share_outcome_order(fset, sset, ids);
        self.lemma_folders_created(
            picked_folders(self.folders@, fset),
            picked_servers(self.servers@, sset),
            ids,
        );
    }

    /// What a successful share gives (see `share_links`): one link per
    /// selected folder and server, folders then servers in saved order, each
    /// the existing link for its pair or a new one to `codesync/<folder
    /// name>` that the share created.
    pub proof fn lemma_share_outcome_order(&self, fset: Set<u64>, sset: Set<u64>, ids: Seq<u64>)
        requires
            self.share_outcome(fset, sset, ids) is Ok,
        ensures
            ({
                let st = self.share_outcome(fset, sset, ids)->Ok_0;
                let order = share_order(
                    picked_folders(self.folders@, fset),
                    picked_servers(self.servers@, sset),
                );
                &&& st.1.len() == order.len()
                &&& forall|i: int| 0 <= i < order.len() ==> self.shared_as(#[trigger] order[i], st.1[i], st.0)
            }),
    {
        self.lemma_share_order(
            picked_folders(self.folders@, fset),
            picked_servers(self.servers@, sset),
            ids,
        );
    }

    proof fn lemma_pair_stable(&self, st: Batch, f: Folder, s: Server, ids1: Seq<u64>, ids2: Seq<u64>)
        requires
            ids1.len() <= ids2.len(),
            ids2.take(ids1.len() as int) == ids1,
            self.share_pair(st, f, s, ids1) is Ok,
            self.share_pair(st, f, s, ids1)->Ok_0.0.len() <= ids1.len(),
        ensures
            self.share_pair(st, f, s, ids2) == self.share_pair(st, f, s, ids1),
            self.share_pair(st, f, s, ids1)->Ok_0.0.len() >= st.0.len(),
    {
        if link_by_pair(link_views(self.links@), f.id, s.id) is None {
            assert(ids2[st.0.len() as int] == ids1[st.0.len() as int]);
        }
    }

    proof fn lemma_servers_stable(&self, st: Batch, f: Folder, ss: Seq<Server>, ids1: Seq<u64>, ids2: Seq<u64>)
        requires
            ids1.len() <= ids2.len(),
            ids2.take(ids1.len() as int) == ids1,
            self.share_servers(st, f, ss, ids1) is Ok,
            self.share_servers(st, f, ss, ids1)->Ok_0.0.len() <= ids1.len(),
        ensures
            self.share_servers(st, f, ss, ids2) == self.share_servers(st, f, ss, ids1),
            self.share_servers(st, f, ss, ids1)->Ok_0.0.len() >= st.0.len(),
        decreases ss.len(),
    {
        if ss.len() > 0 {
            let st2 = self.share_servers(st, f, ss.drop_last(), ids1)->Ok_0;
            self.lemma_pair_grows(st2, f, ss.last(), ids1);
            self.lemma_servers_stable(st, f, ss.drop_last(), ids1, ids2);
            self.lemma_pair_stable(st2, f, ss.last(), ids1, ids2);
        }
    }

    proof fn lemma_pair_grows(&self, st: Batch, f: Folder, s: Server, ids: Seq<u64>)
        ensures
            self.share_pair(st, f, s, ids) is Ok ==> self.share_pair(st, f, s, ids)->Ok_0.0.len()
                >= st.0.len(),
    {
    }

    proof fn lemma_folders_stable(&self, fs: Seq<Folder>, ss: Seq<Server>, ids1: Seq<u64>, ids2: Seq<u64>)
        requires
            ids1.len() <= ids2.len(),
            ids2.take(ids1.len() as int) == ids1,
            self.share_folders(fs, ss, ids1) is Ok,
            self.share_folders(fs, ss, ids1)->Ok_0.0.len() <= ids1.len(),
        ensures
            self.share_folders(fs, ss, ids2) == self.share_folders(fs, ss, ids1),
        decreases fs.len(),
    {
        if fs.len() > 0 {
            let st2 = self.share_folders(fs.drop_last(), ss, ids1)->Ok_0;
            assert(ids1.take(ids1.len() as int) == ids1);
            self.lemma_servers_stable(st2, fs.last(), ss, ids1, ids1);
            self.lemma_folders_stable(fs.drop_last(), ss, ids1, ids2);
            self.lemma_servers_stable(st2, fs.last(), ss, ids1, ids2);
        }
    }

    proof fn lemma_servers_err(&self, st: Batch, f: Folder, all: Seq<Server>, set: Set<u64>, k: int, ids: Seq<u64>)
        requires
            0 <= k <= all.len(),
            self.share_servers(st, f, picked_servers(all.take(k), set), ids) is Err,
        ensures
            self.share_servers(st, f, picked_servers(all, set), ids) == self.share_servers(
                st,
                f,
                picked_servers(all.take(k), set),
                ids,
            ),
        decreases all.len() - k,
    {
        if k < all.len() {
            let t1 = all.take(k + 1);
            assert(t1.drop_last() == all.take(k));
            let p = picked_servers(all.take(k), set);
            let p1 = picked_servers(t1, set);
            if set.contains(t1.last().id) {
                assert(p1.drop_last() == p);
            } else {
                assert(p1 == p);
            }
            self.lemma_servers_err(st, f, all, set, k + 1, ids);
        } else {
            assert(all.take(k) == all);
        }
    }

    proof fn lemma_folders_err(&self, all: Seq<Folder>, set: Set<u64>, ss: Seq<Server>, k: int, ids: Seq<u64>)
        requires
            0 <= k <= all.len(),
            self.share_folders(picked_folders(all.take(k), set), ss, ids) is Err,
        ensures
            self.share_folders(picked_folders(all, set), ss, ids) == self.share_folders(
                picked_folders(all.take(k), set),
                ss,
                ids,
            ),
        decreases all.len() - k,
    {
        if k < all.len() {
            let t1 = all.take(k + 1);
            assert(t1.drop_last() == all.take(k));
            let p = picked_folders(all.take(k), set);
            let p1 = picked_folders(t1, set);
            if set.contains(t1.last().id) {
                assert(p1.drop_last() == p);
            } else {
                assert(p1 == p);
            }
            self.lemma_folders_err(all, set, ss, k + 1, ids);
        } else {
            assert(all.take(k) == all);
        }
    }
}


impl Data {
    /// Builds the complete batch for Home before saving anything or starting
    /// transfers: for every selected folder and every selected server, in
    /// saved order, the existing link between them or a new link to
    /// `codesync/<folder name>`. Returns the data with the new links added and
    /// the batch. New links get ids from `next_id`; see `share_outcome`.
    #[verifier::rlimit(100)]
    #[verifier::spinoff_prover]
    pub fn share_links(
        &self,
        folders: &std::collections::HashSet<u64>,
        servers: &std::collections::HashSet<u64>,
    ) -> (r: Result<(Data, Vec<Link>), String>)
        ensures
            match r {
                Ok((data, links)) => {
                    &&& data.servers@ == self.servers@
                    &&& data.folders@ == self.folders@
                    &&& data.links@.len() >= self.links@.len()
                    &&& data.links@.take(self.links@.len() as int) == self.links@
                    &&& exists|ids: Seq<u64>|
                        #[trigger] self.fresh_ids(ids) && self.share_outcome(
                            folders@,
                            servers@,
                            ids,
                        ) == Ok::<Batch, Seq<char>>(
                            (
                                link_views(data.links@).skip(self.links@.len() as int),
                                link_views(links@),
                            ),
                        )
                },
                Err(e) => exists|ids: Seq<u64>|
                    #[trigger] self.fresh_ids(ids) && self.share_outcome(folders@, servers@, ids)
                        == Err::<Batch, Seq<char>>(e@),
            },
    {
        broadcast use vstd::std_specs::hash::group_hash_axioms;

        if folders.is_empty() || servers.is_empty() {
            proof {
                assert(self.fresh_ids(seq![]));
            }
            return Err(owned("Select at least one folder and one server."));
        }
        let ghost fset = folders@;
        let ghost sset = servers@;
        let ghost ps = picked_servers(self.servers@, sset);
        let mut data = self.clone();
        let mut links: Vec<Link> = Vec::new();
        let ghost mut ids: Seq<u64> = seq![];
        let ghost mut st: Batch = (seq![], seq![]);
        assert(self.folders@.take(0) == Seq::<Folder>::empty());
        assert(data.links@.take(self.links@.len() as int) == self.links@);
        assert(link_views(data.links@) =~= link_views(self.links@) + st.0);
        assert(data.links@.map_values(|l: Link| l.id) =~= self.links@.map_values(|l: Link| l.id)
            + ids);
        let mut fi: usize = 0;
        while fi < self.folders.len()
            invariant
                fi <= self.folders@.len(),
                fset == folders@,
                sset == servers@,
                ps == picked_servers(self.servers@, sset),
                !fset.is_empty(),
                !sset.is_empty(),
                data.servers@ == self.servers@,
                data.folders@ == self.folders@,
                data.links@.len() == self.links@.len() + ids.len(),
                data.links@.take(self.links@.len() as int) == self.links@,
                link_views(data.links@) == link_views(self.links@) + st.0,
                data.links@.map_values(|l: Link| l.id) == self.links@.map_values(|l: Link| l.id)
                    + ids,
                st.0.len() == ids.len(),
                link_views(links@) == st.1,
                self.fresh_ids(ids),
                self.share_folders(picked_folders(self.folders@.take(fi as int), fset), ps, ids)
                    == Ok::<Batch, Seq<char>>(st),
            decreases self.folders.len() - fi,
        {
            let f = &self.folders[fi];
            proof {
                assert(self.folders@.take(fi + 1).drop_last() == self.folders@.take(fi as int));
                assert(self.folders@.take(fi + 1).last() == *f);
            }
            if !folders.contains(&f.id) {
                assert(picked_folders(self.folders@.take(fi + 1), fset) == picked_folders(
                    self.folders@.take(fi as int),
                    fset,
                ));
                fi = fi + 1;
                continue;
            }
            assert(picked_folders(self.folders@.take(fi + 1), fset) == picked_folders(
                self.folders@.take(fi as int),
                fset,
            ).push(*f));
            assert(picked_folders(self.folders@.take(fi as int), fset).push(*f).drop_last()
                == picked_folders(self.folders@.take(fi as int), fset));
            let ghost st_f = st;
            let ghost ids_f = ids;
            assert(self.servers@.take(0) == Seq::<Server>::empty());
            let mut si: usize = 0;
            while si < self.servers.len()
                invariant
                    si <= self.servers@.len(),
                    fi < self.folders@.len(),
                    *f == self.folders@[fi as int],
                    fset.contains(f.id),
                    picked_folders(self.folders@.take(fi + 1), fset) == picked_folders(
                        self.folders@.take(fi as int),
                        fset,
                    ).push(*f),
                    picked_folders(self.folders@.take(fi as int), fset).push(*f).drop_last()
                        == picked_folders(self.folders@.take(fi as int), fset),
                    self.folders@.take(fi + 1).drop_last() == self.folders@.take(fi as int),
                    self.folders@.take(fi + 1).last() == *f,
                    fset == folders@,
                    sset == servers@,
                    ps == picked_servers(self.servers@, sset),
                    !fset.is_empty(),
                    !sset.is_empty(),
                    data.servers@ == self.servers@,
                    data.folders@ == self.folders@,
                    data.links@.len() == self.links@.len() + ids.len(),
                    data.links@.take(self.links@.len() as int) == self.links@,
                    link_views(data.links@) == link_views(self.links@) + st.0,
                    data.links@.map_values(|l: Link| l.id) == self.links@.map_values(
                        |l: Link| l.id,
                    ) + ids,
                    st.0.len() == ids.len(),
                    st_f.0.len() <= ids.len(),
                    link_views(links@) == st.1,
                    self.fresh_ids(ids),
                    ids.len() >= ids_f.len(),
                    ids.take(ids_f.len() as int) == ids_f,
                    st_f.0.len() == ids_f.len(),
                    self.share_folders(picked_folders(self.folders@.take(fi as int), fset), ps, ids)
                        == Ok::<Batch, Seq<char>>(st_f),
                    self.share_servers(
                        st_f,
                        *f,
                        picked_servers(self.servers@.take(si as int), sset),
                        ids,
                    ) == Ok::<Batch, Seq<char>>(st),
                decreases self.servers.len() - si,
            {
                let s = &self.servers[si];
                let ghost pre = picked_servers(self.servers@.take(si as int), sset);
                proof {
                    assert(self.servers@.take(si + 1).drop_last() == self.servers@.take(si as int));
                    assert(self.servers@.take(si + 1).last() == *s);
                }
                if !servers.contains(&s.id) {
                    si = si + 1;
                    continue;
                }
                assert(picked_servers(self.servers@.take(si + 1), sset) == pre.push(*s));
                assert(pre.push(*s).drop_last() == pre);
                match link_index(&self.links, f.id, s.id) {
                    Some(li) => {
                        let existing = self.links[li].clone();
                        proof {
                            st = (st.0, st.1.push(existing@));
                            assert(link_views(links@.push(existing)) =~= link_views(links@).push(
                                existing@,
                            ));
                        }
                        links.push(existing);
                        si = si + 1;
                        continue;
                    },
                    None => {},
                }
                let id = data.next_id();
                let ghost ids2 = ids.push(id);
                proof {
                    assert(data.ids() =~= self.ids() + ids);
                    assert(ids2.take(ids.len() as int) == ids);
                    assert forall|k: int| 0 <= k < ids2.len() implies #[trigger] ids2[k] >= after(
                        seq_max(self.ids() + ids2.take(k)),
                    ) by {
                        if k < ids.len() {
                            assert(ids2.take(k) == ids.take(k));
                            assert(ids2[k] == ids[k]);
                        } else {
                            assert(ids2.take(k) == ids);
                        }
                    }
                    assert(self.fresh_ids(ids2));
                    self.lemma_folders_stable(
                        picked_folders(self.folders@.take(fi as int), fset),
                        ps,
                        ids,
                        ids2,
                    );
                    self.lemma_servers_stable(st_f, *f, pre, ids, ids2);
                }
                let remote = match remote_directory("codesync", f.path.as_str()) {
                    Ok(x) => x,
                    Err(e) => {
                        proof {
                            self.lemma_servers_err(st_f, *f, self.servers@, sset, si + 1, ids);
                            self.lemma_folders_err(self.folders@, fset, ps, fi + 1, ids);
                        }
                        return Err(e);
                    },
                };
                let link = Link { id: id, folder: f.id, server: s.id, remote: remote };
                match data.validate_link(&link) {
                    Err(e) => {
                        let mut msg = chars("Cannot link ");
                        push_str(&mut msg, f.name.as_str());
                        push_str(&mut msg, " to ");
                        push_str(&mut msg, s.name.as_str());
                        push_str(&mut msg, ": ");
                        push_str(&mut msg, e.as_str());
                        push_str(
                            &mut msg,
                            " Open the folder and add a link with a distinct remote directory.",
                        );
                        proof {
                            assert(msg@ =~= share_error(f.name@, s.name@, e@));
                            self.lemma_servers_err(st_f, *f, self.servers@, sset, si + 1, ids2);
                            self.lemma_folders_err(self.folders@, fset, ps, fi + 1, ids2);
                        }
                        return Err(string_of(&msg));
                    },
                    Ok(()) => {},
                }
                let copy = link.clone();
                proof {
                    let lv = link@;
                    assert(ids2[st.0.len() as int] == id);
                    assert(link_views(data.links@.push(copy)) =~= link_views(data.links@).push(lv));
                    assert(link_views(links@.push(link)) =~= link_views(links@).push(lv));
                    assert(data.links@.push(copy).map_values(|l: Link| l.id) =~= data.links@.map_values(
                        |l: Link| l.id,
                    ).push(id));
                    assert(data.links@.push(copy).take(self.links@.len() as int) =~= data.links@.take(
                        self.links@.len() as int,
                    ));
                    st = (st.0.push(lv), st.1.push(lv));
                    ids = ids2;
                }
                data.links.push(copy);
                links.push(link);
                si = si + 1;
            }
            proof {
                assert(self.servers@.take(self.servers@.len() as int) == self.servers@);
                self.lemma_folders_stable(
                    picked_folders(self.folders@.take(fi as int), fset),
                    ps,
                    ids_f,
                    ids,
                );
            }
            fi = fi + 1;
        }
        proof {
            assert(self.folders@.take(self.folders@.len() as int) == self.folders@);
            assert(link_views(data.links@).skip(self.links@.len() as int) =~= st.0);
        }
        let nf = folders.len() as u128;
        let ns = servers.len() as u128;
        assert(nf * ns <= u128::MAX) by (nonlinear_arith)
            requires
                nf <= u64::MAX,
                ns <= u64::MAX,
        ;
        if (links.len() as u128) != nf * ns {
            return Err(owned("A selected folder or server no longer exists. Select again."));
        }
        Ok((data, links))
    }
}

// ---------------------------------------------------------------------------
// Where profiles are saved
// ---------------------------------------------------------------------------

/// The files that saving profiles writes: the JSON goes to `temp` in
/// `directory` and is then renamed over `target`.
#[derive(Debug)]
pub struct SavePlan {
    pub directory: String,
    pub temp: String,
    pub target: String,
}

/// The configuration base directory: `$XDG_CONFIG_HOME`, else
/// `$HOME/.config`.
pub open spec fn config_base(xdg: Option<Seq<char>>, home: Option<Seq<char>>) -> Option<Seq<char>> {
    match xdg {
        Some(x) => Some(x),
        None => match home {
            Some(h) => Some(path_join(h, ".config"@)),
            None => None,
        },
    }
}

/// The directory of the app's saved data.
pub open spec fn profile_dir(xdg: Option<Seq<char>>, home: Option<Seq<char>>) -> Option<Seq<char>> {
    match config_base(xdg, home) {
        Some(b) => Some(path_join(b, "codesync"@)),
        None => None,
    }
}

/// The message when neither variable is set.
pub open spec fn no_config_dir() -> Seq<char> {
    "Cannot locate your configuration directory."@
}

/// The directory of the app's saved data, from the values of
/// `XDG_CONFIG_HOME` and `HOME`.
pub fn directory(xdg_config_home: Option<String>, home: Option<String>) -> (r: Result<String, String>)
    ensures
        match profile_dir(opt_view(xdg_config_home), opt_view(home)) {
            Some(d) => r matches Ok(p) && p@ == d,
            None => r matches Err(m) && m@ == no_config_dir(),
        },
{
    proof {
        reveal_strlit(".config");
        reveal_strlit("codesync");
    }
    let base = match xdg_config_home {
        Some(x) => x,
        None => match home {
            Some(h) => join_path(h.as_str(), &chars(".config")),
            None => return Err(owned("Cannot locate your configuration directory.")),
        },
    };
    Ok(join_path(base.as_str(), &chars("codesync")))
}

/// An optional string as an optional sequence.
pub open spec fn opt_view(s: Option<String>) -> Option<Seq<char>> {
    match s {
        Some(x) => Some(x@),
        None => None,
    }
}

/// Where `save` writes the profiles of process `pid`: `profiles.json` in the
/// saved-data directory, through the temporary `profiles.<pid>.tmp` beside
/// it, so that a crash never leaves a half-written file.
pub fn save(xdg_config_home: Option<String>, home: Option<String>, pid: u32) -> (r: Result<SavePlan, String>)
    ensures
        match profile_dir(opt_view(xdg_config_home), opt_view(home)) {
            Some(d) => r matches Ok(p) && p.directory@ == d && p.target@ == path_join(
                d,
                "profiles.json"@,
            ) && p.temp@ == path_join(d, "profiles."@ + decimal(pid as nat) + ".tmp"@),
            None => r matches Err(m) && m@ == no_config_dir(),
        },
{
    proof {
        reveal_strlit("profiles.json");
        reveal_strlit("profiles.");
        reveal_strlit(".tmp");
    }
    let dir = match directory(xdg_config_home, home) {
        Ok(d) => d,
        Err(e) => return Err(e),
    };
    let target = join_path(dir.as_str(), &chars("profiles.json"));
    let mut name: Vec<char> = Vec::new();
    push_str(&mut name, "profiles.");
    push_all(&mut name, &decimal_of(pid as u64));
    push_str(&mut name, ".tmp");
    let temp = join_path(dir.as_str(), &name);
    Ok(SavePlan { directory: dir, temp, target })
}

// ---------------------------------------------------------------------------
// Importing a folder
// ---------------------------------------------------------------------------

/// The least id `next_id` can return for these lists.
pub open spec fn least_after(ss: Seq<Server>, fs: Seq<Folder>, ls: Seq<Link>) -> u64 {
    after(
        seq_max(
            ss.map_values(|s: Server| s.id) + fs.map_values(|f: Folder| f.id) + ls.map_values(
                |l: Link| l.id,
            ),
        ),
    )
}

/// The user and host of a `user@host` destination, split at the last `@`;
/// without `@`, the user is empty.
pub open spec fn split_destination(d: Seq<char>) -> (Seq<char>, Seq<char>) {
    match last_index(d, '@') {
        Some(i) => (d.take(i), d.skip(i + 1)),
        None => (seq![], d),
    }
}

/// The first server reached as `user` at `host` on port 22.
pub open spec fn server_by_address(ss: Seq<Server>, user: Seq<char>, host: Seq<char>) -> Option<Server>
    decreases ss.len(),
{
    if ss.len() == 0 {
        None
    } else if ss[0].host@ == host && ss[0].user@ == user && ss[0].port == 22 {
        Some(ss[0])
    } else {
        server_by_address(ss.drop_first(), user, host)
    }
}

/// The server that an imported link uses: the one already saved for that
/// address, else the one just added (the last).
pub open spec fn import_server_id(old: Seq<Server>, new: Seq<Server>, user: Seq<char>, host: Seq<char>) -> u64 {
    match server_by_address(old, user, host) {
        Some(s) => s.id,
        None => new.last().id,
    }
}

/// What importing the folder's configuration did to the servers: nothing
/// when a server for that address exists, else one server appended with a
/// new id, named after the host, on port 22 with default network settings.
pub open spec fn servers_imported(
    old: Seq<Server>,
    new: Seq<Server>,
    fs: Seq<Folder>,
    ls: Seq<Link>,
    user: Seq<char>,
    host: Seq<char>,
) -> bool {
    match server_by_address(old, user, host) {
        Some(_) => new == old,
        None => {
            &&& new.len() == old.len() + 1
            &&& new.take(old.len() as int) == old
            &&& new.last().id >= least_after(old, fs, ls)
            &&& new.last().name@ == host
            &&& new.last().host@ == host
            &&& new.last().user@ == user
            &&& new.last().port == 22
            &&& new.last().network.mode == ConnectionMode::Automatic
            &&& new.last().network.public_host@.len() == 0
            &&& new.last().network.public_port == 22
            &&& new.last().network.tailscale_host@.len() == 0
            &&& new.last().network.tailscale_port == 22
        },
    }
}

/// The link an import proposes, with id `id`.
pub open spec fn import_link(id: u64, folder: u64, server: u64, remote: Seq<char>) -> LinkView {
    LinkView { id, folder, server, remote }
}

/// What importing did to the links: the proposed link was added when it
/// passes `link_verdict` against the saved data, and nothing changed when it
/// does not.
pub open spec fn links_imported(
    old: Seq<Link>,
    new: Seq<Link>,
    fs: Seq<Folder>,
    ss: Seq<Server>,
    folder: u64,
    server: u64,
    remote: Seq<char>,
) -> bool {
    ||| {
        &&& new.len() == old.len() + 1
        &&& new.take(old.len() as int) == old
        &&& new.last()@ == import_link(new.last().id, folder, server, remote)
        &&& new.last().id >= least_after(ss, fs, old)
        &&& link_verdict(fs, ss, link_views(old), new.last()@) is Ok
    }
    ||| {
        &&& new == old
        &&& exists|id: u64|
            id >= least_after(ss, fs, old) && (#[trigger] link_verdict(
                fs,
                ss,
                link_views(old),
                import_link(id, folder, server, remote),
            )) is Err
    }
}

fn folder_path_index(fs: &Vec<Folder>, path: &String) -> (r: Option<usize>)
    ensures
        match r {
            Some(i) => i < fs@.len() && folder_by_path(fs@, path@) == Some(fs@[i as int]),
            None => folder_by_path(fs@, path@) is None,
        },
{
    let want = chars(path.as_str());
    let mut i: usize = 0;
    assert(fs@.skip(0) == fs@);
    while i < fs.len()
        invariant
            i <= fs@.len(),
            want@ == path@,
            folder_by_path(fs@, path@) == folder_by_path(fs@.skip(i as int), path@),
        decreases fs.len() - i,
    {
        assert(fs@.skip(i as int)[0] == fs@[i as int]);
        if crate::text::eq(&chars(fs[i].path.as_str()), &want) {
            return Some(i);
        }
        assert(fs@.skip(i as int).drop_first() == fs@.skip(i + 1));
        i = i + 1;
    }
    None
}

fn server_address_index(ss: &Vec<Server>, user: &Vec<char>, host: &Vec<char>) -> (r: Option<usize>)
    ensures
        match r {
            Some(i) => i < ss@.len() && server_by_address(ss@, user@, host@) == Some(ss@[i as int]),
            None => server_by_address(ss@, user@, host@) is None,
        },
{
    let mut i: usize = 0;
    assert(ss@.skip(0) == ss@);
    while i < ss.len()
        invariant
            i <= ss@.len(),
            server_by_address(ss@, user@, host@) == server_by_address(ss@.skip(i as int), user@, host@),
        decreases ss.len() - i,
    {
        assert(ss@.skip(i as int)[0] == ss@[i as int]);
        if crate::text::eq(&chars(ss[i].host.as_str()), host) && crate::text::eq(
            &chars(ss[i].user.as_str()),
            user,
        ) && ss[i].port == 22 {
            return Some(i);
        }
        assert(ss@.skip(i as int).drop_first() == ss@.skip(i + 1));
        i = i + 1;
    }
    None
}

fn split_destination_exec(d: &String) -> (r: (Vec<char>, Vec<char>))
    ensures
        (r.0@, r.1@) == split_destination(d@),
{
    let cs = chars(d.as_str());
    match crate::text::rfind_char(&cs, '@') {
        Some(i) => {
            proof {
                lemma_last_index(cs@, '@');
            }
            (slice(&cs, 0, i), slice(&cs, i + 1, cs.len()))
        },
        None => (Vec::new(), cs),
    }
}

impl Data {
    proof fn lemma_least(&self)
        ensures
            self.least_next_id() == least_after(self.servers@, self.folders@, self.links@),
    {
    }

    /// Adds a folder found on disk, unless a folder with that path is saved
    /// already (its id is then returned). `config` is the folder's
    /// `.codesync` file, when it could be read: its server is reused when one
    /// with that user and host on port 22 is saved, else added, and the link
    /// is added when `validate_link` accepts it. Returns the folder's id.
    pub fn import_folder(&mut self, name: String, path: String, config: Option<Config>) -> (r: u64)
        ensures
            match folder_by_path(old(self).folders@, path@) {
                Some(f) => {
                    &&& r == f.id
                    &&& final(self).servers@ == old(self).servers@
                    &&& final(self).folders@ == old(self).folders@
                    &&& final(self).links@ == old(self).links@
                },
                None => {
                    &&& r >= old(self).least_next_id()
                    &&& final(self).folders@.len() == old(self).folders@.len() + 1
                    &&& final(self).folders@.take(old(self).folders@.len() as int) == old(self).folders@
                    &&& final(self).folders@.last().id == r
                    &&& final(self).folders@.last().name@ == name@
                    &&& final(self).folders@.last().path@ == path@
                    &&& match config {
                        None => {
                            &&& final(self).servers@ == old(self).servers@
                            &&& final(self).links@ == old(self).links@
                        },
                        Some(c) => {
                            let (user, host) = split_destination(c.host@);
                            &&& servers_imported(
                                old(self).servers@,
                                final(self).servers@,
                                final(self).folders@,
                                old(self).links@,
                                user,
                                host,
                            )
                            &&& links_imported(
                                old(self).links@,
                                final(self).links@,
                                final(self).folders@,
                                final(self).servers@,
                                r,
                                import_server_id(old(self).servers@, final(self).servers@, user, host),
                                c.dir@,
                            )
                        },
                    }
                },
            },
    {
        if let Some(i) = folder_path_index(&self.folders, &path) {
            return self.folders[i].id;
        }
        proof {
            self.lemma_least();
        }
        let folder = self.next_id();
        let ghost servers0 = self.servers@;
        let ghost links0 = self.links@;
        let ghost folders0 = self.folders@;
        self.folders.push(Folder { id: folder, name, path });
        assert(self.folders@.take(folders0.len() as int) =~= folders0);
        if let Some(config) = config {
            let (user, host) = split_destination_exec(&config.host);
            let server = match server_address_index(&self.servers, &user, &host) {
                Some(i) => self.servers[i].id,
                None => {
                    proof {
                        self.lemma_least();
                    }
                    let id = self.next_id();
                    self.servers.push(
                        Server {
                            id,
                            name: string_of(&host),
                            host: string_of(&host),
                            user: string_of(&user),
                            port: 22,
                            network: NetworkSettings::default(),
                        },
                    );
                    assert(self.servers@.take(servers0.len() as int) =~= servers0);
                    id
                },
            };
            proof {
                self.lemma_least();
            }
            let link = Link { id: self.next_id(), folder, server, remote: config.dir };
            let verdict = self.validate_link(&link);
            if verdict.is_ok() {
                self.links.push(link);
                assert(self.links@.take(links0.len() as int) =~= links0);
            } else {
                assert(link_verdict(
                    self.folders@,
                    self.servers@,
                    link_views(links0),
                    import_link(link.id, folder, server, link.remote@),
                ) is Err);
            }
        }
        folder
    }
}

impl Data {
    /// An id from `next_id` is larger than every id in use, whatever the
    /// clock reads, as long as the largest id is below 2^64 - 1 (there the
    /// release build wraps).
    pub proof fn lemma_next_id_fresh(&self, now: u64)
        requires
            self.max_id() < u64::MAX,
        ensures
            forall|i: int| 0 <= i < self.ids().len() ==> #[trigger] self.ids()[i] < self.next_id_at(now),
    {
        lemma_seq_max(self.ids());
    }
}

// ---------------------------------------------------------------------------
// Sharing twice
// ---------------------------------------------------------------------------

proof fn lemma_pair_concat(a: Seq<LinkView>, b: Seq<LinkView>, folder: u64, server: u64)
    ensures
        link_by_pair(a + b, folder, server) == match link_by_pair(a, folder, server) {
            Some(l) => Some(l),
            None => link_by_pair(b, folder, server),
        },
    decreases a.len(),
{
    if a.len() > 0 {
        assert((a + b).drop_first() == a.drop_first() + b);
        assert((a + b)[0] == a[0]);
        lemma_pair_concat(a.drop_first(), b, folder, server);
    } else {
        assert(a + b == b);
    }
}

proof fn lemma_pair_absent(a: Seq<LinkView>, folder: u64, server: u64)
    ensures
        link_by_pair(a, folder, server) is None <==> forall|i: int|
            0 <= i < a.len() ==> !((#[trigger] a[i]).folder == folder && a[i].server == server),
    decreases a.len(),
{
    if a.len() > 0 {
        lemma_pair_absent(a.drop_first(), folder, server);
        assert forall|i: int| 0 < i < a.len() implies #[trigger] a[i] == a.drop_first()[i - 1] by {}
        if link_by_pair(a, folder, server) is None {
            assert forall|i: int| 0 <= i < a.len() implies !((#[trigger] a[i]).folder == folder
                && a[i].server == server) by {
                if i > 0 {
                    assert(a[i] == a.drop_first()[i - 1]);
                }
            }
        }
        if forall|i: int|
            0 <= i < a.len() ==> !((#[trigger] a[i]).folder == folder && a[i].server == server) {
            assert forall|i: int| 0 <= i < a.drop_first().len() implies !((
            #[trigger] a.drop_first()[i]).folder == folder && a.drop_first()[i].server == server) by {
                assert(a.drop_first()[i] == a[i + 1]);
            }
        }
    }
}

/// The ids a batch may give new links: all different, and none of a saved
/// link.
pub open spec fn distinct_new_ids(ids: Seq<u64>, links: Seq<LinkView>) -> bool {
    &&& forall|j: int, k: int| 0 <= j < k < ids.len() ==> #[trigger] ids[j] != #[trigger] ids[k]
    &&& forall|k: int, i: int|
        0 <= k < ids.len() && 0 <= i < links.len() ==> #[trigger] ids[k] != #[trigger] links[i].id
}

/// The links created so far got the first ids, in order.
pub open spec fn numbered(c: Seq<LinkView>, ids: Seq<u64>) -> bool {
    forall|j: int| 0 <= j < c.len() ==> (#[trigger] c[j]).id == ids[j]
}

impl Data {
    proof fn lemma_pair_again(
        &self,
        again: &Data,
        st: Batch,
        f: Folder,
        s: Server,
        ids: Seq<u64>,
        ids2: Seq<u64>,
        all: Seq<LinkView>,
    )
        requires
            self.share_pair(st, f, s, ids) is Ok,
            distinct_new_ids(ids, link_views(self.links@)),
            numbered(st.0, ids),
            ({
                let c1 = self.share_pair(st, f, s, ids)->Ok_0.0;
                c1.len() <= all.len() && all.take(c1.len() as int) == c1 && all.len() <= ids.len()
            }),
            link_views(again.links@) == link_views(self.links@) + all,
        ensures
            ({
                let r = self.share_pair(st, f, s, ids)->Ok_0;
                &&& again.share_pair((seq![], st.1), f, s, ids2) == Ok::<Batch, Seq<char>>(
                    (seq![], r.1),
                )
                &&& r.0.len() >= st.0.len()
                &&& r.0.take(st.0.len() as int) == st.0
                &&& numbered(r.0, ids)
            }),
    {
        let saved = link_views(self.links@);
        lemma_pair_concat(saved, all, f.id, s.id);
        match link_by_pair(saved, f.id, s.id) {
            Some(l) => {
                assert(st.0.take(st.0.len() as int) == st.0);
            },
            None => {
                let remote = remote_directory_of("codesync"@, f.path@)->Ok_0;
                let k = st.0.len() as int;
                let link = LinkView { id: ids[k], folder: f.id, server: s.id, remote: remote };
                let links = saved + st.0;
                assert(link_verdict(self.folders@, self.servers@, links, link) is Ok);
                assert forall|i: int| 0 <= i < links.len() implies #[trigger] links[i].id != link.id by {
                    if i < saved.len() {
                        assert(links[i] == saved[i]);
                    } else {
                        assert(links[i] == st.0[i - saved.len()]);
                        assert(st.0[i - saved.len()].id == ids[i - saved.len()]);
                    }
                }
                assert(forall|i: int|
                    0 <= i < links.len() ==> !((#[trigger] links[i]).folder == link.folder
                        && links[i].server == link.server));
                lemma_pair_absent(links, f.id, s.id);
                let c1 = st.0.push(link);
                assert(all.take(c1.len() as int) == c1);
                assert(all == st.0 + (seq![link] + all.skip(c1.len() as int))) by {
                    assert(all =~= all.take(c1.len() as int) + all.skip(c1.len() as int));
                }
                assert(saved + all == links + (seq![link] + all.skip(c1.len() as int)));
                lemma_pair_concat(links, seq![link] + all.skip(c1.len() as int), f.id, s.id);
                assert(c1.take(st.0.len() as int) == st.0);
            },
        }
    }

    proof fn lemma_servers_again(
        &self,
        again: &Data,
        st: Batch,
        f: Folder,
        ss: Seq<Server>,
        ids: Seq<u64>,
        ids2: Seq<u64>,
        all: Seq<LinkView>,
    )
        requires
            self.share_servers(st, f, ss, ids) is Ok,
            distinct_new_ids(ids, link_views(self.links@)),
            numbered(st.0, ids),
            ({
                let c1 = self.share_servers(st, f, ss, ids)->Ok_0.0;
                c1.len() <= all.len() && all.take(c1.len() as int) == c1 && all.len() <= ids.len()
            }),
            link_views(again.links@) == link_views(self.links@) + all,
        ensures
            ({
                let r = self.share_servers(st, f, ss, ids)->Ok_0;
                &&& again.share_servers((seq![], st.1), f, ss, ids2) == Ok::<Batch, Seq<char>>(
                    (seq![], r.1),
                )
                &&& r.0.len() >= st.0.len()
                &&& r.0.take(st.0.len() as int) == st.0
                &&& numbered(r.0, ids)
            }),
        decreases ss.len(),
    {
        if ss.len() > 0 {
            let st2 = self.share_servers(st, f, ss.drop_last(), ids)->Ok_0;
            let r = self.share_pair(st2, f, ss.last(), ids)->Ok_0;
            self.lemma_pair_grows(st2, f, ss.last(), ids);
            assert(r.0.take(st2.0.len() as int) == st2.0) by {
                if link_by_pair(link_views(self.links@), f.id, ss.last().id) is None {
                    assert(r.0 == st2.0.push(r.0.last()));
                }
            }
            assert(all.take(st2.0.len() as int) == st2.0) by {
                assert(all.take(r.0.len() as int).take(st2.0.len() as int) == all.take(
                    st2.0.len() as int,
                ));
            }
            self.lemma_servers_again(again, st, f, ss.drop_last(), ids, ids2, all);
            self.lemma_pair_again(again, st2, f, ss.last(), ids, ids2, all);
            assert(r.0.take(st.0.len() as int) == st.0) by {
                assert(r.0.take(st2.0.len() as int).take(st.0.len() as int) == r.0.take(
                    st.0.len() as int,
                ));
            }
        } else {
            assert(st.0.take(st.0.len() as int) == st.0);
        }
    }

    proof fn lemma_folders_again(
        &self,
        again: &Data,
        fs: Seq<Folder>,
        ss: Seq<Server>,
        ids: Seq<u64>,
        ids2: Seq<u64>,
        all: Seq<LinkView>,
    )
        requires
            self.share_folders(fs, ss, ids) is Ok,
            distinct_new_ids(ids, link_views(self.links@)),
            ({
                let c1 = self.share_folders(fs, ss, ids)->Ok_0.0;
                c1.len() <= all.len() && all.take(c1.len() as int) == c1 && all.len() <= ids.len()
            }),
            link_views(again.links@) == link_views(self.links@) + all,
        ensures
            ({
                let r = self.share_folders(fs, ss, ids)->Ok_0;
                &&& again.share_folders(fs, ss, ids2) == Ok::<Batch, Seq<char>>((seq![], r.1))
                &&& numbered(r.0, ids)
            }),
        decreases fs.len(),
    {
        if fs.len() > 0 {
            let st2 = self.share_folders(fs.drop_last(), ss, ids)->Ok_0;
            let r = self.share_servers(st2, fs.last(), ss, ids)->Ok_0;
            self.lemma_servers_grow(st2, fs.last(), ss, ids);
            assert(all.take(st2.0.len() as int) == st2.0) by {
                assert(all.take(r.0.len() as int).take(st2.0.len() as int) == all.take(
                    st2.0.len() as int,
                ));
            }
            self.lemma_folders_again(again, fs.drop_last(), ss, ids, ids2, all);
            self.lemma_servers_again(again, st2, fs.last(), ss, ids, ids2, all);
        }
    }

    proof fn lemma_servers_grow(&self, st: Batch, f: Folder, ss: Seq<Server>, ids: Seq<u64>)
        requires
            self.share_servers(st, f, ss, ids) is Ok,
        ensures
            ({
                let r = self.share_servers(st, f, ss, ids)->Ok_0;
                r.0.len() >= st.0.len() && r.0.take(st.0.len() as int) == st.0
            }),
        decreases ss.len(),
    {
        if ss.len() > 0 {
            let st2 = self.share_servers(st, f, ss.drop_last(), ids)->Ok_0;
            self.lemma_servers_grow(st, f, ss.drop_last(), ids);
            let r = self.share_pair(st2, f, ss.last(), ids)->Ok_0;
            assert(r.0.take(st2.0.len() as int) == st2.0) by {
                if link_by_pair(link_views(self.links@), f.id, ss.last().id) is None {
                    assert(r.0 == st2.0.push(r.0.last()));
                }
            }
            assert(r.0.take(st2.0.len() as int).take(st.0.len() as int) == r.0.take(
                st.0.len() as int,
            ));
        } else {
            assert(st.0.take(st.0.len() as int) == st.0);
        }
    }

    /// Sharing the same selection again with the links a share created adds
    /// no link and gives the same batch: every pair now has its link. This
    /// holds when the new links received different ids, none of a saved link
    /// (as `next_id` gives while ids stay below 2^64 - 1).
    pub proof fn lemma_share_again_adds_nothing(
        &self,
        again: &Data,
        fset: Set<u64>,
        sset: Set<u64>,
        ids: Seq<u64>,
        ids2: Seq<u64>,
    )
        requires
            self.share_outcome(fset, sset, ids) is Ok,
            self.share_outcome(fset, sset, ids)->Ok_0.0.len() <= ids.len(),
            distinct_new_ids(ids, link_views(self.links@)),
            again.servers@ == self.servers@,
            again.folders@ == self.folders@,
            link_views(again.links@) == link_views(self.links@) + self.share_outcome(
                fset,
                sset,
                ids,
            )->Ok_0.0,
        ensures
            again.share_outcome(fset, sset, ids2) == Ok::<Batch, Seq<char>>(
                (seq![], self.share_outcome(fset, sset, ids)->Ok_0.1),
            ),
    {
        let fs = picked_folders(self.folders@, fset);
        let ss = picked_servers(self.servers@, sset);
        let all = self.share_outcome(fset, sset, ids)->Ok_0.0;
        assert(all.take(all.len() as int) == all);
        self.lemma_folders_again(again, fs, ss, ids, ids2, all);
    }
}

} // verus!
