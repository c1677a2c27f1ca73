//! The two-line `.codesync` configuration and the rules it must meet.
use vstd::prelude::*;
use crate::destination::{bare_host, bare_host_of, host_parts, host_parts_of};
use crate::ip::{address_char, ipv6_text, is_ipv6, lemma_ipv6_chars};
use crate::text::{
    chars, eq_str, has_char, is_alnum, is_ascii_alnum, is_control, is_control_char, is_prefix,
    join, lemma_split_join, lemma_split_nonempty, owned, slice, split, split_char, starts_with_str, string_of,
    trim_end_char, trim_end_matches,
};

verus! {

/// A user name, host name or SSH alias: non-empty, not starting with `-`,
/// made of ASCII letters, digits, `.`, `_` and `-`.
pub open spec fn simple_name(s: Seq<char>) -> bool {
    &&& s.len() > 0
    &&& s[0] != '-'
    &&& forall|i: int|
        0 <= i < s.len() ==> is_ascii_alnum(#[trigger] s[i]) || s[i] == '.' || s[i] == '_'
            || s[i] == '-'
}

/// The host rule: an optional simple user before the last `@`, then a simple
/// host name or an IPv6 address (bracketed or not).
pub open spec fn valid_host(host: Seq<char>) -> bool {
    let user = host_parts(host).0;
    let h = host_parts(host).1;
    (!host.contains('@') || simple_name(user)) && (simple_name(h) || ipv6_text(bare_host(h)))
}

/// A path component that names a real entry: not empty, `.` or `..`.
pub open spec fn plain_component(p: Seq<char>) -> bool {
    p.len() > 0 && p != "."@ && p != ".."@
}

/// `codesync`, or `codesync/` followed by plain components.
pub open spec fn home_codesync(dir: Seq<char>) -> bool {
    dir == "codesync"@ || (is_prefix("codesync/"@, dir) && {
        let rest = dir.skip("codesync/"@.len() as int);
        rest.len() > 0 && forall|i: int|
            0 <= i < split_char(rest, '/').len() ==> plain_component(
                #[trigger] split_char(rest, '/')[i],
            )
    })
}

/// The directory rule: an absolute path other than `/`, or a `codesync`
/// directory in the home directory, without control characters.
pub open spec fn valid_dir(dir: Seq<char>) -> bool {
    &&& (dir.len() > 0 && dir[0] == '/') || home_codesync(dir)
    &&& trim_end_char(dir, '/').len() > 0
    &&& forall|i: int| 0 <= i < dir.len() ==> !is_control(#[trigger] dir[i])
}

pub open spec fn host_error() -> Seq<char> {
    "Use an IPv4/IPv6 address, hostname, or SSH alias, optionally prefixed with user@. Configure the port separately."@
}

pub open spec fn dir_error() -> Seq<char> {
    "Remote directory must be an absolute path other than /, or codesync (optionally with subfolders) in the server user's home directory."@
}

pub open spec fn lines_error() -> Seq<char> {
    "Invalid .codesync: expected host and directory on separate lines."@
}

/// The outcome of validating a host and a directory.
pub open spec fn validation(host: Seq<char>, dir: Seq<char>) -> Result<(), Seq<char>> {
    if !valid_host(host) {
        Err(host_error())
    } else if !valid_dir(dir) {
        Err(dir_error())
    } else {
        Ok(())
    }
}

pub open spec fn result_view(r: Result<(), String>) -> Result<(), Seq<char>> {
    match r {
        Ok(()) => Ok(()),
        Err(e) => Err(e@),
    }
}

/// A destination: `[user@]host` and the remote directory.
#[derive(Debug)]
pub struct Config {
    pub host: String,
    pub dir: String,
}

pub fn simple(s: &Vec<char>) -> (r: bool)
    ensures
        r == simple_name(s@),
{
    if s.len() == 0 || s[0] == '-' {
        return false;
    }
    let mut i: usize = 0;
    while i < s.len()
        invariant
            i <= s.len(),
            forall|j: int|
                0 <= j < i ==> is_ascii_alnum(#[trigger] s@[j]) || s@[j] == '.' || s@[j] == '_'
                    || s@[j] == '-',
        decreases s.len() - i,
    {
        let c = s[i];
        if !(is_alnum(c) || c == '.' || c == '_' || c == '-') {
            return false;
        }
        i = i + 1;
    }
    true
}

pub fn host_is_valid(host: &Vec<char>) -> (r: bool)
    ensures
        r == valid_host(host@),
{
    let (user, h) = host_parts_of(host);
    let valid_user = !has_char(host, '@') || simple(&user);
    let valid_h = simple(&h) || {
        let b = bare_host_of(&h);
        is_ipv6(&b)
    };
    valid_user && valid_h
}

pub fn home_codesync_dir(dir: &Vec<char>) -> (r: bool)
    ensures
        r == home_codesync(dir@),
{
    if eq_str(dir, "codesync") {
        return true;
    }
    if !starts_with_str(dir, "codesync/") {
        return false;
    }
    let p = chars("codesync/");
    let rest = slice(dir, p.len(), dir.len());
    assert(rest@ == dir@.skip("codesync/"@.len() as int));
    if rest.len() == 0 {
        return false;
    }
    let parts = split(&rest, '/');
    let mut i: usize = 0;
    while i < parts.len()
        invariant
            i <= parts.len(),
            dir@ != "codesync"@,
            is_prefix("codesync/"@, dir@),
            rest@ == dir@.skip("codesync/"@.len() as int),
            rest@.len() > 0,
            parts@.len() == split_char(rest@, '/').len(),
            forall|k: int| 0 <= k < parts@.len() ==> #[trigger] parts@[k]@ == split_char(rest@, '/')[k],
            forall|k: int| 0 <= k < i ==> plain_component(#[trigger] split_char(rest@, '/')[k]),
        decreases parts.len() - i,
    {
        let part = &parts[i];
        assert(part@ == split_char(rest@, '/')[i as int]);
        if part.len() == 0 || eq_str(part, ".") || eq_str(part, "..") {
            assert(!plain_component(split_char(rest@, '/')[i as int]));
            return false;
        }
        i = i + 1;
    }
    true
}

pub fn dir_is_valid(dir: &Vec<char>) -> (r: bool)
    ensures
        r == valid_dir(dir@),
{
    let rooted = (dir.len() > 0 && dir[0] == '/') || home_codesync_dir(dir);
    if !rooted {
        return false;
    }
    let trimmed = trim_end_matches(dir, '/');
    if trimmed.len() == 0 {
        return false;
    }
    let mut i: usize = 0;
    while i < dir.len()
        invariant
            i <= dir.len(),
            forall|j: int| 0 <= j < i ==> !is_control(#[trigger] dir@[j]),
        decreases dir.len() - i,
    {
        if is_control_char(dir[i]) {
            return false;
        }
        i = i + 1;
    }
    true
}

/// Checks a host and a directory; see `Config::validate`.
pub fn validate_parts(host: &str, dir: &str) -> (r: Result<(), String>)
    ensures
        result_view(r) == validation(host@, dir@),
{
    let h = chars(host);
    if !host_is_valid(&h) {
        return Err(owned("Use an IPv4/IPv6 address, hostname, or SSH alias, optionally prefixed with user@. Configure the port separately."));
    }
    let d = chars(dir);
    if !dir_is_valid(&d) {
        return Err(owned("Remote directory must be an absolute path other than /, or codesync (optionally with subfolders) in the server user's home directory."));
    }
    Ok(())
}

impl Config {
    /// Accepts a host that is `[user@]name` (simple names or IPv6) and a
    /// directory that is absolute or under `codesync` in the home directory.
    /// The host error is reported first.
    pub fn validate(&self) -> (r: Result<(), String>)
        ensures
            result_view(r) == validation(self.host@, self.dir@),
    {
        validate_parts(self.host.as_str(), self.dir.as_str())
    }

    /// Reads the two lines of a `.codesync` file: host, then directory.
    pub fn parse(content: &str) -> (r: Result<Config, String>)
        ensures
            lines(content@).len() != 2 ==> (r matches Err(e) && e@ == lines_error()),
            lines(content@).len() == 2 ==> match r {
                Ok(c) => c.host@ == lines(content@)[0] && c.dir@ == lines(content@)[1]
                    && validation(c.host@, c.dir@) is Ok,
                Err(e) => validation(lines(content@)[0], lines(content@)[1]) == Err::<(), Seq<char>>(e@),
            },
    {
        let c = chars(content);
        let ls = lines_of(&c);
        if ls.len() != 2 {
            return Err(owned("Invalid .codesync: expected host and directory on separate lines."));
        }
        let config = Config { host: string_of(&ls[0]), dir: string_of(&ls[1]) };
        match config.validate() {
            Ok(()) => Ok(config),
            Err(e) => Err(e),
        }
    }
}

/// One line without its line ending: a trailing `\r` is removed from lines
/// that ended in `\n`.
pub open spec fn strip_cr(p: Seq<char>) -> Seq<char> {
    if p.len() > 0 && p.last() == '\r' {
        p.drop_last()
    } else {
        p
    }
}

/// `str::lines`: split at `\n` (and `\r\n`); a final line ending is optional
/// and yields no empty last line.
pub open spec fn lines(s: Seq<char>) -> Seq<Seq<char>> {
    let parts = split_char(s, '\n');
    let ended = parts.drop_last().map_values(|p: Seq<char>| strip_cr(p));
    if parts.last().len() > 0 {
        ended.push(parts.last())
    } else {
        ended
    }
}

pub fn lines_of(s: &Vec<char>) -> (r: Vec<Vec<char>>)
    ensures
        r@.len() == lines(s@).len(),
        forall|i: int| 0 <= i < r@.len() ==> #[trigger] r@[i]@ == lines(s@)[i],
{
    let parts = split(s, '\n');
    proof {
        lemma_split_nonempty(s@, '\n');
    }
    let ghost sp = split_char(s@, '\n');
    let mut r: Vec<Vec<char>> = Vec::new();
    let n = parts.len();
    let mut i: usize = 0;
    while i + 1 < n
        invariant
            n == parts@.len() == sp.len() >= 1,
            sp == split_char(s@, '\n'),
            forall|k: int| 0 <= k < parts@.len() ==> #[trigger] parts@[k]@ == sp[k],
            i + 1 <= n,
            r@.len() == i,
            forall|k: int| 0 <= k < i ==> #[trigger] r@[k]@ == strip_cr(sp[k]),
        decreases n - i,
    {
        let p = &parts[i];
        assert(p@ == sp[i as int]);
        let line = if p.len() > 0 && p[p.len() - 1] == '\r' {
            slice(p, 0, p.len() - 1)
        } else {
            slice(p, 0, p.len())
        };
        r.push(line);
        i = i + 1;
    }
    let last = &parts[n - 1];
    assert(last@ == sp.last());
    if last.len() > 0 {
        r.push(slice(last, 0, last.len()));
    }
    proof {
        let ended = sp.drop_last().map_values(|p: Seq<char>| strip_cr(p));
        assert(ended.len() == n - 1);
        assert forall|k: int| 0 <= k < r@.len() implies #[trigger] r@[k]@ == lines(s@)[k] by {
            if k < n - 1 {
                assert(ended[k] == strip_cr(sp[k]));
            }
        }
    }
    r
}


/// Patterns that are never transferred, at any depth.
pub open spec fn exclude_patterns() -> Seq<Seq<char>> {
    seq![".git"@, "target"@, "node_modules"@, ".codesync"@, ".env"@, ".env.*"@, "*.pem"@, "*.key"@]
}

/// The excluded patterns: `.git`, `target`, `node_modules`, `.codesync`,
/// `.env`, `.env.*`, `*.pem`, `*.key`.
pub fn excludes() -> (r: Vec<String>)
    ensures
        r@.map_values(|s: String| s@) == exclude_patterns(),
{
    let mut r: Vec<String> = Vec::new();
    r.push(owned(".git"));
    r.push(owned("target"));
    r.push(owned("node_modules"));
    r.push(owned(".codesync"));
    r.push(owned(".env"));
    r.push(owned(".env.*"));
    r.push(owned("*.pem"));
    r.push(owned("*.key"));
    assert(r@.map_values(|s: String| s@) =~= exclude_patterns());
    r
}

/// Neither a line feed nor a carriage return.
pub open spec fn unbroken(s: Seq<char>) -> bool {
    forall|k: int| 0 <= k < s.len() ==> #[trigger] s[k] != '\n' && s[k] != '\r'
}

proof fn lemma_host_part_unbroken(h: Seq<char>)
    requires
        simple_name(h) || ipv6_text(bare_host(h)),
    ensures
        unbroken(h),
{
    if !simple_name(h) {
        let b = bare_host(h);
        crate::ip::lemma_ipv6_chars(b);
        assert forall|k: int| 0 <= k < h.len() implies #[trigger] h[k] != '\n' && h[k] != '\r' by {
            if h.len() >= 2 && h[0] == '[' && h.last() == ']' {
                if 0 < k < h.len() - 1 {
                    assert(h[k] == b[k - 1]);
                    assert(crate::ip::address_char(b[k - 1]));
                }
            } else {
                assert(crate::ip::address_char(b[k]));
            }
        }
    } else {
        assert forall|k: int| 0 <= k < h.len() implies #[trigger] h[k] != '\n' && h[k] != '\r' by {
            assert(is_ascii_alnum(h[k]) || h[k] == '.' || h[k] == '_' || h[k] == '-');
        }
    }
}

proof fn lemma_valid_host_unbroken(host: Seq<char>)
    requires
        valid_host(host),
    ensures
        unbroken(host),
{
    crate::text::lemma_last_index(host, '@');
    let user = host_parts(host).0;
    let h = host_parts(host).1;
    lemma_host_part_unbroken(h);
    match crate::text::last_index(host, '@') {
        Some(i) => {
            assert(host.contains('@'));
            assert forall|k: int| 0 <= k < host.len() implies #[trigger] host[k] != '\n' && host[k]
                != '\r' by {
                if k < i {
                    assert(host[k] == user[k]);
                    assert(is_ascii_alnum(user[k]) || user[k] == '.' || user[k] == '_' || user[k]
                        == '-');
                } else if k > i {
                    assert(host[k] == h[k - i - 1]);
                }
            }
        },
        None => {
            assert(h == host);
        },
    }
}

/// Joined with `/`, parts without control characters give a text without
/// control characters.
proof fn lemma_join_no_control(parts: Seq<Seq<char>>)
    requires
        forall|i: int, k: int|
            0 <= i < parts.len() && 0 <= k < parts[i].len() ==> !is_control(#[trigger] parts[i][k]),
    ensures
        forall|k: int|
            0 <= k < join(parts, "/"@).len() ==> !is_control(#[trigger] join(parts, "/"@)[k]),
    decreases parts.len(),
{
    reveal_strlit("/");
    if parts.len() == 1 {
        assert forall|k: int| 0 <= k < join(parts, "/"@).len() implies !is_control(
            #[trigger] join(parts, "/"@)[k],
        ) by {
            assert(join(parts, "/"@)[k] == parts[0][k]);
        }
    } else if parts.len() > 1 {
        let init = parts.drop_last();
        assert forall|i: int, k: int|
            0 <= i < init.len() && 0 <= k < init[i].len() implies !is_control(
            #[trigger] init[i][k],
        ) by {
            assert(init[i] == parts[i]);
        }
        lemma_join_no_control(init);
        let a = join(init, "/"@);
        let l = parts.last();
        assert forall|k: int| 0 <= k < join(parts, "/"@).len() implies !is_control(
            #[trigger] join(parts, "/"@)[k],
        ) by {
            let j = join(parts, "/"@);
            assert(j == a + "/"@ + l);
            if k < a.len() {
                assert(j[k] == a[k]);
            } else if k == a.len() {
                assert(j[k] == '/');
            } else {
                assert(j[k] == l[k - a.len() - 1]);
                assert(parts[parts.len() - 1] == l);
            }
        }
    }
}

/// Trimming `c` from the end leaves nothing exactly when every character
/// is `c`.
proof fn lemma_trim_end_empty(s: Seq<char>, c: char)
    ensures
        trim_end_char(s, c).len() == 0 <==> forall|i: int| 0 <= i < s.len() ==> s[i] == c,
    decreases s.len(),
{
    if s.len() > 0 {
        if s.last() == c {
            lemma_trim_end_empty(s.drop_last(), c);
            if forall|i: int| 0 <= i < s.drop_last().len() ==> s.drop_last()[i] == c {
                assert forall|i: int| 0 <= i < s.len() implies s[i] == c by {
                    if i < s.len() - 1 {
                        assert(s[i] == s.drop_last()[i]);
                    }
                }
            }
        } else {
            assert(s[s.len() - 1] != c);
        }
    }
}

/// An accepted host is made only of ASCII letters and digits, `.`, `_`,
/// `-`, `@`, `:`, `[` and `]`, and does not start with `-`: nothing in it can
/// be read as a shell word separator, a quote or an option of ssh.
pub proof fn lemma_host_characters(host: Seq<char>)
    requires
        valid_host(host),
    ensures
        forall|k: int|
            0 <= k < host.len() ==> is_ascii_alnum(#[trigger] host[k]) || host[k] == '.' || host[k]
                == '_' || host[k] == '-' || host[k] == '@' || host[k] == ':' || host[k] == '['
                || host[k] == ']',
        host.len() > 0 ==> host[0] != '-',
{
    let user = host_parts(host).0;
    let h = host_parts(host).1;
    crate::text::lemma_last_index(host, '@');
    let hb = bare_host(h);
    if !simple_name(h) {
        lemma_ipv6_chars(hb);
    }
    // Every character of the host part is allowed, and the first is not `-`.
    assert forall|k: int| 0 <= k < h.len() implies is_ascii_alnum(#[trigger] h[k]) || h[k] == '.'
        || h[k] == '_' || h[k] == '-' || h[k] == ':' || h[k] == '[' || h[k] == ']' by {
        if !simple_name(h) {
            if h.len() >= 2 && h[0] == '[' && h.last() == ']' {
                if 0 < k < h.len() - 1 {
                    assert(h[k] == hb[k - 1]);
                    assert(address_char(hb[k - 1]));
                }
            } else {
                assert(address_char(hb[k]));
            }
        }
    }
    assert(h.len() > 0 ==> h[0] != '-') by {
        if h.len() > 0 && !simple_name(h) {
            if h.len() >= 2 && h[0] == '[' && h.last() == ']' {
            } else {
                assert(address_char(hb[0]));
            }
        }
    }
    match crate::text::last_index(host, '@') {
        Some(i) => {
            assert(user == host.take(i));
            assert(h == host.skip(i + 1));
            assert forall|k: int| 0 <= k < host.len() implies is_ascii_alnum(#[trigger] host[k])
                || host[k] == '.' || host[k] == '_' || host[k] == '-' || host[k] == '@' || host[k]
                == ':' || host[k] == '[' || host[k] == ']' by {
                if k < i {
                    assert(host[k] == user[k]);
                } else if k > i {
                    assert(host[k] == h[k - i - 1]);
                }
            }
            if i > 0 {
                assert(host[0] == user[0]);
            }
        },
        None => {
            assert(h == host);
        },
    }
}

/// The directory rules in brief: a directory holding a control character,
/// or made only of slashes (`/` itself, or nothing), is refused; an absolute
/// path with some character other than `/` and no control character is
/// accepted; a relative path is refused unless it is `codesync` or starts
/// with `codesync/`.
pub proof fn lemma_dir_rules(dir: Seq<char>)
    ensures
        (exists|i: int| 0 <= i < dir.len() && is_control(#[trigger] dir[i])) ==> !valid_dir(dir),
        (forall|i: int| 0 <= i < dir.len() ==> #[trigger] dir[i] == '/') ==> !valid_dir(dir),
        (dir.len() > 0 && dir[0] == '/' && (exists|i: int| 0 <= i < dir.len() && #[trigger] dir[i]
            != '/') && (forall|i: int| 0 <= i < dir.len() ==> !is_control(#[trigger] dir[i])))
            ==> valid_dir(dir),
        (dir.len() > 0 && dir[0] != '/' && dir != "codesync"@ && !(dir.len() >= 9 && dir.take(9)
            == "codesync/"@)) ==> !valid_dir(dir),
{
    reveal_strlit("codesync/");
    lemma_trim_end_empty(dir, '/');
}

/// A `codesync` folder with any number of subfolders in the server user's
/// home directory is accepted: `codesync/` followed by one or more non-empty
/// names, none of them `.` or `..`, separated by `/`, is a valid remote
/// directory when no control character occurs in it, and such a directory
/// with a valid host passes validation.
pub proof fn lemma_codesync_subfolders(host: Seq<char>, parts: Seq<Seq<char>>)
    requires
        parts.len() >= 1,
        forall|i: int|
            0 <= i < parts.len() ==> (#[trigger] parts[i]).len() > 0 && parts[i] != "."@
                && parts[i] != ".."@ && !parts[i].contains('/'),
    ensures
        home_codesync("codesync/"@ + join(parts, "/"@)),
        (forall|i: int, k: int|
            0 <= i < parts.len() && 0 <= k < parts[i].len() ==> !is_control(#[trigger] parts[i][k]))
            ==> valid_dir("codesync/"@ + join(parts, "/"@)),
        (forall|i: int, k: int|
            0 <= i < parts.len() && 0 <= k < parts[i].len() ==> !is_control(#[trigger] parts[i][k]))
            && valid_host(host) ==> validation(host, "codesync/"@ + join(parts, "/"@)) == Ok::<
            (),
            Seq<char>,
        >(()),
{
    reveal_strlit("/");
    reveal_strlit("codesync/");
    let p = "codesync/"@;
    let j = join(parts, "/"@);
    let dir = p + j;
    assert("/"@ =~= seq!['/']);
    lemma_split_join(parts, '/');
    let l = parts.last();
    assert(parts[parts.len() - 1] == l);
    assert(j.len() >= l.len() && j.last() == l.last()) by {
        if parts.len() > 1 {
            assert(j == join(parts.drop_last(), "/"@) + "/"@ + l);
        }
    }
    assert(dir.take(p.len() as int) =~= p);
    assert(dir.skip(p.len() as int) =~= j);
    assert(is_prefix(p, dir));
    assert forall|i: int| 0 <= i < split_char(j, '/').len() implies plain_component(
        #[trigger] split_char(j, '/')[i],
    ) by {
        assert(split_char(j, '/')[i] == parts[i]);
    }
    assert(home_codesync(dir));
    assert(dir.last() == l.last());
    assert(l.contains(l.last()) ==> l.last() != '/') by {
        if l.last() == '/' {
            assert(l[l.len() - 1] == '/');
        }
    }
    assert(l[l.len() - 1] == l.last());
    assert(l.contains(l.last()));
    assert(trim_end_char(dir, '/') == dir);
    if forall|i: int, k: int|
        0 <= i < parts.len() && 0 <= k < parts[i].len() ==> !is_control(#[trigger] parts[i][k]) {
        lemma_join_no_control(parts);
        assert forall|k: int| 0 <= k < dir.len() implies !is_control(#[trigger] dir[k]) by {
            if k < p.len() {
                assert(dir[k] == p[k]);
            } else {
                assert(dir[k] == j[k - p.len()]);
            }
        }
        assert(valid_dir(dir));
    }
}

/// A `codesync/` path with an empty name, `.` or `..` between its slashes is
/// refused: it is not a `codesync` folder in the home directory, not a valid
/// remote directory, and with a valid host it fails validation with the
/// directory message.
pub proof fn lemma_codesync_bad_part(host: Seq<char>, parts: Seq<Seq<char>>, i: int)
    requires
        parts.len() >= 1,
        forall|j: int| 0 <= j < parts.len() ==> !(#[trigger] parts[j]).contains('/'),
        0 <= i < parts.len(),
        parts[i].len() == 0 || parts[i] == "."@ || parts[i] == ".."@,
    ensures
        !home_codesync("codesync/"@ + join(parts, "/"@)),
        !valid_dir("codesync/"@ + join(parts, "/"@)),
        valid_host(host) ==> validation(host, "codesync/"@ + join(parts, "/"@)) == Err::<
            (),
            Seq<char>,
        >(dir_error()),
{
    reveal_strlit("/");
    reveal_strlit("codesync/");
    reveal_strlit("codesync");
    let p = "codesync/"@;
    let j = join(parts, "/"@);
    let dir = p + j;
    assert("/"@ =~= seq!['/']);
    lemma_split_join(parts, '/');
    assert(dir.len() != "codesync"@.len());
    assert(dir.skip(p.len() as int) =~= j);
    assert(!plain_component(split_char(j, '/')[i]));
    assert(dir[0] == 'c');
}

/// The text `init` writes for a destination that passes validation reads
/// back, line for line, as that host and directory: what `parse` is given
/// of `config_text`'s output is exactly the saved destination.
pub proof fn lemma_config_text_roundtrip(host: Seq<char>, dir: Seq<char>)
    requires
        validation(host, dir) is Ok,
    ensures
        lines(host + "\n"@ + dir + "\n"@) == seq![host, dir],
{
    reveal_strlit("\n");
    lemma_valid_host_unbroken(host);
    assert(unbroken(dir)) by {
        assert forall|k: int| 0 <= k < dir.len() implies #[trigger] dir[k] != '\n' && dir[k]
            != '\r' by {
            assert(!is_control(dir[k]));
        }
    }
    let tail = dir + "\n"@;
    let t = host + "\n"@ + dir + "\n"@;
    assert(t == host + seq!['\n'] + tail);
    crate::text::lemma_first_index(t, '\n');
    crate::text::lemma_first_index(tail, '\n');
    assert(t[host.len() as int] == '\n');
    assert(tail[dir.len() as int] == '\n');
    assert(first_index_is(t, host.len() as int)) by {
        match crate::text::first_index(t, '\n') {
            Some(i) => {
                if i < host.len() {
                    assert(t[i] == host[i]);
                }
            },
            None => {
                assert(t.contains('\n'));
            },
        }
    }
    assert(first_index_is(tail, dir.len() as int)) by {
        match crate::text::first_index(tail, '\n') {
            Some(i) => {
                if i < dir.len() {
                    assert(tail[i] == dir[i]);
                }
            },
            None => {
                assert(tail.contains('\n'));
            },
        }
    }
    assert(t.take(host.len() as int) == host);
    assert(t.skip(host.len() as int + 1) == tail);
    assert(tail.take(dir.len() as int) == dir);
    assert(tail.skip(dir.len() as int + 1) == Seq::<char>::empty());
    crate::text::lemma_first_index(Seq::<char>::empty(), '\n');
    assert(split_char(Seq::<char>::empty(), '\n') == seq![Seq::<char>::empty()]);
    assert(split_char(tail, '\n') == seq![dir] + seq![Seq::<char>::empty()]);
    assert(split_char(t, '\n') == seq![host] + split_char(tail, '\n'));
    let parts = split_char(t, '\n');
    assert(parts == seq![host, dir, Seq::<char>::empty()]);
    assert(strip_cr(host) == host) by {
        if host.len() > 0 {
            assert(host.last() == host[host.len() - 1]);
        }
    }
    assert(strip_cr(dir) == dir) by {
        if dir.len() > 0 {
            assert(dir.last() == dir[dir.len() - 1]);
        }
    }
    assert(parts.drop_last().map_values(|p: Seq<char>| strip_cr(p)) == seq![host, dir]);
}

/// `first_index(s, '\n')` is `i`.
pub open spec fn first_index_is(s: Seq<char>, i: int) -> bool {
    crate::text::first_index(s, '\n') == Some(i)
}

} // verus!
