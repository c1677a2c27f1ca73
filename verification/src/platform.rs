//! Host-side paths and names. Remote paths always use Linux syntax.
use vstd::prelude::*;
use crate::shell::{quote, quoted};
use crate::text::{
    ascii_lower, chars, eq, eq_str, is_ascii_alpha, is_control, is_control_char, is_prefix,
    is_suffix, ends_with_str, owned, push_all, push_str, slice, split, split_char,
    starts_with_str, string_of, to_ascii_lower, to_uppercase, unicode_uppercase,
};

verus! {

// ---------------------------------------------------------------------------
// Windows paths for Cygwin tools
// ---------------------------------------------------------------------------

/// `\\?\UNC\`
pub open spec fn unc_prefix() -> Seq<char> {
    seq!['\\', '\\', '?', '\\', 'U', 'N', 'C', '\\']
}

/// `\\?\`
pub open spec fn verbatim_prefix() -> Seq<char> {
    seq!['\\', '\\', '?', '\\']
}

pub open spec fn slash_for_backslash(c: char) -> char {
    if c == '\\' {
        '/'
    } else {
        c
    }
}

/// A Windows path as Cygwin tools spell it: verbatim prefixes removed (a
/// verbatim UNC path becomes `\\server\...`), backslashes turned into
/// slashes, and a drive `X:/` turned into `/cygdrive/x/`.
pub open spec fn windows_path_of(p: Seq<char>) -> Seq<char> {
    let p1 = if is_prefix(unc_prefix(), p) {
        seq!['\\', '\\'] + p.skip(unc_prefix().len() as int)
    } else if is_prefix(verbatim_prefix(), p) {
        p.skip(verbatim_prefix().len() as int)
    } else {
        p
    };
    let p2 = p1.map_values(|c: char| slash_for_backslash(c));
    if p2.len() >= 3 && is_ascii_alpha(p2[0]) && p2[1] == ':' && p2[2] == '/' {
        "/cygdrive/"@ + seq![ascii_lower(p2[0])] + seq!['/'] + p2.skip(3)
    } else {
        p2
    }
}

/// A local path as the transfer tools take it: unchanged on Linux, in
/// Cygwin syntax on Windows.
pub open spec fn local_path_of(p: Seq<char>, windows: bool) -> Seq<char> {
    if windows {
        windows_path_of(p)
    } else {
        p
    }
}

/// Translates a Windows path into Cygwin syntax; see `windows_path_of`.
pub fn windows_path(path: &str) -> (r: String)
    ensures
        r@ == windows_path_of(path@),
{
    let p = chars(path);
    let unc = chars("\\\\?\\UNC\\");
    let verbatim = chars("\\\\?\\");
    assert(unc@ =~= unc_prefix()) by {
        reveal_strlit("\\\\?\\UNC\\");
    }
    assert(verbatim@ =~= verbatim_prefix()) by {
        reveal_strlit("\\\\?\\");
    }
    let p1 = if starts_with_str(&p, "\\\\?\\UNC\\") {
        let mut q: Vec<char> = Vec::new();
        q.push('\\');
        q.push('\\');
        let rest = slice(&p, unc.len(), p.len());
        push_all(&mut q, &rest);
        q
    } else if starts_with_str(&p, "\\\\?\\") {
        slice(&p, verbatim.len(), p.len())
    } else {
        slice(&p, 0, p.len())
    };
    let mut p2: Vec<char> = Vec::new();
    let mut i: usize = 0;
    while i < p1.len()
        invariant
            i <= p1.len(),
            p2@ == p1@.take(i as int).map_values(|c: char| slash_for_backslash(c)),
        decreases p1.len() - i,
    {
        let c = p1[i];
        p2.push(if c == '\\' { '/' } else { c });
        proof {
            assert(p1@.take(i + 1) == p1@.take(i as int).push(c));
            assert(p1@.take(i + 1).map_values(|c: char| slash_for_backslash(c)) =~= p1@.take(
                i as int,
            ).map_values(|c: char| slash_for_backslash(c)).push(slash_for_backslash(c)));
        }
        i = i + 1;
    }
    assert(p1@.take(p1.len() as int) == p1@);
    let c0 = if p2.len() >= 3 { p2[0] } else { ' ' };
    if p2.len() >= 3 && (('A' <= c0 && c0 <= 'Z') || ('a' <= c0 && c0 <= 'z')) && p2[1] == ':'
        && p2[2] == '/' {
        let mut out = chars("/cygdrive/");
        out.push(to_ascii_lower(c0));
        out.push('/');
        let rest = slice(&p2, 3, p2.len());
        push_all(&mut out, &rest);
        string_of(&out)
    } else {
        string_of(&p2)
    }
}

/// A local path for the transfer tools; `windows` says whether this host
/// runs Windows.
pub fn local_path(path: &str, windows: bool) -> (r: String)
    ensures
        r@ == local_path_of(path@, windows),
{
    if windows {
        windows_path(path)
    } else {
        owned(path)
    }
}

/// The extra rsync options that Windows hosts need.
pub fn rsync_options(windows: bool) -> (r: Vec<String>)
    ensures
        windows ==> r@.len() == 4 && r@[0]@ == "--no-owner"@ && r@[1]@ == "--no-group"@ && r@[2]@
            == "--no-perms"@ && r@[3]@ == "--omit-dir-times"@,
        !windows ==> r@.len() == 0,
{
    let mut r: Vec<String> = Vec::new();
    if windows {
        r.push(owned("--no-owner"));
        r.push(owned("--no-group"));
        r.push(owned("--no-perms"));
        r.push(owned("--omit-dir-times"));
    }
    r
}

// ---------------------------------------------------------------------------
// Names that Windows cannot hold
// ---------------------------------------------------------------------------

/// `format!("{:?}", s)` for a string: quoted and escaped.
pub uninterp spec fn debug_text(s: Seq<char>) -> Seq<char>;

/// Formats a string with `{:?}`. The escaping rules of `str`'s `Debug` are not
/// restated; the result is named `debug_text`.
#[verifier::external_body]
pub(crate) fn debug_quoted(s: &Vec<char>) -> (r: Vec<char>)
    ensures
        r@ == debug_text(s@),
{
    let text: String = s.iter().collect();
    format!("{:?}", text).chars().collect()
}

/// `str::trim_start_matches` with a non-empty string pattern.
pub open spec fn trim_start_seq(s: Seq<char>, p: Seq<char>) -> Seq<char>
    decreases s.len(),
{
    if p.len() > 0 && is_prefix(p, s) {
        trim_start_seq(s.skip(p.len() as int), p)
    } else {
        s
    }
}

/// Characters that Windows file names cannot hold.
pub open spec fn forbidden_char(c: char) -> bool {
    is_control(c) || c == '<' || c == '>' || c == ':' || c == '"' || c == '\\' || c == '|' || c
        == '?' || c == '*' || c == '\u{fffd}'
}

/// Reserved device stems: CON, PRN, AUX, NUL, CONIN$, CONOUT$, and COM or LPT
/// followed by one of 1-9, superscript 1, 2 or 3.
pub open spec fn device_stem(stem: Seq<char>) -> bool {
    stem == "CON"@ || stem == "PRN"@ || stem == "AUX"@ || stem == "NUL"@ || stem == "CONIN$"@
        || stem == "CONOUT$"@ || ((is_prefix("COM"@, stem) || is_prefix("LPT"@, stem)) && {
        let n = stem.skip(3);
        n.len() == 1 && (('1' <= n[0] && n[0] <= '9') || n[0] == '\u{b9}' || n[0] == '\u{b2}'
            || n[0] == '\u{b3}')
    })
}

/// A path component that Windows cannot represent faithfully.
pub open spec fn bad_component(c: Seq<char>) -> bool {
    let stem = unicode_uppercase(split_char(c, '.')[0]);
    c.len() == 0 || c == "."@ || c == ".."@ || (c.len() > 0 && (c.last() == '.' || c.last()
        == ' ')) || device_stem(stem) || exists|i: int|
        0 <= i < c.len() && forbidden_char(#[trigger] c[i])
}

pub open spec fn name_error(path: Seq<char>) -> Seq<char> {
    "Linux path "@ + debug_text(path)
        + " cannot be safely represented on Windows. Rename it on the server first."@
}

pub open spec fn case_error(previous: Seq<char>, prefix: Seq<char>) -> Seq<char> {
    "Paths "@ + debug_text(previous) + " and "@ + debug_text(prefix)
        + " differ only by case. Rename one before syncing to Windows."@
}

/// The running check over the components of one path: the paths seen so far,
/// keyed by their uppercase spelling, and the prefix built so far.
pub open spec fn check_components(
    seen: Map<Seq<char>, Seq<char>>,
    path: Seq<char>,
    comps: Seq<Seq<char>>,
) -> Result<(Map<Seq<char>, Seq<char>>, Seq<char>), Seq<char>>
    decreases comps.len(),
{
    if comps.len() == 0 {
        Ok((seen, seq![]))
    } else {
        match check_components(seen, path, comps.drop_last()) {
            Err(e) => Err(e),
            Ok((m, prefix)) => {
                let c = comps.last();
                if bad_component(c) {
                    Err(name_error(path))
                } else {
                    let np = if prefix.len() == 0 {
                        c
                    } else {
                        prefix + seq!['/'] + c
                    };
                    let key = unicode_uppercase(np);
                    if m.contains_key(key) && m[key] != np {
                        Err(case_error(m[key], np))
                    } else {
                        Ok((m.insert(key, np), np))
                    }
                }
            },
        }
    }
}

/// One path of the check: leading `./` removed; `""` and `.` skipped.
pub open spec fn check_path(seen: Map<Seq<char>, Seq<char>>, raw: Seq<char>) -> Result<
    Map<Seq<char>, Seq<char>>,
    Seq<char>,
> {
    let p = trim_start_seq(raw, "./"@);
    if p.len() == 0 || p == "."@ {
        Ok(seen)
    } else {
        match check_components(seen, p, split_char(p, '/')) {
            Ok((m, _)) => Ok(m),
            Err(e) => Err(e),
        }
    }
}

/// All paths in order, with one map of names seen across them.
pub open spec fn check_paths(paths: Seq<Seq<char>>) -> Result<Map<Seq<char>, Seq<char>>, Seq<char>>
    decreases paths.len(),
{
    if paths.len() == 0 {
        Ok(Map::empty())
    } else {
        match check_paths(paths.drop_last()) {
            Err(e) => Err(e),
            Ok(m) => check_path(m, paths.last()),
        }
    }
}

/// The verdict on a list of Linux paths: the first problem found, if any.
pub open spec fn windows_paths_verdict(paths: Seq<Seq<char>>) -> Result<(), Seq<char>> {
    match check_paths(paths) {
        Ok(_) => Ok(()),
        Err(e) => Err(e),
    }
}

/// The components a path is checked by: none for `""` and `.` (after
/// leading `./` are removed), else its `/`-separated pieces.
pub open spec fn comps_of(raw: Seq<char>) -> Seq<Seq<char>> {
    let p = trim_start_seq(raw, "./"@);
    if p.len() == 0 || p == "."@ {
        seq![]
    } else {
        split_char(p, '/')
    }
}

/// The prefixes of a path built from its components: the first component,
/// then each further one joined with `/`.
pub open spec fn built(comps: Seq<Seq<char>>) -> Seq<Seq<char>>
    decreases comps.len(),
{
    if comps.len() == 0 {
        seq![]
    } else {
        let b = built(comps.drop_last());
        let prefix = if b.len() == 0 {
            Seq::<char>::empty()
        } else {
            b.last()
        };
        b.push(
            if prefix.len() == 0 {
                comps.last()
            } else {
                prefix + seq!['/'] + comps.last()
            },
        )
    }
}

/// Every component of every path is one Windows can represent.
pub open spec fn all_good(ps: Seq<Seq<char>>) -> bool {
    forall|i: int, j: int|
        0 <= i < ps.len() && 0 <= j < comps_of(ps[i]).len() ==> !bad_component(
            #[trigger] comps_of(ps[i])[j],
        )
}

/// Every prefix of every path.
pub open spec fn prefixes(ps: Seq<Seq<char>>) -> Set<Seq<char>> {
    Set::new(
        |x: Seq<char>|
            exists|i: int, j: int|
                0 <= i < ps.len() && 0 <= j < built(comps_of(ps[i])).len() && #[trigger] built(
                    comps_of(ps[i]),
                )[j] == x,
    )
}

/// No two different spellings in `s` are equal in upper case.
pub open spec fn case_distinct(s: Set<Seq<char>>) -> bool {
    forall|x: Seq<char>, y: Seq<char>|
        #[trigger] s.contains(x) && #[trigger] s.contains(y) && unicode_uppercase(x)
            == unicode_uppercase(y) ==> x == y
}

/// `m` maps the upper-case spelling of each member of `s` to it, and
/// nothing else.
pub open spec fn faithful(m: Map<Seq<char>, Seq<char>>, s: Set<Seq<char>>) -> bool {
    &&& forall|k: Seq<char>|
        #[trigger] m.contains_key(k) <==> exists|x: Seq<char>| s.contains(x) && unicode_uppercase(x) == k
    &&& forall|x: Seq<char>| #[trigger] s.contains(x) ==> m[unicode_uppercase(x)] == x
}

proof fn lemma_distinct_subset(a: Set<Seq<char>>, b: Set<Seq<char>>)
    requires
        case_distinct(a),
        b.subset_of(a),
    ensures
        case_distinct(b),
{
    assert forall|x: Seq<char>, y: Seq<char>|
        #[trigger] b.contains(x) && #[trigger] b.contains(y) && unicode_uppercase(x) == unicode_uppercase(y) implies x
        == y by {
        assert(a.contains(x) && a.contains(y));
    }
}

proof fn lemma_components_verdict(
    seen: Map<Seq<char>, Seq<char>>,
    s: Set<Seq<char>>,
    path: Seq<char>,
    comps: Seq<Seq<char>>,
)
    requires
        faithful(seen, s),
        case_distinct(s),
    ensures
        (check_components(seen, path, comps) is Ok) == ((forall|j: int|
            0 <= j < comps.len() ==> !bad_component(#[trigger] comps[j])) && case_distinct(
            s + built(comps).to_set(),
        )),
        check_components(seen, path, comps) is Ok ==> {
            let (m, prefix) = check_components(seen, path, comps)->Ok_0;
            &&& faithful(m, s + built(comps).to_set())
            &&& prefix == if comps.len() == 0 {
                Seq::<char>::empty()
            } else {
                built(comps).last()
            }
        },
        built(comps).len() == comps.len(),
    decreases comps.len(),
{
    if comps.len() == 0 {
        assert(s + built(comps).to_set() =~= s);
    } else {
        let rest = comps.drop_last();
        lemma_components_verdict(seen, s, path, rest);
        let b = built(rest);
        let s1 = s + b.to_set();
        let c = comps.last();
        let all = s + built(comps).to_set();
        assert(built(comps) == b.push(built(comps).last()));
        let np = built(comps).last();
        b.lemma_push_to_set_commute(np);
        assert(all =~= s1.insert(np));
        let good_all = forall|j: int| 0 <= j < comps.len() ==> !bad_component(#[trigger] comps[j]);
        let good_rest = forall|j: int| 0 <= j < rest.len() ==> !bad_component(#[trigger] rest[j]);
        assert(good_all ==> good_rest) by {
            if good_all {
                assert forall|j: int| 0 <= j < rest.len() implies !bad_component(#[trigger] rest[j]) by {
                    assert(rest[j] == comps[j]);
                }
            }
        }
        if case_distinct(all) {
            lemma_distinct_subset(all, s1);
        }
        match check_components(seen, path, rest) {
            Err(_) => {},
            Ok((m1, prefix)) => {
                assert(comps[comps.len() - 1] == c);
                if bad_component(c) {
                } else {
                    let key = unicode_uppercase(np);
                    assert(np == if prefix.len() == 0 { c } else { prefix + seq!['/'] + c }) by {
                        if rest.len() > 0 {
                            assert(b.len() > 0);
                        }
                    }
                    if m1.contains_key(key) && m1[key] != np {
                        let x = choose|x: Seq<char>| s1.contains(x) && unicode_uppercase(x) == key;
                        assert(m1[key] == x);
                        assert(all.contains(x) && all.contains(np));
                    } else {
                        let m2 = m1.insert(key, np);
                        assert(good_all) by {
                            assert forall|j: int| 0 <= j < comps.len() implies !bad_component(#[trigger] comps[j]) by {
                                if j < rest.len() {
                                    assert(rest[j] == comps[j]);
                                }
                            }
                        }
                        assert(case_distinct(all)) by {
                            assert forall|x: Seq<char>, y: Seq<char>|
                                #[trigger] all.contains(x) && #[trigger] all.contains(y) && unicode_uppercase(x)
                                    == unicode_uppercase(y) implies x == y by {
                                if x == np && y != np {
                                    assert(s1.contains(y));
                                    assert(m1.contains_key(key));
                                } else if y == np && x != np {
                                    assert(s1.contains(x));
                                    assert(m1.contains_key(key));
                                }
                            }
                        }
                        assert forall|k: Seq<char>|
                            #[trigger] m2.contains_key(k) <==> exists|x: Seq<char>| all.contains(x) && unicode_uppercase(x) == k by {
                            if m2.contains_key(k) && k != key {
                                assert(m1.contains_key(k));
                                let x = choose|x: Seq<char>| s1.contains(x) && unicode_uppercase(x) == k;
                                assert(all.contains(x));
                            }
                            if exists|x: Seq<char>| all.contains(x) && unicode_uppercase(x) == k {
                                let x = choose|x: Seq<char>| all.contains(x) && unicode_uppercase(x) == k;
                                if x != np {
                                    assert(s1.contains(x));
                                }
                            }
                        }
                        assert forall|x: Seq<char>| #[trigger] all.contains(x) implies m2[unicode_uppercase(x)] == x by {
                            if x != np {
                                assert(s1.contains(x));
                                if unicode_uppercase(x) == key {
                                    assert(m1.contains_key(key));
                                    assert(m1[key] == x);
                                }
                            }
                        }
                    }
                }
            },
        }
    }
}

proof fn lemma_path_verdict(seen: Map<Seq<char>, Seq<char>>, s: Set<Seq<char>>, raw: Seq<char>)
    requires
        faithful(seen, s),
        case_distinct(s),
    ensures
        (check_path(seen, raw) is Ok) == ((forall|j: int|
            0 <= j < comps_of(raw).len() ==> !bad_component(#[trigger] comps_of(raw)[j]))
            && case_distinct(s + built(comps_of(raw)).to_set())),
        check_path(seen, raw) is Ok ==> faithful(
            check_path(seen, raw)->Ok_0,
            s + built(comps_of(raw)).to_set(),
        ),
{
    let p = trim_start_seq(raw, "./"@);
    if p.len() == 0 || p == "."@ {
        assert(comps_of(raw) =~= Seq::<Seq<char>>::empty());
        assert(built(comps_of(raw)).to_set() =~= Set::<Seq<char>>::empty());
        assert(s + built(comps_of(raw)).to_set() =~= s);
    } else {
        lemma_components_verdict(seen, s, p, split_char(p, '/'));
    }
}

/// Which path lists pass the Windows check, in words that do not depend on
/// order: every component of every path can be represented on Windows, and
/// no two different prefixes (over all paths) are equal in upper case.
pub proof fn lemma_windows_verdict(ps: Seq<Seq<char>>)
    ensures
        (windows_paths_verdict(ps) is Ok) == (all_good(ps) && case_distinct(prefixes(ps))),
        check_paths(ps) is Ok ==> faithful(check_paths(ps)->Ok_0, prefixes(ps)),
    decreases ps.len(),
{
    if ps.len() == 0 {
        assert(prefixes(ps) =~= Set::<Seq<char>>::empty());
        assert forall|k: Seq<char>|
            #[trigger] Map::<Seq<char>, Seq<char>>::empty().contains_key(k) <==> exists|x: Seq<char>|
                prefixes(ps).contains(x) && unicode_uppercase(x) == k by {}
    } else {
        let rest = ps.drop_last();
        let raw = ps.last();
        lemma_windows_verdict(rest);
        assert(prefixes(ps) =~= prefixes(rest) + built(comps_of(raw)).to_set()) by {
            assert forall|x: Seq<char>| prefixes(ps).contains(x) implies (prefixes(rest) + built(
                comps_of(raw),
            ).to_set()).contains(x) by {
                let (i, j) = choose|i: int, j: int|
                    0 <= i < ps.len() && 0 <= j < built(comps_of(ps[i])).len() && #[trigger] built(
                        comps_of(ps[i]),
                    )[j] == x;
                if i < rest.len() {
                    assert(rest[i] == ps[i]);
                } else {
                    assert(built(comps_of(raw)).contains(x));
                }
            }
            assert forall|x: Seq<char>| (prefixes(rest) + built(comps_of(raw)).to_set()).contains(x)
                implies prefixes(ps).contains(x) by {
                if prefixes(rest).contains(x) {
                    let (i, j) = choose|i: int, j: int|
                        0 <= i < rest.len() && 0 <= j < built(comps_of(rest[i])).len() && #[trigger] built(
                            comps_of(rest[i]),
                        )[j] == x;
                    assert(rest[i] == ps[i]);
                    assert(built(comps_of(ps[i]))[j] == x);
                } else {
                    let j = choose|j: int| 0 <= j < built(comps_of(raw)).len() && built(comps_of(raw))[j] == x;
                    assert(ps[ps.len() - 1] == raw);
                    assert(built(comps_of(ps[ps.len() - 1]))[j] == x);
                }
            }
        }
        let good_last = forall|j: int|
            0 <= j < comps_of(raw).len() ==> !bad_component(#[trigger] comps_of(raw)[j]);
        assert(all_good(ps) == (all_good(rest) && good_last)) by {
            if all_good(ps) {
                assert forall|i: int, j: int|
                    0 <= i < rest.len() && 0 <= j < comps_of(rest[i]).len() implies !bad_component(
                    #[trigger] comps_of(rest[i])[j],
                ) by {
                    assert(rest[i] == ps[i]);
                }
                assert forall|j: int| 0 <= j < comps_of(raw).len() implies !bad_component(#[trigger] comps_of(raw)[j]) by {
                    assert(ps[ps.len() - 1] == raw);
                }
            }
            if all_good(rest) && good_last {
                assert forall|i: int, j: int|
                    0 <= i < ps.len() && 0 <= j < comps_of(ps[i]).len() implies !bad_component(
                    #[trigger] comps_of(ps[i])[j],
                ) by {
                    if i < rest.len() {
                        assert(rest[i] == ps[i]);
                    }
                }
            }
        }
        let all = prefixes(ps);
        if case_distinct(all) {
            lemma_distinct_subset(all, prefixes(rest));
        }
        match check_paths(rest) {
            Err(_) => {},
            Ok(m) => {
                lemma_path_verdict(m, prefixes(rest), raw);
            },
        }
    }
}

/// Whether a list of paths passes the Windows check does not depend on the
/// order of the paths, nor on repeats: lists with the same paths pass or
/// fail together.
pub proof fn lemma_windows_order_free(ps: Seq<Seq<char>>, qs: Seq<Seq<char>>)
    requires
        ps.to_set() == qs.to_set(),
    ensures
        (windows_paths_verdict(ps) is Ok) == (windows_paths_verdict(qs) is Ok),
{
    lemma_windows_verdict(ps);
    lemma_windows_verdict(qs);
    assert(all_good(ps) == all_good(qs)) by {
        if all_good(ps) {
            assert forall|i: int, j: int|
                0 <= i < qs.len() && 0 <= j < comps_of(qs[i]).len() implies !bad_component(
                #[trigger] comps_of(qs[i])[j],
            ) by {
                assert(qs.to_set().contains(qs[i]));
                let k = choose|k: int| 0 <= k < ps.len() && ps[k] == qs[i];
                assert(comps_of(ps[k])[j] == comps_of(qs[i])[j]);
            }
        }
        if all_good(qs) {
            assert forall|i: int, j: int|
                0 <= i < ps.len() && 0 <= j < comps_of(ps[i]).len() implies !bad_component(
                #[trigger] comps_of(ps[i])[j],
            ) by {
                assert(ps.to_set().contains(ps[i]));
                let k = choose|k: int| 0 <= k < qs.len() && qs[k] == ps[i];
                assert(comps_of(qs[k])[j] == comps_of(ps[i])[j]);
            }
        }
    }
    assert(prefixes(ps) =~= prefixes(qs)) by {
        assert forall|x: Seq<char>| prefixes(ps).contains(x) implies prefixes(qs).contains(x) by {
            let (i, j) = choose|i: int, j: int|
                0 <= i < ps.len() && 0 <= j < built(comps_of(ps[i])).len() && #[trigger] built(
                    comps_of(ps[i]),
                )[j] == x;
            assert(ps.to_set().contains(ps[i]));
            let k = choose|k: int| 0 <= k < qs.len() && qs[k] == ps[i];
            assert(built(comps_of(qs[k]))[j] == x);
        }
        assert forall|x: Seq<char>| prefixes(qs).contains(x) implies prefixes(ps).contains(x) by {
            let (i, j) = choose|i: int, j: int|
                0 <= i < qs.len() && 0 <= j < built(comps_of(qs[i])).len() && #[trigger] built(
                    comps_of(qs[i]),
                )[j] == x;
            assert(qs.to_set().contains(qs[i]));
            let k = choose|k: int| 0 <= k < ps.len() && ps[k] == qs[i];
            assert(built(comps_of(ps[k]))[j] == x);
        }
    }
}

/// A small map from uppercase spellings to the spelling last seen.
struct Seen {
    keys: Vec<Vec<char>>,
    values: Vec<Vec<char>>,
}

impl Seen {
    spec fn wf(&self, m: Map<Seq<char>, Seq<char>>) -> bool {
        &&& self.keys@.len() == self.values@.len()
        &&& forall|k: Seq<char>|
            m.contains_key(k) <==> exists|i: int|
                0 <= i < self.keys@.len() && #[trigger] self.keys@[i]@ == k
        &&& forall|i: int|
            0 <= i < self.keys@.len() ==> m[#[trigger] self.keys@[i]@] == self.values@[i]@
        &&& forall|i: int, j: int|
            0 <= i < self.keys@.len() && 0 <= j < self.keys@.len() && #[trigger] self.keys@[i]@
                == #[trigger] self.keys@[j]@ ==> i == j
    }

    fn find(&self, key: &Vec<char>, Ghost(m): Ghost<Map<Seq<char>, Seq<char>>>) -> (r: Option<usize>)
        requires
            self.wf(m),
        ensures
            r is None ==> !m.contains_key(key@),
            r matches Some(i) ==> i < self.keys@.len() && self.keys@[i as int]@ == key@
                && m.contains_key(key@) && m[key@] == self.values@[i as int]@,
    {
        let mut i: usize = 0;
        while i < self.keys.len()
            invariant
                self.wf(m),
                i <= self.keys@.len(),
                forall|j: int| 0 <= j < i ==> #[trigger] self.keys@[j]@ != key@,
            decreases self.keys.len() - i,
        {
            if eq(&self.keys[i], key) {
                return Some(i);
            }
            i = i + 1;
        }
        None
    }

    fn set(
        &mut self,
        key: Vec<char>,
        value: Vec<char>,
        found: Option<usize>,
        Ghost(m): Ghost<Map<Seq<char>, Seq<char>>>,
    )
        requires
            old(self).wf(m),
            found matches Some(j) ==> j < old(self).keys@.len() && old(self).keys@[j as int]@
                == key@,
            found is None ==> !m.contains_key(key@),
        ensures
            final(self).wf(m.insert(key@, value@)),
    {
        let ghost m2 = m.insert(key@, value@);
        let ghost old_keys = self.keys@;
        let ghost old_values = self.values@;
        match found {
            Some(j) => {
                self.values.set(j, value);
                assert forall|i: int| 0 <= i < self.keys@.len() implies m2[#[trigger] self.keys@[i]@]
                    == self.values@[i]@ by {
                    if i != j as int {
                        assert(self.keys@[i]@ != key@);
                    }
                }
                assert forall|k: Seq<char>| m2.contains_key(k) implies exists|i: int|
                    0 <= i < self.keys@.len() && #[trigger] self.keys@[i]@ == k by {
                    if k == key@ {
                        assert(self.keys@[j as int]@ == k);
                    } else {
                        let i = choose|i: int| 0 <= i < old_keys.len() && #[trigger] old_keys[i]@ == k;
                        assert(self.keys@[i]@ == k);
                    }
                }
            },
            None => {
                self.keys.push(key);
                self.values.push(value);
                assert forall|i: int| 0 <= i < self.keys@.len() implies m2[#[trigger] self.keys@[i]@]
                    == self.values@[i]@ by {
                    if i < old_keys.len() {
                        assert(self.keys@[i] == old_keys[i]);
                        assert(m.contains_key(old_keys[i]@));
                    }
                }
                assert forall|k: Seq<char>| m2.contains_key(k) implies exists|i: int|
                    0 <= i < self.keys@.len() && #[trigger] self.keys@[i]@ == k by {
                    if k == key@ {
                        assert(self.keys@[old_keys.len() as int]@ == k);
                    } else {
                        let i = choose|i: int| 0 <= i < old_keys.len() && #[trigger] old_keys[i]@ == k;
                        assert(self.keys@[i]@ == k);
                    }
                }
                assert forall|a: int, b: int|
                    0 <= a < self.keys@.len() && 0 <= b < self.keys@.len() && #[trigger] self.keys@[a]@
                        == #[trigger] self.keys@[b]@ implies a == b by {
                    if a < old_keys.len() && b == old_keys.len() {
                        assert(m.contains_key(old_keys[a]@));
                    }
                    if b < old_keys.len() && a == old_keys.len() {
                        assert(m.contains_key(old_keys[b]@));
                    }
                }
                assert forall|k: Seq<char>| (exists|i: int|
                    0 <= i < self.keys@.len() && #[trigger] self.keys@[i]@ == k) implies m2.contains_key(k) by {
                    let i = choose|i: int| 0 <= i < self.keys@.len() && #[trigger] self.keys@[i]@ == k;
                    if i < old_keys.len() {
                        assert(old_keys[i]@ == k);
                    }
                }
            },
        }
    }
}

proof fn lemma_components_err(
    seen: Map<Seq<char>, Seq<char>>,
    path: Seq<char>,
    cs: Seq<Seq<char>>,
    k: int,
    e: Seq<char>,
)
    requires
        0 <= k <= cs.len(),
        check_components(seen, path, cs.take(k)) is Err,
        check_components(seen, path, cs.take(k))->Err_0 == e,
    ensures
        check_components(seen, path, cs) is Err,
        check_components(seen, path, cs)->Err_0 == e,
    decreases cs.len() - k,
{
    if k < cs.len() {
        assert(cs.take(k + 1).drop_last() == cs.take(k));
        lemma_components_err(seen, path, cs, k + 1, e);
    } else {
        assert(cs.take(k) == cs);
    }
}

proof fn lemma_paths_err(paths: Seq<Seq<char>>, k: int, e: Seq<char>)
    requires
        0 <= k <= paths.len(),
        check_paths(paths.take(k)) is Err,
        check_paths(paths.take(k))->Err_0 == e,
    ensures
        check_paths(paths) is Err,
        check_paths(paths)->Err_0 == e,
    decreases paths.len() - k,
{
    if k < paths.len() {
        assert(paths.take(k + 1).drop_last() == paths.take(k));
        lemma_paths_err(paths, k + 1, e);
    } else {
        assert(paths.take(k) == paths);
    }
}

fn component_is_bad(c: &Vec<char>) -> (r: bool)
    ensures
        r == bad_component(c@),
{
    let pieces = split(c, '.');
    proof {
        crate::text::lemma_split_nonempty(c@, '.');
    }
    let stem = to_uppercase(&pieces[0]);
    assert(stem@ == unicode_uppercase(split_char(c@, '.')[0]));
    let mut device = eq_str(&stem, "CON") || eq_str(&stem, "PRN") || eq_str(&stem, "AUX")
        || eq_str(&stem, "NUL") || eq_str(&stem, "CONIN$") || eq_str(&stem, "CONOUT$");
    if !device && (starts_with_str(&stem, "COM") || starts_with_str(&stem, "LPT")) {
        proof {
            reveal_strlit("COM");
            reveal_strlit("LPT");
        }
        let n = slice(&stem, 3, stem.len());
        device = n.len() == 1 && (('1' <= n[0] && n[0] <= '9') || n[0] == '\u{b9}' || n[0]
            == '\u{b2}' || n[0] == '\u{b3}');
        assert(n@ == stem@.skip(3));
    }
    assert(device == device_stem(stem@));
    if c.len() == 0 || eq_str(c, ".") || eq_str(c, "..") || c[c.len() - 1] == '.' || c[c.len()
        - 1] == ' ' || device {
        return true;
    }
    let mut i: usize = 0;
    while i < c.len()
        invariant
            i <= c.len(),
            forall|j: int| 0 <= j < i ==> !forbidden_char(#[trigger] c@[j]),
        decreases c.len() - i,
    {
        let ch = c[i];
        if is_control_char(ch) || ch == '<' || ch == '>' || ch == ':' || ch == '"' || ch == '\\'
            || ch == '|' || ch == '?' || ch == '*' || ch == '\u{fffd}' {
            assert(forbidden_char(c@[i as int]));
            return true;
        }
        i = i + 1;
    }
    false
}

fn trim_dot_slash(s: &Vec<char>) -> (r: Vec<char>)
    ensures
        r@ == trim_start_seq(s@, "./"@),
{
    proof {
        reveal_strlit("./");
    }
    let mut start: usize = 0;
    assert(s@.skip(0) == s@);
    while s.len() - start >= 2 && s[start] == '.' && s[start + 1] == '/'
        invariant
            "./"@ =~= seq!['.', '/'],
            start <= s.len(),
            trim_start_seq(s@, "./"@) == trim_start_seq(s@.skip(start as int), "./"@),
        decreases s.len() - start,
    {
        assert(s@.skip(start as int).take(2) =~= seq!['.', '/']);
        assert(is_prefix("./"@, s@.skip(start as int)));
        assert(s@.skip(start as int).skip(2) == s@.skip(start + 2));
        start = start + 2;
    }
    let r = slice(s, start, s.len());
    assert(r@ == s@.skip(start as int));
    if r.len() >= 2 {
        assert(r@[0] == s@[start as int] && r@[1] == s@[start + 1]);
    }
    assert(!is_prefix("./"@, r@));
    r
}

fn err_string(v: Vec<char>) -> (r: Result<(), String>)
    ensures
        r matches Err(e) && e@ == v@,
{
    Err(string_of(&v))
}

/// Rejects Linux paths that Windows would alias or could not hold: reserved
/// device names, forbidden characters, trailing dots or spaces, `.` and `..`
/// components, and two paths (or prefixes) that differ only by case.
pub fn validate_path_list(paths: &Vec<Vec<char>>) -> (r: Result<(), String>)
    ensures
        match r {
            Ok(()) => windows_paths_verdict(deep(paths@)) is Ok,
            Err(e) => windows_paths_verdict(deep(paths@)) == Err::<(), Seq<char>>(e@),
        },
{
    let ghost views = deep(paths@);
    let mut seen = Seen { keys: Vec::new(), values: Vec::new() };
    let ghost mut m: Map<Seq<char>, Seq<char>> = Map::empty();
    let mut i: usize = 0;
    while i < paths.len()
        invariant
            i <= paths@.len(),
            views == deep(paths@),
            check_paths(views.take(i as int)) is Ok,
            check_paths(views.take(i as int))->Ok_0 == m,
            seen.wf(m),
        decreases paths.len() - i,
    {
        let raw = slice(&paths[i], 0, paths[i].len());
        proof {
            assert(views.take(i + 1).drop_last() == views.take(i as int));
            assert(raw@ =~= paths@[i as int]@);
            assert(views.take(i + 1).last() == raw@);
        }
        let p = trim_dot_slash(&raw);
        if p.len() == 0 || eq_str(&p, ".") {
            i = i + 1;
            continue;
        }
        let comps = split(&p, '/');
        let ghost cs = split_char(p@, '/');
        let mut prefix: Vec<char> = Vec::new();
        let mut k: usize = 0;
        let ghost m0 = m;
        assert(cs.take(0) == Seq::<Seq<char>>::empty());
        while k < comps.len()
            invariant
                k <= comps@.len() == cs.len(),
                cs == split_char(p@, '/'),
                forall|j: int| 0 <= j < comps@.len() ==> #[trigger] comps@[j]@ == cs[j],
                check_components(m0, p@, cs.take(k as int)) is Ok,
                check_components(m0, p@, cs.take(k as int))->Ok_0 == (m, prefix@),
                seen.wf(m),
                i < paths@.len(),
                views == deep(paths@),
                check_paths(views.take(i as int)) is Ok,
                check_paths(views.take(i as int))->Ok_0 == m0,
                views.take(i + 1).drop_last() == views.take(i as int),
                views.take(i + 1).last() == raw@,
                p@ == trim_start_seq(raw@, "./"@),
                p@.len() != 0,
                p@ != "."@,
            decreases comps.len() - k,
        {
            let c = &comps[k];
            proof {
                assert(cs.take(k + 1).drop_last() == cs.take(k as int));
                assert(cs.take(k + 1).last() == c@);
            }
            if component_is_bad(c) {
                let mut msg = chars("Linux path ");
                let d = debug_quoted(&p);
                push_all(&mut msg, &d);
                push_str(
                    &mut msg,
                    " cannot be safely represented on Windows. Rename it on the server first.",
                );
                proof {
                    lemma_components_err(m0, p@, cs, k + 1, name_error(p@));
                    lemma_paths_err(views, i + 1, name_error(p@));
                }
                return err_string(msg);
            }
            let ghost old_prefix = prefix@;
            if prefix.len() > 0 {
                prefix.push('/');
            }
            push_all(&mut prefix, c);
            assert(prefix@ == if old_prefix.len() == 0 {
                c@
            } else {
                old_prefix + seq!['/'] + c@
            });
            let key = to_uppercase(&prefix);
            let found = seen.find(&key, Ghost(m));
            if let Some(j) = found {
                if !eq(&seen.values[j], &prefix) {
                    let mut msg = chars("Paths ");
                    let d1 = debug_quoted(&seen.values[j]);
                    push_all(&mut msg, &d1);
                    push_str(&mut msg, " and ");
                    let d2 = debug_quoted(&prefix);
                    push_all(&mut msg, &d2);
                    push_str(
                        &mut msg,
                        " differ only by case. Rename one before syncing to Windows.",
                    );
                    proof {
                        lemma_components_err(m0, p@, cs, k + 1, case_error(m[key@], prefix@));
                        lemma_paths_err(views, i + 1, case_error(m[key@], prefix@));
                    }
                    return err_string(msg);
                }
            }
            let value = slice(&prefix, 0, prefix.len());
            assert(value@ =~= prefix@);
            seen.set(key, value, found, Ghost(m));
            proof {
                m = m.insert(key@, prefix@);
            }
            k = k + 1;
        }
        proof {
            assert(cs.take(cs.len() as int) == cs);
        }
        i = i + 1;
    }
    assert(views.take(paths@.len() as int) == views);
    Ok(())
}


/// The character sequences of a list of character vectors.
pub open spec fn deep(v: Seq<Vec<char>>) -> Seq<Seq<char>> {
    v.map_values(|p: Vec<char>| p@)
}

pub proof fn lemma_deep_push(v: Seq<Vec<char>>, x: Vec<char>)
    ensures
        deep(v.push(x)) =~= deep(v).push(x@),
{
    assert(deep(v.push(x)).len() == deep(v).push(x@).len());
    assert forall|i: int| 0 <= i < deep(v.push(x)).len() implies deep(v.push(x))[i] == deep(
        v,
    ).push(x@)[i] by {
        if i < v.len() {
            assert(v.push(x)[i] == v[i]);
        }
    }
}

/// Rejects Linux paths that Windows would alias or could not hold: reserved
/// device names, forbidden characters, trailing dots or spaces, `.` and `..`
/// components, and two paths (or prefixes) that differ only by case. The
/// first problem in path order is reported.
pub fn validate_windows_paths(paths: &[&str]) -> (r: Result<(), String>)
    ensures
        match r {
            Ok(()) => windows_paths_verdict(paths@.map_values(|p: &str| p@)) is Ok,
            Err(e) => windows_paths_verdict(paths@.map_values(|p: &str| p@)) == Err::<(), Seq<char>>(e@),
        },
{
    let mut list: Vec<Vec<char>> = Vec::new();
    let mut i: usize = 0;
    while i < paths.len()
        invariant
            i <= paths@.len(),
            deep(list@) =~= paths@.take(i as int).map_values(|p: &str| p@),
        decreases paths.len() - i,
    {
        let c = chars(paths[i]);
        proof {
            lemma_deep_push(list@, c);
            assert(paths@.take(i + 1).map_values(|p: &str| p@) =~= paths@.take(i as int).map_values(
                |p: &str| p@,
            ).push(paths@[i as int]@));
        }
        list.push(c);
        i = i + 1;
    }
    assert(paths@.take(paths@.len() as int) == paths@);
    validate_path_list(&list)
}

/// The non-empty pieces of a list.
pub open spec fn non_empty(ps: Seq<Seq<char>>) -> Seq<Seq<char>>
    decreases ps.len(),
{
    if ps.len() == 0 {
        seq![]
    } else if ps.last().len() == 0 {
        non_empty(ps.drop_last())
    } else {
        non_empty(ps.drop_last()).push(ps.last())
    }
}

/// `CODESYNC-END` followed by NUL.
pub open spec fn manifest_end() -> Seq<char> {
    "CODESYNC-END\0"@
}

pub open spec fn manifest_error() -> Seq<char> {
    "Cannot validate the complete Linux file list; no files transferred."@
}

/// The verdict on a NUL-separated manifest: it must end with the end marker,
/// and its non-empty entries must pass `windows_paths_verdict`.
pub open spec fn manifest_verdict(m: Seq<char>) -> Result<(), Seq<char>> {
    if !is_suffix(manifest_end(), m) {
        Err(manifest_error())
    } else {
        windows_paths_verdict(
            non_empty(split_char(m.take(m.len() - manifest_end().len()), '\0')),
        )
    }
}

/// Checks the complete NUL-separated Linux file list of a folder.
pub fn validate_windows_manifest(manifest: &str) -> (r: Result<(), String>)
    ensures
        match r {
            Ok(()) => manifest_verdict(manifest@) is Ok,
            Err(e) => manifest_verdict(manifest@) == Err::<(), Seq<char>>(e@),
        },
{
    let m = chars(manifest);
    if !ends_with_str(&m, "CODESYNC-END\0") {
        return Err(owned("Cannot validate the complete Linux file list; no files transferred."));
    }
    let end = chars("CODESYNC-END\0");
    let body = slice(&m, 0, m.len() - end.len());
    let pieces = split(&body, '\0');
    let mut list: Vec<Vec<char>> = Vec::new();
    let ghost ps = split_char(body@, '\0');
    let mut i: usize = 0;
    while i < pieces.len()
        invariant
            i <= pieces@.len() == ps.len(),
            forall|k: int| 0 <= k < pieces@.len() ==> #[trigger] pieces@[k]@ == ps[k],
            deep(list@) =~= non_empty(ps.take(i as int)),
        decreases pieces.len() - i,
    {
        let piece = &pieces[i];
        proof {
            assert(ps.take(i + 1).drop_last() == ps.take(i as int));
            assert(ps.take(i + 1).last() == piece@);
        }
        if piece.len() > 0 {
            let copy = slice(piece, 0, piece.len());
            proof {
                lemma_deep_push(list@, copy);
                assert(copy@ =~= piece@);
            }
            list.push(copy);
        }
        i = i + 1;
    }
    assert(ps.take(ps.len() as int) == ps);
    assert(body@ == manifest@.take(manifest@.len() - manifest_end().len()));
    validate_path_list(&list)
}

/// The `find` expression `-name p1 -o -name p2 ...` that excludes the
/// standard patterns.
pub open spec fn exclude_expression() -> Seq<char> {
    crate::text::join(
        crate::config::exclude_patterns().map_values(|p: Seq<char>| "-name "@ + quoted(p)),
        " -o "@,
    )
}

/// The shell script that lists a folder for a Windows check: it fails on
/// links and special files, prints every entry NUL-terminated (skipping the
/// excluded patterns), and ends with the end marker.
pub open spec fn windows_manifest_script_of(root: Seq<char>) -> Seq<char> {
    "set -eu; cd -- "@ + quoted(root) + "; special=$(find . \\( "@ + exclude_expression()
        + " \\) -prune -o ! -type f ! -type d -print); test -z \"$special\" || { echo 'Windows sync requires regular files and directories.' >&2; exit 1; }; find . \\( "@
        + exclude_expression() + " \\) -prune -o -print0; printf 'CODESYNC-END\\0'"@
}

fn exclude_expression_of() -> (r: Vec<char>)
    ensures
        r@ == exclude_expression(),
{
    let patterns = crate::config::excludes();
    let mut clauses: Vec<Vec<char>> = Vec::new();
    let mut i: usize = 0;
    while i < patterns.len()
        invariant
            i <= patterns@.len(),
            patterns@.map_values(|s: String| s@) == crate::config::exclude_patterns(),
            deep(clauses@) =~= crate::config::exclude_patterns().take(i as int).map_values(
                |p: Seq<char>| "-name "@ + quoted(p),
            ),
        decreases patterns.len() - i,
    {
        let mut clause = chars("-name ");
        let q = quote(patterns[i].as_str());
        push_str(&mut clause, q.as_str());
        proof {
            assert(patterns@.map_values(|s: String| s@)[i as int] == patterns@[i as int]@);
            assert(patterns@[i as int]@ == crate::config::exclude_patterns()[i as int]);
            lemma_deep_push(clauses@, clause);
            assert(crate::config::exclude_patterns().take(i + 1).map_values(
                |p: Seq<char>| "-name "@ + quoted(p),
            ) =~= crate::config::exclude_patterns().take(i as int).map_values(
                |p: Seq<char>| "-name "@ + quoted(p),
            ).push("-name "@ + quoted(patterns@[i as int]@)));
        }
        clauses.push(clause);
        i = i + 1;
    }
    assert(crate::config::exclude_patterns().take(patterns@.len() as int)
        == crate::config::exclude_patterns());
    crate::text::join_vec(&clauses, " -o ")
}

/// Builds the Windows listing script for `root`; see `windows_manifest_script_of`.
pub fn windows_manifest_script(root: &str) -> (r: String)
    ensures
        r@ == windows_manifest_script_of(root@),
{
    let excl = exclude_expression_of();
    let mut out = chars("set -eu; cd -- ");
    let q = quote(root);
    push_str(&mut out, q.as_str());
    push_str(&mut out, "; special=$(find . \\( ");
    push_all(&mut out, &excl);
    push_str(
        &mut out,
        " \\) -prune -o ! -type f ! -type d -print); test -z \"$special\" || { echo 'Windows sync requires regular files and directories.' >&2; exit 1; }; find . \\( ",
    );
    push_all(&mut out, &excl);
    push_str(&mut out, " \\) -prune -o -print0; printf 'CODESYNC-END\\0'");
    string_of(&out)
}

} // verus!
