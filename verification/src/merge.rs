//! Content-based merge planning for two-way folder sync.
//!
//! Every copy of a folder (the local one and one per server) is read into a
//! `Tree`: files by relative path with their SHA-256 digests, and
//! directories. `plan` decides what the merged folder holds. A path whose
//! copies all have the same content is kept in place. A path with several
//! contents keeps every version under a new name derived from the name of
//! the first participant that has it; originals are renamed, never
//! overwritten.
use vstd::prelude::*;
use crate::order::{
    insert_sorted, lemma_insert_at, lemma_sorted_of, lex_lt, locate, sorted, sorted_of, views,
};
use crate::text::{
    chars, decimal, decimal_of, digit_char, digits_value, eq, is_alphanumeric, last_index,
    lemma_last_index, owned, rfind_char, slice, string_of, unicode_alphanumeric,
};

verus! {

/// A relative path in normal form: non-empty components separated by
/// single slashes, none of them `.` or `..`. Paths read from a directory
/// walk have this form; for them the order of `lex_lt` with slashes first
/// is the component order of `Path`.
pub open spec fn clean_path(p: Seq<char>) -> bool {
    &&& p.len() > 0
    &&& forall|i: int|
        0 <= i < crate::text::split_char(p, '/').len() ==> {
            let c = #[trigger] crate::text::split_char(p, '/')[i];
            c.len() > 0 && c != seq!['.'] && c != seq!['.', '.']
        }
}

/// A content digest as the sync reads it: at least eight characters, the
/// first eight ASCII (a SHA-256 digest in hexadecimal has 64).
pub open spec fn digest_ok(h: Seq<char>) -> bool {
    &&& h.len() >= 8
    &&& forall|i: int| 0 <= i < 8 ==> (#[trigger] h[i] as u32) < 128
}

/// Whether a path is in normal form (see `clean_path`).
pub fn is_clean_path(p: &str) -> (r: bool)
    ensures
        r == clean_path(p@),
{
    let cs = chars(p);
    if cs.len() == 0 {
        return false;
    }
    let parts = crate::text::split(&cs, '/');
    let ghost ps = crate::text::split_char(p@, '/');
    let mut i: usize = 0;
    while i < parts.len()
        invariant
            i <= parts@.len(),
            cs@ == p@,
            ps == crate::text::split_char(p@, '/'),
            p@.len() > 0,
            parts@.len() == ps.len(),
            forall|k: int| 0 <= k < parts@.len() ==> #[trigger] parts@[k]@ == ps[k],
            forall|k: int|
                0 <= k < i ==> {
                    let c = #[trigger] ps[k];
                    c.len() > 0 && c != seq!['.'] && c != seq!['.', '.']
                },
        decreases parts@.len() - i,
    {
        let c = &parts[i];
        assert(c@ == ps[i as int]);
        if c.len() == 0 || (c.len() == 1 && c[0] == '.') || (c.len() == 2 && c[0] == '.' && c[1] == '.') {
            proof {
                if c@.len() == 1 {
                    assert(c@ =~= seq!['.']);
                }
                if c@.len() == 2 {
                    assert(c@ =~= seq!['.', '.']);
                }
                let bad = ps[i as int];
                assert(!(bad.len() > 0 && bad != seq!['.'] && bad != seq!['.', '.']));
                assert(!clean_path(p@));
            }
            return false;
        }
        proof {
            if c@.len() == 1 {
                assert(c@ != seq!['.']) by {
                    assert(c@[0] != '.');
                }
            }
            if c@.len() == 2 {
                assert(c@ != seq!['.', '.']) by {
                    if c@ == seq!['.', '.'] {
                        assert(c@[0] == '.' && c@[1] == '.');
                    }
                }
            }
        }
        i = i + 1;
    }
    true
}

/// Whether a digest has the form the sync reads (see `digest_ok`).
pub fn is_digest(h: &str) -> (r: bool)
    ensures
        r == digest_ok(h@),
{
    let cs = chars(h);
    if cs.len() < 8 {
        return false;
    }
    let mut i: usize = 0;
    while i < 8
        invariant
            i <= 8 <= cs@.len(),
            cs@ == h@,
            forall|k: int| 0 <= k < i ==> (#[trigger] cs@[k] as u32) < 128,
        decreases 8 - i,
    {
        if (cs[i] as u32) >= 128 {
            return false;
        }
        i = i + 1;
    }
    true
}

/// A sorted list holds each entry once.
pub proof fn lemma_unique(s: Seq<Seq<char>>, sf: bool)
    requires
        sorted(s, sf),
    ensures
        forall|i: int, j: int|
            0 <= i < s.len() && 0 <= j < s.len() && #[trigger] s[i] == #[trigger] s[j] ==> i == j,
{
    assert forall|i: int, j: int|
        0 <= i < s.len() && 0 <= j < s.len() && #[trigger] s[i] == #[trigger] s[j] implies i == j by {
        if i < j || j < i {
            crate::order::lemma_lt_irreflexive(s[i], sf);
        }
    }
}

/// One copy of a shared folder.
pub struct Tree {
    paths: Vec<Vec<char>>,
    hashes: Vec<Vec<char>>,
    dirs: Vec<Vec<char>>,
}

impl Tree {
    /// The tree is well formed: paths and directories sorted without
    /// repetition, one digest per path, every path clean and every digest
    /// in the expected form.
    pub closed spec fn wf(&self) -> bool {
        &&& sorted(views(self.paths@), true)
        &&& sorted(views(self.dirs@), true)
        &&& self.hashes@.len() == self.paths@.len()
        &&& forall|i: int| 0 <= i < self.paths@.len() ==> clean_path(#[trigger] self.paths@[i]@)
        &&& forall|i: int| 0 <= i < self.dirs@.len() ==> clean_path(#[trigger] self.dirs@[i]@)
        &&& forall|i: int| 0 <= i < self.hashes@.len() ==> digest_ok(#[trigger] self.hashes@[i]@)
    }

    /// The digest of the file at `p`, if the tree has one there.
    pub closed spec fn file_hash(&self, p: Seq<char>) -> Option<Seq<char>> {
        if exists|i: int| 0 <= i < self.paths@.len() && self.paths@[i]@ == p {
            let i = choose|i: int| 0 <= i < self.paths@.len() && self.paths@[i]@ == p;
            Some(self.hashes@[i]@)
        } else {
            None
        }
    }

    /// Whether the tree has a directory at `p`.
    pub closed spec fn has_dir(&self, p: Seq<char>) -> bool {
        exists|i: int| 0 <= i < self.dirs@.len() && self.dirs@[i]@ == p
    }

    /// Facts every well-formed tree has.
    pub proof fn lemma_wf(&self)
        requires
            self.wf(),
        ensures
            forall|p: Seq<char>| #[trigger] self.file_hash(p) is Some ==> clean_path(p),
            forall|p: Seq<char>| #[trigger] self.file_hash(p) matches Some(h) ==> digest_ok(h),
            forall|p: Seq<char>| #[trigger] self.has_dir(p) ==> clean_path(p),
    {
    }

    /// The paths and directories of a tree as sets.
    proof fn lemma_sets(&self)
        ensures
            forall|p: Seq<char>|
                (#[trigger] self.file_hash(p) is Some) == views(self.paths@).to_set().contains(p),
            forall|p: Seq<char>| #[trigger] self.has_dir(p) == views(self.dirs@).to_set().contains(p),
    {
        assert forall|p: Seq<char>|
            (#[trigger] self.file_hash(p) is Some) == views(self.paths@).to_set().contains(p) by {
            if views(self.paths@).to_set().contains(p) {
                let i = choose|i: int| 0 <= i < self.paths@.len() && views(self.paths@)[i] == p;
                assert(self.paths@[i]@ == p);
            }
            if self.file_hash(p) is Some {
                let i = choose|i: int| 0 <= i < self.paths@.len() && self.paths@[i]@ == p;
                assert(views(self.paths@)[i] == p);
            }
        }
        assert forall|p: Seq<char>| #[trigger] self.has_dir(p) == views(self.dirs@).to_set().contains(p) by {
            if views(self.dirs@).to_set().contains(p) {
                let i = choose|i: int| 0 <= i < self.dirs@.len() && views(self.dirs@)[i] == p;
                assert(self.dirs@[i]@ == p);
            }
            if self.has_dir(p) {
                let i = choose|i: int| 0 <= i < self.dirs@.len() && self.dirs@[i]@ == p;
                assert(views(self.dirs@)[i] == p);
            }
        }
    }

    /// The digest recorded for `p`.
    pub fn lookup(&self, p: &Vec<char>) -> (r: Option<&Vec<char>>)
        requires
            self.wf(),
        ensures
            r matches Some(h) ==> self.file_hash(p@) == Some(h@),
            r is None ==> self.file_hash(p@) is None,
    {
        let (j, found) = locate(&self.paths, p, true);
        proof {
            lemma_unique(views(self.paths@), true);
        }
        if found {
            proof {
                assert(self.paths@[j as int]@ == p@);
                let c = choose|i: int| 0 <= i < self.paths@.len() && self.paths@[i]@ == p@;
                assert(views(self.paths@)[c] == p@);
            }
            Some(&self.hashes[j])
        } else {
            proof {
                if exists|i: int| 0 <= i < self.paths@.len() && self.paths@[i]@ == p@ {
                    let c = choose|i: int| 0 <= i < self.paths@.len() && self.paths@[i]@ == p@;
                    assert(views(self.paths@)[c] == p@);
                }
            }
            None
        }
    }

    /// The tree's file paths then its directories, in order.
    pub closed spec fn listed(&self) -> Seq<Seq<char>> {
        views(self.paths@) + views(self.dirs@)
    }

    /// The tree's file paths then its directories.
    pub fn entries(&self) -> (r: Vec<String>)
        ensures
            r@.map_values(|s: String| s@) == self.listed(),
    {
        let mut r: Vec<String> = Vec::new();
        let mut i: usize = 0;
        while i < self.paths.len()
            invariant
                i <= self.paths@.len(),
                r@.map_values(|s: String| s@) == views(self.paths@).take(i as int),
            decreases self.paths@.len() - i,
        {
            let ghost before = r@;
            let item = string_of(&self.paths[i]);
            r.push(item);
            assert(r@.map_values(|s: String| s@) =~= before.map_values(|s: String| s@).push(item@));
            assert(views(self.paths@).take(i + 1) =~= views(self.paths@).take(i as int).push(self.paths@[i as int]@));
            i = i + 1;
        }
        let mut j: usize = 0;
        assert(views(self.paths@).take(i as int) == views(self.paths@));
        while j < self.dirs.len()
            invariant
                j <= self.dirs@.len(),
                r@.map_values(|s: String| s@) == views(self.paths@) + views(self.dirs@).take(j as int),
            decreases self.dirs@.len() - j,
        {
            let ghost before = r@;
            let item = string_of(&self.dirs[j]);
            r.push(item);
            assert(r@.map_values(|s: String| s@) =~= before.map_values(|s: String| s@).push(item@));
            assert(views(self.dirs@).take(j + 1) =~= views(self.dirs@).take(j as int).push(self.dirs@[j as int]@));
            j = j + 1;
        }
        assert(views(self.dirs@).take(j as int) == views(self.dirs@));
        r
    }

    /// An empty tree.
    pub fn new() -> (t: Tree)
        ensures
            t.wf(),
            forall|p: Seq<char>| #[trigger] t.file_hash(p) is None,
            forall|p: Seq<char>| !#[trigger] t.has_dir(p),
    {
        Tree { paths: Vec::new(), hashes: Vec::new(), dirs: Vec::new() }
    }

    /// Records the file at `path` with digest `hash`, replacing the digest
    /// it had.
    pub fn insert_file(&mut self, path: &str, hash: &str)
        requires
            old(self).wf(),
            clean_path(path@),
            digest_ok(hash@),
        ensures
            final(self).wf(),
            forall|p: Seq<char>|
                #[trigger] final(self).file_hash(p) == if p == path@ {
                    Some(hash@)
                } else {
                    old(self).file_hash(p)
                },
            forall|p: Seq<char>| #[trigger] final(self).has_dir(p) == old(self).has_dir(p),
    {
        let ghost before = *self;
        let p = chars(path);
        let h = chars(hash);
        let (j, found) = locate(&self.paths, &p, true);
        let ghost s = views(self.paths@);
        proof {
            lemma_unique(s, true);
        }
        if found {
            self.hashes.set(j, h);
            proof {
                assert(views(self.paths@) == s);
                assert forall|q: Seq<char>| #[trigger] self.file_hash(q) == if q == path@ {
                    Some(hash@)
                } else {
                    before.file_hash(q)
                } by {
                    if exists|i: int| 0 <= i < self.paths@.len() && self.paths@[i]@ == q {
                        let i = choose|i: int| 0 <= i < self.paths@.len() && self.paths@[i]@ == q;
                        assert(s[i] == q);
                        if q == path@ {
                            assert(s[j as int] == q);
                        }
                    }
                }
            }
        } else {
            proof {
                lemma_insert_at(s, j as int, p@, true);
            }
            let ghost pv = p@;
            self.paths.insert(j, p);
            self.hashes.insert(j, h);
            let ghost s2 = views(self.paths@);
            assert(s2 =~= s.insert(j as int, pv));
            proof {
                lemma_unique(s2, true);
                assert forall|q: Seq<char>| #[trigger] self.file_hash(q) == if q == path@ {
                    Some(hash@)
                } else {
                    before.file_hash(q)
                } by {
                    if q == path@ {
                        assert(s2[j as int] == q);
                        assert(self.paths@[j as int]@ == q);
                        let c = choose|i: int| 0 <= i < self.paths@.len() && self.paths@[i]@ == q;
                        assert(s2[c] == q);
                        assert(c == j);
                        assert(self.hashes@[j as int]@ == hash@);
                    } else {
                        if exists|i: int| 0 <= i < before.paths@.len() && before.paths@[i]@ == q {
                            let k = choose|i: int|
                                0 <= i < before.paths@.len() && before.paths@[i]@ == q;
                            assert(s[k] == q);
                            let k2 = if k < j {
                                k
                            } else {
                                k + 1
                            };
                            assert(s2[k2] == q);
                            assert(self.paths@[k2]@ == q);
                            let c = choose|i: int| 0 <= i < self.paths@.len() && self.paths@[i]@ == q;
                            assert(s2[c] == q);
                            assert(c == k2);
                            assert(self.hashes@[k2] == before.hashes@[k]);
                            assert(before.file_hash(q) == Some(before.hashes@[k]@));
                        } else {
                            if exists|i: int| 0 <= i < self.paths@.len() && self.paths@[i]@ == q {
                                let i = choose|i: int|
                                    0 <= i < self.paths@.len() && self.paths@[i]@ == q;
                                assert(s2[i] == q);
                                if i < j {
                                    assert(s[i] == q);
                                    assert(before.paths@[i]@ == q);
                                } else if i > j {
                                    assert(s[i - 1] == q);
                                    assert(before.paths@[i - 1]@ == q);
                                }
                            }
                        }
                    }
                }
            }
        }
        assert(self.dirs@ == before.dirs@);
        assert forall|q: Seq<char>| #[trigger] self.has_dir(q) == before.has_dir(q) by {
        }
    }

    /// Records a directory at `path`.
    pub fn insert_dir(&mut self, path: &str)
        requires
            old(self).wf(),
            clean_path(path@),
        ensures
            final(self).wf(),
            forall|p: Seq<char>| #[trigger] final(self).file_hash(p) == old(self).file_hash(p),
            forall|p: Seq<char>|
                #[trigger] final(self).has_dir(p) == (p == path@ || old(self).has_dir(p)),
    {
        let ghost before = views(self.dirs@);
        let d = chars(path);
        insert_sorted(&mut self.dirs, d, true);
        proof {
            let after = views(self.dirs@);
            assert forall|p: Seq<char>| #[trigger] self.has_dir(p) == (p == path@ || old(
                self,
            ).has_dir(p)) by {
                if self.has_dir(p) {
                    let i = choose|i: int| 0 <= i < self.dirs@.len() && self.dirs@[i]@ == p;
                    assert(after[i] == p);
                    assert(after.to_set().contains(after[i]));
                    if p != path@ {
                        assert(before.to_set().contains(p));
                        let k = choose|k: int| 0 <= k < before.len() && before[k] == p;
                        assert(old(self).dirs@[k]@ == p);
                    }
                }
                if p == path@ {
                    assert(after.to_set().contains(p));
                    let k = choose|k: int| 0 <= k < after.len() && after[k] == p;
                    assert(self.dirs@[k]@ == p);
                }
                if old(self).has_dir(p) {
                    let i = choose|i: int| 0 <= i < old(self).dirs@.len() && old(self).dirs@[i]@ == p;
                    assert(before[i] == p);
                    assert(before.to_set().contains(p));
                    assert(after.to_set().contains(p));
                    let k = choose|k: int| 0 <= k < after.len() && after[k] == p;
                    assert(self.dirs@[k]@ == p);
                }
            }
            assert(self.paths@ == old(self).paths@ && self.hashes@ == old(self).hashes@);
            assert forall|q: Seq<char>| #[trigger] self.file_hash(q) == old(self).file_hash(q) by {
            }
            assert forall|i: int| 0 <= i < self.dirs@.len() implies clean_path(
                #[trigger] self.dirs@[i]@,
            ) by {
                assert(after.to_set().contains(after[i]));
            }
        }
    }
}

// ---------------------------------------------------------------------------
// Names for kept versions
// ---------------------------------------------------------------------------

/// A character of a participant's name as it appears in a new file name:
/// letters, digits, `-` and `_` stay, anything else becomes `_`.
pub open spec fn label_char(c: char) -> char {
    if unicode_alphanumeric(c) || c == '-' || c == '_' {
        c
    } else {
        '_'
    }
}

/// The label of a participant in new file names: its name with
/// `label_char` applied, cut to 40 characters; `Host` when that is empty.
pub open spec fn label(name: Seq<char>) -> Seq<char> {
    let m = name.map_values(|c: char| label_char(c));
    let cut = if m.len() <= 40 {
        m
    } else {
        m.take(40)
    };
    if cut.len() == 0 {
        seq!['H', 'o', 's', 't']
    } else {
        cut
    }
}

/// A participant's label keeps the first 40 characters of its name in
/// place: each letter or digit (in Unicode's sense, as `char::is_alphanumeric`
/// decides), `-` and `_` stays as it is, and each other character becomes
/// `_`. Only an empty name is labelled `Host`.
pub proof fn lemma_label_keeps(name: Seq<char>)
    ensures
        name.len() == 0 ==> label(name) == seq!['H', 'o', 's', 't'],
        name.len() > 0 ==> label(name).len() == if name.len() <= 40 { name.len() } else { 40 },
        forall|i: int|
            0 <= i < name.len() && i < 40 && (unicode_alphanumeric(name[i]) || name[i] == '-'
                || name[i] == '_') ==> #[trigger] label(name)[i] == name[i],
        forall|i: int|
            0 <= i < name.len() && i < 40 && !(unicode_alphanumeric(name[i]) || name[i] == '-'
                || name[i] == '_') ==> #[trigger] label(name)[i] == '_',
{
}

/// Everything of `p` up to and including its last `/`.
pub open spec fn dir_prefix(p: Seq<char>) -> Seq<char> {
    match last_index(p, '/') {
        Some(i) => p.take(i + 1),
        None => seq![],
    }
}

/// The last component of `p`.
pub open spec fn file_name(p: Seq<char>) -> Seq<char> {
    match last_index(p, '/') {
        Some(i) => p.skip(i + 1),
        None => p,
    }
}

/// The `k`-th name tried for the version with digest `d` of the file at `p`
/// whose first owner has label `lab`: `<lab>_<name>` first, then
/// `<lab>_<first 8 characters of d>_<k>_<name>`, in the same directory.
pub open spec fn candidate(p: Seq<char>, lab: Seq<char>, d: Seq<char>, k: nat) -> Seq<char> {
    if k == 0 {
        dir_prefix(p) + lab + seq!['_'] + file_name(p)
    } else {
        dir_prefix(p) + lab + seq!['_'] + d.take(8) + seq!['_'] + decimal(k) + seq!['_']
            + file_name(p)
    }
}

/// The first name in the order of `candidate` that `reserved` does not hold.
pub open spec fn first_free(reserved: Set<Seq<char>>, p: Seq<char>, lab: Seq<char>, d: Seq<char>) -> nat {
    choose|k: nat|
        !reserved.contains(#[trigger] candidate(p, lab, d, k)) && forall|j: nat|
            j < k ==> reserved.contains(#[trigger] candidate(p, lab, d, j))
}

proof fn lemma_digit_char(d: nat)
    requires
        d < 10,
    ensures
        (digit_char(d) as u32) == d + 48,
{
}

/// Reading a decimal rendering back gives the number.
pub proof fn lemma_decimal_value(n: nat)
    ensures
        digits_value(decimal(n)) == n,
        decimal(n).len() > 0,
        forall|i: int| 0 <= i < decimal(n).len() ==> (#[trigger] decimal(n)[i]) != '_',
    decreases n,
{
    if n < 10 {
        lemma_digit_char(n);
        let s = decimal(n);
        assert(s.drop_last().len() == 0);
        assert(digits_value(s.drop_last()) == 0);
    } else {
        lemma_decimal_value(n / 10);
        lemma_digit_char(n % 10);
        let s = decimal(n);
        assert(s.drop_last() == decimal(n / 10));
        assert(s.last() == digit_char(n % 10));
        assert((n / 10) * 10 + n % 10 == n);
        assert forall|i: int| 0 <= i < s.len() implies (#[trigger] s[i]) != '_' by {
            if i < s.len() - 1 {
                assert(s[i] == decimal(n / 10)[i]);
            }
        }
    }
}

/// Different numbered names differ.
pub proof fn lemma_candidate_injective(p: Seq<char>, lab: Seq<char>, d: Seq<char>, j: nat, k: nat)
    requires
        d.len() >= 8,
        candidate(p, lab, d, j) == candidate(p, lab, d, k),
    ensures
        j == k,
{
    lemma_decimal_value(j);
    lemma_decimal_value(k);
    let pre = dir_prefix(p) + lab + seq!['_'];
    let c0 = pre + file_name(p);
    if j == 0 && k != 0 {
        assert(candidate(p, lab, d, k).len() > c0.len());
    } else if j != 0 && k == 0 {
        assert(candidate(p, lab, d, j).len() > c0.len());
    } else if j != 0 && k != 0 {
        let head = pre + d.take(8) + seq!['_'];
        let a = decimal(j) + seq!['_'] + file_name(p);
        let b = decimal(k) + seq!['_'] + file_name(p);
        let cj = candidate(p, lab, d, j);
        assert(cj =~= head + a);
        assert(candidate(p, lab, d, k) =~= head + b);
        assert(a =~= cj.skip(head.len() as int));
        assert(a == b);
        let dj = decimal(j);
        let dk = decimal(k);
        if dj.len() < dk.len() {
            assert(a[dj.len() as int] == '_');
            assert(b[dj.len() as int] == dk[dj.len() as int]);
        } else if dk.len() < dj.len() {
            assert(b[dk.len() as int] == '_');
            assert(a[dk.len() as int] == dj[dk.len() as int]);
        } else {
            assert(dj =~= a.take(dj.len() as int));
            assert(dk =~= b.take(dk.len() as int));
        }
    }
}

// ---------------------------------------------------------------------------
// What the plan is
// ---------------------------------------------------------------------------

/// Every path at which some copy has a file.
pub open spec fn all_paths(ts: Seq<Tree>) -> Set<Seq<char>> {
    Set::new(|p: Seq<char>| exists|i: int| 0 <= i < ts.len() && (#[trigger] ts[i].file_hash(p)) is Some)
}

/// Every path at which some copy has a directory.
pub open spec fn all_dirs(ts: Seq<Tree>) -> Set<Seq<char>> {
    Set::new(|p: Seq<char>| exists|i: int| 0 <= i < ts.len() && #[trigger] ts[i].has_dir(p))
}

/// The distinct contents that the copies hold at `p`.
pub open spec fn digests(ts: Seq<Tree>, p: Seq<char>) -> Set<Seq<char>> {
    Set::new(
        |d: Seq<char>| exists|i: int| 0 <= i < ts.len() && #[trigger] ts[i].file_hash(p) == Some(d),
    )
}

/// The copies among the first `n` that hold content `d` at `p`, in order.
pub open spec fn owners(ts: Seq<Tree>, p: Seq<char>, d: Seq<char>, n: int) -> Seq<nat>
    decreases n,
{
    if n <= 0 {
        seq![]
    } else if ts[n - 1].file_hash(p) == Some(d) {
        owners(ts, p, d, n - 1).push((n - 1) as nat)
    } else {
        owners(ts, p, d, n - 1)
    }
}

/// A file of the merged folder: its path there, the copy it is taken from,
/// and its path in that copy.
pub type FileEntry = (Seq<char>, nat, Seq<char>);

/// A rename of an original: the copy, the path, the new path, and the
/// digest the file must still have.
pub type RenameEntry = (nat, Seq<char>, Seq<char>, Seq<char>);

/// Planning state: the names taken so far, the files and the renames.
pub type PlanState = (Set<Seq<char>>, Seq<FileEntry>, Seq<RenameEntry>);

/// Keeps the version with digest `d` of the file at `p` under the first free
/// name derived from its first owner, and renames it in every copy that
/// holds it.
#[verifier::opaque]
pub open spec fn place(ts: Seq<Tree>, names: Seq<Seq<char>>, p: Seq<char>, d: Seq<char>, st: PlanState) -> PlanState {
    let o = owners(ts, p, d, ts.len() as int);
    let src = o[0];
    let lab = label(names[src as int]);
    let t = candidate(p, lab, d, first_free(st.0, p, lab, d));
    (st.0.insert(t), st.1.push((t, src, p)), st.2 + o.map_values(|w: nat| (w, p, t, d)))
}

/// `place` for each digest of `ds` in turn.
pub open spec fn place_all(ts: Seq<Tree>, names: Seq<Seq<char>>, p: Seq<char>, ds: Seq<Seq<char>>, st: PlanState) -> PlanState
    decreases ds.len(),
{
    if ds.len() == 0 {
        st
    } else {
        place(ts, names, p, ds.last(), place_all(ts, names, p, ds.drop_last(), st))
    }
}

/// Plans one path: kept in place from its first owner when every copy that
/// has it agrees, otherwise every version is placed, in digest order.
pub open spec fn plan_path(ts: Seq<Tree>, names: Seq<Seq<char>>, p: Seq<char>, st: PlanState) -> PlanState {
    let ds = sorted_of(digests(ts, p), false);
    if ds.len() == 1 {
        (st.0, st.1.push((p, owners(ts, p, ds[0], ts.len() as int)[0], p)), st.2)
    } else {
        place_all(ts, names, p, ds, st)
    }
}

/// `plan_path` for each path of `ps` in turn.
pub open spec fn plan_paths(ts: Seq<Tree>, names: Seq<Seq<char>>, ps: Seq<Seq<char>>, st: PlanState) -> PlanState
    decreases ps.len(),
{
    if ps.len() == 0 {
        st
    } else {
        plan_path(ts, names, ps.last(), plan_paths(ts, names, ps.drop_last(), st))
    }
}

/// Some path holds a file in one copy and a directory in another.
pub open spec fn clash(ts: Seq<Tree>) -> bool {
    exists|p: Seq<char>| #[trigger] all_paths(ts).contains(p) && all_dirs(ts).contains(p)
}

/// The planning state before any path is planned: every existing path is
/// taken.
pub open spec fn initial_state(ts: Seq<Tree>) -> PlanState {
    (all_paths(ts).union(all_dirs(ts)), seq![], seq![])
}

/// The plan for the copies `ts` whose participants are called `names`:
/// the files of the merged folder, the renames, and its directories in
/// path order; or the error message.
pub open spec fn plan_of(ts: Seq<Tree>, names: Seq<Seq<char>>) -> Result<(Seq<FileEntry>, Seq<RenameEntry>, Seq<Seq<char>>), Seq<char>> {
    if ts.len() != names.len() {
        Err(participants_error())
    } else if clash(ts) {
        Err(clash_error())
    } else {
        let st = plan_paths(ts, names, sorted_of(all_paths(ts), true), initial_state(ts));
        Ok((st.1, st.2, sorted_of(all_dirs(ts), true)))
    }
}

pub open spec fn participants_error() -> Seq<char> {
    "Invalid sync participants."@
}

pub open spec fn clash_error() -> Seq<char> {
    "A file and a directory use the same path on different hosts. Rename one before syncing."@
}

// ---------------------------------------------------------------------------
// Computing it
// ---------------------------------------------------------------------------

fn copy_chars(v: &Vec<char>) -> (r: Vec<char>)
    ensures
        r@ == v@,
{
    slice(v, 0, v.len())
}

/// The tree has a directory (`dirs`) or a file (`!dirs`) at `p`.
pub open spec fn holds(t: Tree, p: Seq<char>, dirs: bool) -> bool {
    if dirs {
        t.has_dir(p)
    } else {
        t.file_hash(p) is Some
    }
}

/// Every path at which one of the copies has a file (`dirs` false) or a
/// directory (`dirs` true), sorted.
#[verifier::spinoff_prover]
fn union_of(trees: &[Tree], dirs: bool) -> (v: Vec<Vec<char>>)
    requires
        forall|i: int| 0 <= i < trees@.len() ==> (#[trigger] trees@[i]).wf(),
    ensures
        sorted(views(v@), true),
        views(v@).to_set() == if dirs {
            all_dirs(trees@)
        } else {
            all_paths(trees@)
        },
{
    let mut v: Vec<Vec<char>> = Vec::new();
    let mut t: usize = 0;
    assert(views(v@).to_set() =~= Set::empty());
    while t < trees.len()
        invariant
            t <= trees@.len(),
            forall|i: int| 0 <= i < trees@.len() ==> (#[trigger] trees@[i]).wf(),
            sorted(views(v@), true),
            views(v@).to_set() == Set::new(
                |p: Seq<char>|
                    exists|i: int|
                        0 <= i < t && #[trigger] holds(trees@[i], p, dirs),
            ),
        decreases trees@.len() - t,
    {
        let tree = &trees[t];
        let ghost before = views(v@).to_set();
        let src = if dirs {
            &tree.dirs
        } else {
            &tree.paths
        };
        let mut k: usize = 0;
        assert(views(src@).take(0).to_set() =~= Set::empty());
        while k < src.len()
            invariant
                k <= src@.len(),
                sorted(views(v@), true),
                views(v@).to_set() == before.union(views(src@).take(k as int).to_set()),
            decreases src@.len() - k,
        {
            insert_sorted(&mut v, copy_chars(&src[k]), true);
            assert(views(src@).take(k + 1) == views(src@).take(k as int).push(src@[k as int]@));
            proof {
                views(src@).take(k as int).lemma_push_to_set_commute(src@[k as int]@);
            }
            k = k + 1;
            assert(views(v@).to_set() =~= before.union(views(src@).take(k as int).to_set()));
        }
        assert(views(src@).take(k as int) == views(src@));
        proof {
            tree.lemma_sets();
            assert forall|p: Seq<char>|
                views(v@).to_set().contains(p) == exists|i: int|
                    0 <= i < t + 1 && #[trigger] holds(trees@[i], p, dirs) by {
                if views(v@).to_set().contains(p) {
                    if !before.contains(p) {
                        assert(views(src@).to_set().contains(p));
                        assert(trees@[t as int] == *tree);
                        assert(holds(trees@[t as int], p, dirs));
                    }
                }
                if exists|i: int|
                    0 <= i < t + 1 && #[trigger] holds(trees@[i], p, dirs) {
                    let i = choose|i: int|
                        0 <= i < t + 1 && #[trigger] holds(trees@[i], p, dirs);
                    if i == t {
                        assert(trees@[t as int] == *tree);
                        assert(views(src@).to_set().contains(p));
                    } else {
                        assert(before.contains(p));
                    }
                }
            }
        }
        t = t + 1;
        assert(views(v@).to_set() =~= Set::new(
            |p: Seq<char>|
                exists|i: int|
                    0 <= i < t && #[trigger] holds(trees@[i], p, dirs),
        ));
    }
    if dirs {
        assert forall|p: Seq<char>| views(v@).to_set().contains(p) == all_dirs(trees@).contains(p) by {
            if all_dirs(trees@).contains(p) {
                let i = choose|i: int| 0 <= i < trees@.len() && #[trigger] trees@[i].has_dir(p);
                assert(holds(trees@[i], p, true));
            }
        }
        assert(views(v@).to_set() =~= all_dirs(trees@));
    } else {
        assert forall|p: Seq<char>| views(v@).to_set().contains(p) == all_paths(trees@).contains(p) by {
            if all_paths(trees@).contains(p) {
                let i = choose|i: int| 0 <= i < trees@.len() && (#[trigger] trees@[i].file_hash(p)) is Some;
                assert(holds(trees@[i], p, false));
            }
            if views(v@).to_set().contains(p) {
                let i = choose|i: int| 0 <= i < trees@.len() && #[trigger] holds(trees@[i], p, false);
                assert(trees@[i].file_hash(p) is Some);
            }
        }
        assert(views(v@).to_set() =~= all_paths(trees@));
    }
    v
}

/// The digests the copies hold at `p`, sorted.
fn version_digests(trees: &[Tree], p: &Vec<char>) -> (v: Vec<Vec<char>>)
    requires
        forall|i: int| 0 <= i < trees@.len() ==> (#[trigger] trees@[i]).wf(),
    ensures
        sorted(views(v@), false),
        views(v@).to_set() == digests(trees@, p@),
{
    let mut v: Vec<Vec<char>> = Vec::new();
    let mut t: usize = 0;
    assert(views(v@).to_set() =~= Set::empty());
    while t < trees.len()
        invariant
            t <= trees@.len(),
            forall|i: int| 0 <= i < trees@.len() ==> (#[trigger] trees@[i]).wf(),
            sorted(views(v@), false),
            views(v@).to_set() == Set::new(
                |d: Seq<char>| exists|i: int| 0 <= i < t && #[trigger] trees@[i].file_hash(p@) == Some(d),
            ),
        decreases trees@.len() - t,
    {
        let ghost before = views(v@).to_set();
        match trees[t].lookup(p) {
            Some(h) => {
                insert_sorted(&mut v, copy_chars(h), false);
            },
            None => {},
        }
        t = t + 1;
        assert(views(v@).to_set() =~= Set::new(
            |d: Seq<char>| exists|i: int| 0 <= i < t && #[trigger] trees@[i].file_hash(p@) == Some(d),
        )) by {
            assert forall|d: Seq<char>|
                (exists|i: int| 0 <= i < t && #[trigger] trees@[i].file_hash(p@) == Some(d)) implies views(
                v@,
            ).to_set().contains(d) by {
                let i = choose|i: int| 0 <= i < t && #[trigger] trees@[i].file_hash(p@) == Some(d);
                if i < t - 1 {
                    assert(before.contains(d));
                }
            }
        }
    }
    assert(views(v@).to_set() =~= digests(trees@, p@));
    v
}

/// What `owners` lists.
pub proof fn lemma_owners(ts: Seq<Tree>, p: Seq<char>, d: Seq<char>, n: int)
    requires
        0 <= n <= ts.len(),
    ensures
        forall|k: int|
            0 <= k < owners(ts, p, d, n).len() ==> {
                let w = #[trigger] owners(ts, p, d, n)[k];
                w < n && ts[w as int].file_hash(p) == Some(d)
            },
        forall|i: int|
            0 <= i < n && #[trigger] ts[i].file_hash(p) == Some(d) ==> owners(ts, p, d, n).contains(
                i as nat,
            ),
        forall|a: int, b: int|
            0 <= a < b < owners(ts, p, d, n).len() ==> #[trigger] owners(ts, p, d, n)[a]
                < #[trigger] owners(ts, p, d, n)[b],
    decreases n,
{
    if n > 0 {
        lemma_owners(ts, p, d, n - 1);
        let o = owners(ts, p, d, n - 1);
        if ts[n - 1].file_hash(p) == Some(d) {
            assert(o.push((n - 1) as nat)[o.len() as int] == (n - 1) as nat);
            assert forall|i: int|
                0 <= i < n && #[trigger] ts[i].file_hash(p) == Some(d) implies owners(
                ts,
                p,
                d,
                n,
            ).contains(i as nat) by {
                if i < n - 1 {
                    let k = choose|k: int| 0 <= k < o.len() && o[k] == i as nat;
                    assert(owners(ts, p, d, n)[k] == i as nat);
                }
            }
        }
    }
}

/// The copies that hold digest `d` at `p`, in order.
fn owners_of(trees: &[Tree], p: &Vec<char>, d: &Vec<char>) -> (o: Vec<usize>)
    requires
        forall|i: int| 0 <= i < trees@.len() ==> (#[trigger] trees@[i]).wf(),
    ensures
        o@.map_values(|x: usize| x as nat) == owners(trees@, p@, d@, trees@.len() as int),
{
    let mut o: Vec<usize> = Vec::new();
    let mut t: usize = 0;
    assert(o@.map_values(|x: usize| x as nat) =~= owners(trees@, p@, d@, 0));
    while t < trees.len()
        invariant
            t <= trees@.len(),
            forall|i: int| 0 <= i < trees@.len() ==> (#[trigger] trees@[i]).wf(),
            o@.map_values(|x: usize| x as nat) == owners(trees@, p@, d@, t as int),
        decreases trees@.len() - t,
    {
        let ghost before = o@.map_values(|x: usize| x as nat);
        let same = match trees[t].lookup(p) {
            Some(h) => eq(h, d),
            None => false,
        };
        if same {
            o.push(t);
            assert(o@.map_values(|x: usize| x as nat) =~= before.push(t as nat));
        }
        t = t + 1;
    }
    o
}

/// Whether `x` is one of the entries of `v`.
fn contains_vec(v: &Vec<Vec<char>>, x: &Vec<char>) -> (r: bool)
    ensures
        r == views(v@).contains(x@),
{
    let mut i: usize = 0;
    while i < v.len()
        invariant
            i <= v@.len(),
            forall|k: int| 0 <= k < i ==> views(v@)[k] != x@,
        decreases v@.len() - i,
    {
        if eq(&v[i], x) {
            assert(views(v@)[i as int] == x@);
            return true;
        }
        i = i + 1;
    }
    false
}

/// The label of a participant's name.
fn label_of(name: &str) -> (r: Vec<char>)
    ensures
        r@ == label(name@),
{
    let cs = chars(name);
    let n: usize = if cs.len() <= 40 {
        cs.len()
    } else {
        40
    };
    let ghost m = cs@.map_values(|c: char| label_char(c));
    let mut r: Vec<char> = Vec::new();
    let mut i: usize = 0;
    while i < n
        invariant
            i <= n <= cs@.len(),
            m == cs@.map_values(|c: char| label_char(c)),
            r@ == m.take(i as int),
        decreases n - i,
    {
        let c = cs[i];
        let keep = is_alphanumeric(c) || c == '-' || c == '_';
        r.push(if keep {
            c
        } else {
            '_'
        });
        i = i + 1;
        assert(r@ =~= m.take(i as int));
    }
    if n == 0 {
        let mut h: Vec<char> = Vec::new();
        h.push('H');
        h.push('o');
        h.push('s');
        h.push('t');
        assert(h@ =~= seq!['H', 'o', 's', 't']);
        return h;
    }
    if cs.len() <= 40 {
        assert(m.take(n as int) =~= m);
    }
    r
}

/// The `k`-th name tried for digest `d` of the file at `p` (see
/// `candidate`).
fn candidate_of(p: &Vec<char>, lab: &Vec<char>, d: &Vec<char>, k: usize) -> (r: Vec<char>)
    requires
        d@.len() >= 8,
    ensures
        r@ == candidate(p@, lab@, d@, k as nat),
{
    let cut = rfind_char(p, '/');
    proof {
        lemma_last_index(p@, '/');
    }
    let (prefix, name) = match cut {
        Some(i) => {
            assert(last_index(p@, '/') == Some(i as int));
            assert(i < p.len());
            (slice(p, 0, i + 1), slice(p, i + 1, p.len()))
        },
        None => (Vec::new(), copy_chars(p)),
    };
    assert(prefix@ == dir_prefix(p@));
    assert(name@ == file_name(p@));
    let mut r = prefix;
    crate::text::push_all(&mut r, lab);
    r.push('_');
    if k > 0 {
        let head = slice(d, 0, 8);
        crate::text::push_all(&mut r, &head);
        r.push('_');
        let digits = decimal_of(k as u64);
        crate::text::push_all(&mut r, &digits);
        r.push('_');
    }
    crate::text::push_all(&mut r, &name);
    assert(r@ =~= candidate(p@, lab@, d@, k as nat));
    r
}

/// No finite set holds more than its size of the numbered names.
proof fn lemma_candidates_bound(res: Set<Seq<char>>, p: Seq<char>, lab: Seq<char>, d: Seq<char>, k: nat)
    requires
        res.finite(),
        d.len() >= 8,
        forall|j: nat| j <= k ==> res.contains(#[trigger] candidate(p, lab, d, j)),
    ensures
        k + 1 <= res.len(),
{
    let s = Seq::new(k + 1, |j: int| candidate(p, lab, d, j as nat));
    assert(s.no_duplicates()) by {
        assert forall|a: int, b: int| 0 <= a < s.len() && 0 <= b < s.len() && a != b implies s[a]
            != s[b] by {
            if s[a] == s[b] {
                lemma_candidate_injective(p, lab, d, a as nat, b as nat);
            }
        }
    }
    s.unique_seq_to_set();
    assert(s.to_set().subset_of(res)) by {
        assert forall|x: Seq<char>| s.to_set().contains(x) implies res.contains(x) by {
            let j = choose|j: int| 0 <= j < s.len() && s[j] == x;
            assert(res.contains(candidate(p, lab, d, j as nat)));
        }
    }
    vstd::set_lib::lemma_len_subset(s.to_set(), res);
}

/// The first free name is the one no earlier name is free before.
proof fn lemma_first_free(res: Set<Seq<char>>, p: Seq<char>, lab: Seq<char>, d: Seq<char>, k: nat)
    requires
        !res.contains(candidate(p, lab, d, k)),
        forall|j: nat| j < k ==> res.contains(#[trigger] candidate(p, lab, d, j)),
    ensures
        first_free(res, p, lab, d) == k,
{
    let f = first_free(res, p, lab, d);
    assert(!res.contains(candidate(p, lab, d, f)) && forall|j: nat|
        j < f ==> res.contains(#[trigger] candidate(p, lab, d, j)));
    if f < k {
        assert(res.contains(candidate(p, lab, d, f)));
    }
    if k < f {
        assert(res.contains(candidate(p, lab, d, k)));
    }
}

/// The files of a plan.
pub struct PlanFile {
    /// Its path in the merged folder.
    pub target: String,
    /// The copy it is taken from.
    pub source: usize,
    /// Its path in that copy.
    pub path: String,
}

impl View for PlanFile {
    type V = FileEntry;

    open spec fn view(&self) -> FileEntry {
        (self.target@, self.source as nat, self.path@)
    }
}

/// A conflict rename of an original file.
pub struct Rename {
    /// The copy: 0 is the local folder, `i` the `i`-th server.
    pub participant: usize,
    pub from: String,
    pub to: String,
    /// The digest the file must still have when it is renamed.
    pub hash: String,
}

impl View for Rename {
    type V = RenameEntry;

    open spec fn view(&self) -> RenameEntry {
        (self.participant as nat, self.from@, self.to@, self.hash@)
    }
}

/// A merge plan: the renames of originals, the files of the merged folder
/// and its directories.
pub struct Plan {
    pub renames: Vec<Rename>,
    pub files: Vec<PlanFile>,
    pub dirs: Vec<String>,
}

pub open spec fn file_entries(v: Seq<PlanFile>) -> Seq<FileEntry> {
    v.map_values(|x: PlanFile| x@)
}

pub open spec fn rename_entries(v: Seq<Rename>) -> Seq<RenameEntry> {
    v.map_values(|x: Rename| x@)
}

pub open spec fn name_views(v: Seq<String>) -> Seq<Seq<char>> {
    v.map_values(|x: String| x@)
}

/// The planning state held by the three lists.
pub open spec fn state_of(reserved: Seq<Vec<char>>, files: Seq<PlanFile>, renames: Seq<Rename>) -> PlanState {
    (views(reserved).to_set(), file_entries(files), rename_entries(renames))
}

#[verifier::spinoff_prover]
fn place_version(
    trees: &[Tree],
    names: &[String],
    p: &Vec<char>,
    d: &Vec<char>,
    reserved: &mut Vec<Vec<char>>,
    files: &mut Vec<PlanFile>,
    renames: &mut Vec<Rename>,
)
    requires
        forall|i: int| 0 <= i < trees@.len() ==> (#[trigger] trees@[i]).wf(),
        trees@.len() == names@.len(),
        digests(trees@, p@).contains(d@),
    ensures
        state_of(final(reserved)@, final(files)@, final(renames)@) == place(
            trees@,
            name_views(names@),
            p@,
            d@,
            state_of(old(reserved)@, old(files)@, old(renames)@),
        ),
{
    reveal(place);
    let ghost ts = trees@;
    let ghost nv = name_views(names@);
    let ghost st = state_of(reserved@, files@, renames@);
    let o = owners_of(trees, p, d);
    let ghost os = owners(ts, p@, d@, ts.len() as int);
    proof {
        lemma_owners(ts, p@, d@, ts.len() as int);
        let i = choose|i: int| 0 <= i < ts.len() && #[trigger] ts[i].file_hash(p@) == Some(d@);
        assert(os.contains(i as nat));
        ts[i].lemma_wf();
        assert(o@.len() == os.len());
    }
    let src = o[0];
    assert(src as nat == os[0]);
    let lab = label_of(names[src].as_str());
    assert(lab@ == label(nv[src as int]));
    let ghost res = views(reserved@).to_set();
    proof {
        views(reserved@).lemma_cardinality_of_set();
    }
    let mut k: usize = 0;
    let mut target = candidate_of(p, &lab, d, 0);
    while contains_vec(reserved, &target)
        invariant
            d@.len() >= 8,
            res == views(reserved@).to_set(),
            res.len() <= reserved@.len(),
            target@ == candidate(p@, lab@, d@, k as nat),
            forall|j: nat| j < k ==> res.contains(#[trigger] candidate(p@, lab@, d@, j)),
            k <= reserved@.len(),
        decreases reserved@.len() - k,
    {
        proof {
            assert(res.contains(candidate(p@, lab@, d@, k as nat)));
            lemma_candidates_bound(res, p@, lab@, d@, k as nat);
        }
        assert(k + 1 <= reserved.len());
        k = k + 1;
        target = candidate_of(p, &lab, d, k);
    }
    proof {
        lemma_first_free(res, p@, lab@, d@, k as nat);
    }
    let ghost t = target@;
    reserved.push(copy_chars(&target));
    proof {
        views(old(reserved)@).lemma_push_to_set_commute(t);
        assert(views(reserved@) == views(old(reserved)@).push(t));
    }
    let from = string_of(p);
    let to = string_of(&target);
    files.push(PlanFile { target: string_of(&target), source: src, path: string_of(p) });
    assert(file_entries(files@) == file_entries(old(files)@).push((t, src as nat, p@)));
    let ghost f = |w: nat| (w, p@, t, d@);
    let mut i: usize = 0;
    while i < o.len()
        invariant
            i <= o@.len(),
            o@.len() == os.len(),
            os == o@.map_values(|x: usize| x as nat),
            from@ == p@,
            to@ == t,
            f == |w: nat| (w, p@, t, d@),
            rename_entries(renames@) == rename_entries(old(renames)@) + os.take(i as int).map_values(f),
        decreases o@.len() - i,
    {
        let ghost prev = rename_entries(renames@);
        let r = Rename { participant: o[i], from: from.clone(), to: to.clone(), hash: string_of(d) };
        assert(r@ == f(os[i as int]));
        renames.push(r);
        assert(rename_entries(renames@) =~= prev.push(f(os[i as int])));
        i = i + 1;
        assert(os.take(i as int) == os.take(i - 1).push(os[i - 1]));
        assert(os.take(i as int).map_values(f) =~= os.take(i - 1).map_values(f).push(f(os[i - 1])));
        assert(rename_entries(renames@) =~= rename_entries(old(renames)@) + os.take(
            i as int,
        ).map_values(f));
    }
    assert(os.take(os.len() as int) == os);
}

#[verifier::spinoff_prover]
fn plan_one(
    trees: &[Tree],
    names: &[String],
    p: &Vec<char>,
    reserved: &mut Vec<Vec<char>>,
    files: &mut Vec<PlanFile>,
    renames: &mut Vec<Rename>,
)
    requires
        forall|i: int| 0 <= i < trees@.len() ==> (#[trigger] trees@[i]).wf(),
        trees@.len() == names@.len(),
    ensures
        state_of(final(reserved)@, final(files)@, final(renames)@) == plan_path(
            trees@,
            name_views(names@),
            p@,
            state_of(old(reserved)@, old(files)@, old(renames)@),
        ),
{
    let ghost ts = trees@;
    let ghost nv = name_views(names@);
    let ghost st = state_of(reserved@, files@, renames@);
    let ds = version_digests(trees, p);
    proof {
        lemma_sorted_of(views(ds@), false);
    }
    let ghost dss = views(ds@);
    assert(dss == sorted_of(digests(ts, p@), false));
    if ds.len() == 1 {
        assert(dss.to_set().contains(dss[0]));
        let o = owners_of(trees, p, &ds[0]);
        let ghost os = owners(ts, p@, dss[0], ts.len() as int);
        proof {
            lemma_owners(ts, p@, dss[0], ts.len() as int);
            let i = choose|i: int| 0 <= i < ts.len() && #[trigger] ts[i].file_hash(p@) == Some(dss[0]);
            assert(os.contains(i as nat));
            assert(o@.len() == os.len());
        }
        files.push(PlanFile { target: string_of(p), source: o[0], path: string_of(p) });
        assert(file_entries(files@) == file_entries(old(files)@).push((p@, os[0], p@)));
        return;
    }
    let mut i: usize = 0;
    assert(dss.take(0) == Seq::<Seq<char>>::empty());
    while i < ds.len()
        invariant
            i <= ds@.len(),
            dss == views(ds@),
            dss.to_set() == digests(ts, p@),
            ts == trees@,
            nv == name_views(names@),
            forall|k: int| 0 <= k < trees@.len() ==> (#[trigger] trees@[k]).wf(),
            trees@.len() == names@.len(),
            state_of(reserved@, files@, renames@) == place_all(ts, nv, p@, dss.take(i as int), st),
        decreases ds@.len() - i,
    {
        assert(dss.to_set().contains(dss[i as int]));
        place_version(trees, names, p, &ds[i], reserved, files, renames);
        i = i + 1;
        assert(dss.take(i as int).drop_last() == dss.take(i - 1));
    }
    assert(dss.take(ds@.len() as int) == dss);
}

/// Plans the merge of the copies `trees`, whose participants are called
/// `names` (the local host first). Fails when the lists differ in length,
/// or when a path is a file in one copy and a directory in another;
/// otherwise the plan is `plan_of`: every path at which the copies agree is
/// kept, and every version of a path at which they differ is kept under a
/// new name that no copy uses, with renames of the originals.
#[verifier::spinoff_prover]
pub fn plan(trees: &[Tree], names: &[String]) -> (r: Result<Plan, String>)
    requires
        forall|i: int| 0 <= i < trees@.len() ==> (#[trigger] trees@[i]).wf(),
    ensures
        match r {
            Ok(plan) => plan_of(trees@, name_views(names@)) == Ok::<
                (Seq<FileEntry>, Seq<RenameEntry>, Seq<Seq<char>>),
                Seq<char>,
            >((file_entries(plan.files@), rename_entries(plan.renames@), name_views(plan.dirs@))),
            Err(e) => plan_of(trees@, name_views(names@)) == Err::<
                (Seq<FileEntry>, Seq<RenameEntry>, Seq<Seq<char>>),
                Seq<char>,
            >(e@),
        },
{
    let ghost ts = trees@;
    let ghost nv = name_views(names@);
    if trees.len() != names.len() {
        return Err(owned("Invalid sync participants."));
    }
    let dirs = union_of(trees, true);
    let paths = union_of(trees, false);
    let ghost pv = views(paths@);
    let ghost dv = views(dirs@);
    let mut i: usize = 0;
    while i < paths.len()
        invariant
            i <= paths@.len(),
            pv == views(paths@),
            dv == views(dirs@),
            pv.to_set() == all_paths(ts),
            dv.to_set() == all_dirs(ts),
            ts == trees@,
            trees@.len() == names@.len(),
            forall|k: int| 0 <= k < i ==> !dv.contains(#[trigger] pv[k]),
        decreases paths@.len() - i,
    {
        if contains_vec(&dirs, &paths[i]) {
            proof {
                assert(pv.to_set().contains(pv[i as int]));
                assert(dv.to_set().contains(pv[i as int]));
                assert(clash(ts));
                assert(name_views(names@).len() == ts.len());
                assert(plan_of(ts, name_views(names@)) == Err::<
                    (Seq<FileEntry>, Seq<RenameEntry>, Seq<Seq<char>>),
                    Seq<char>,
                >(clash_error()));
            }
            return Err(
                owned(
                    "A file and a directory use the same path on different hosts. Rename one before syncing.",
                ),
            );
        }
        i = i + 1;
    }
    proof {
        if clash(ts) {
            let q = choose|q: Seq<char>| #[trigger] all_paths(ts).contains(q) && all_dirs(ts).contains(q);
            assert(pv.to_set().contains(q));
            let k = choose|k: int| 0 <= k < pv.len() && pv[k] == q;
            assert(dv.to_set().contains(q));
        }
    }
    let mut reserved: Vec<Vec<char>> = Vec::new();
    let mut k: usize = 0;
    while k < paths.len()
        invariant
            k <= paths@.len(),
            pv == views(paths@),
            views(reserved@) == pv.take(k as int),
        decreases paths@.len() - k,
    {
        let ghost prev = views(reserved@);
        reserved.push(copy_chars(&paths[k]));
        assert(views(reserved@) =~= prev.push(pv[k as int]));
        k = k + 1;
        assert(views(reserved@) =~= pv.take(k as int));
    }
    let mut k: usize = 0;
    while k < dirs.len()
        invariant
            k <= dirs@.len(),
            pv == views(paths@),
            dv == views(dirs@),
            views(reserved@) == pv + dv.take(k as int),
        decreases dirs@.len() - k,
    {
        let ghost prev = views(reserved@);
        reserved.push(copy_chars(&dirs[k]));
        assert(views(reserved@) =~= prev.push(dv[k as int]));
        k = k + 1;
        assert(views(reserved@) =~= pv + dv.take(k as int));
    }
    assert(dv.take(dv.len() as int) == dv);
    assert(pv.take(pv.len() as int) == pv);
    assert(views(reserved@).to_set() =~= all_paths(ts).union(all_dirs(ts))) by {
        assert forall|q: Seq<char>| views(reserved@).to_set().contains(q) implies all_paths(ts).union(
            all_dirs(ts),
        ).contains(q) by {
            let j = choose|j: int| 0 <= j < views(reserved@).len() && views(reserved@)[j] == q;
            if j < pv.len() {
                assert(pv.to_set().contains(pv[j]));
            } else {
                assert(dv.to_set().contains(dv[j - pv.len()]));
            }
        }
        assert forall|q: Seq<char>| all_paths(ts).union(all_dirs(ts)).contains(q) implies views(
            reserved@,
        ).to_set().contains(q) by {
            if pv.to_set().contains(q) {
                let j = choose|j: int| 0 <= j < pv.len() && pv[j] == q;
                assert(views(reserved@)[j] == q);
            } else {
                assert(dv.to_set().contains(q));
                let j = choose|j: int| 0 <= j < dv.len() && dv[j] == q;
                assert(views(reserved@)[pv.len() + j] == q);
            }
        }
    }
    let mut files: Vec<PlanFile> = Vec::new();
    let mut renames: Vec<Rename> = Vec::new();
    let ghost init = initial_state(ts);
    assert(state_of(reserved@, files@, renames@) == init) by {
        assert(file_entries(files@) =~= Seq::<FileEntry>::empty());
        assert(rename_entries(renames@) =~= Seq::<RenameEntry>::empty());
    }
    let mut i: usize = 0;
    assert(pv.take(0) == Seq::<Seq<char>>::empty());
    while i < paths.len()
        invariant
            i <= paths@.len(),
            pv == views(paths@),
            ts == trees@,
            nv == name_views(names@),
            forall|k: int| 0 <= k < trees@.len() ==> (#[trigger] trees@[k]).wf(),
            trees@.len() == names@.len(),
            state_of(reserved@, files@, renames@) == plan_paths(ts, nv, pv.take(i as int), init),
        decreases paths@.len() - i,
    {
        plan_one(trees, names, &paths[i], &mut reserved, &mut files, &mut renames);
        i = i + 1;
        assert(pv.take(i as int).drop_last() == pv.take(i - 1));
    }
    proof {
        lemma_sorted_of(pv, true);
        lemma_sorted_of(dv, true);
    }
    let mut out_dirs: Vec<String> = Vec::new();
    let mut k: usize = 0;
    while k < dirs.len()
        invariant
            k <= dirs@.len(),
            dv == views(dirs@),
            name_views(out_dirs@) == dv.take(k as int),
        decreases dirs@.len() - k,
    {
        let ghost prev = name_views(out_dirs@);
        out_dirs.push(string_of(&dirs[k]));
        assert(name_views(out_dirs@) =~= prev.push(dv[k as int]));
        k = k + 1;
        assert(name_views(out_dirs@) =~= dv.take(k as int));
    }
    Ok(Plan { renames, files, dirs: out_dirs })
}

// ---------------------------------------------------------------------------
// What every plan guarantees
// ---------------------------------------------------------------------------

/// Every path that a copy uses, for a file or a directory.
pub open spec fn taken(ts: Seq<Tree>) -> Set<Seq<char>> {
    all_paths(ts).union(all_dirs(ts))
}

pub open spec fn paths_upto(ts: Seq<Tree>, n: int, dirs: bool) -> Set<Seq<char>> {
    Set::new(|p: Seq<char>| exists|i: int| 0 <= i < n && #[trigger] holds(ts[i], p, dirs))
}

proof fn lemma_paths_upto_finite(ts: Seq<Tree>, n: int, dirs: bool)
    requires
        0 <= n <= ts.len(),
        forall|i: int| 0 <= i < ts.len() ==> (#[trigger] ts[i]).wf(),
    ensures
        paths_upto(ts, n, dirs).finite(),
    decreases n,
{
    if n == 0 {
        assert(paths_upto(ts, n, dirs) =~= Set::empty());
    } else {
        lemma_paths_upto_finite(ts, n - 1, dirs);
        let t = ts[n - 1];
        t.lemma_sets();
        let own = if dirs {
            views(t.dirs@).to_set()
        } else {
            views(t.paths@).to_set()
        };
        assert(paths_upto(ts, n, dirs) =~= paths_upto(ts, n - 1, dirs).union(own)) by {
            assert forall|p: Seq<char>| paths_upto(ts, n, dirs).contains(p) implies paths_upto(
                ts,
                n - 1,
                dirs,
            ).union(own).contains(p) by {
                let i = choose|i: int| 0 <= i < n && #[trigger] holds(ts[i], p, dirs);
                if i < n - 1 {
                    assert(paths_upto(ts, n - 1, dirs).contains(p));
                }
            }
            assert forall|p: Seq<char>| paths_upto(ts, n - 1, dirs).union(own).contains(p) implies paths_upto(
                ts,
                n,
                dirs,
            ).contains(p) by {
                if own.contains(p) {
                    assert(holds(ts[n - 1], p, dirs));
                } else {
                    let i = choose|i: int| 0 <= i < n - 1 && #[trigger] holds(ts[i], p, dirs);
                }
            }
        }
    }
}

/// The paths, directories and digests of finitely many copies are finite.
pub proof fn lemma_finite(ts: Seq<Tree>)
    requires
        forall|i: int| 0 <= i < ts.len() ==> (#[trigger] ts[i]).wf(),
    ensures
        all_paths(ts).finite(),
        all_dirs(ts).finite(),
        taken(ts).finite(),
        forall|p: Seq<char>| (#[trigger] digests(ts, p)).finite(),
{
    lemma_paths_upto_finite(ts, ts.len() as int, true);
    lemma_paths_upto_finite(ts, ts.len() as int, false);
    assert(all_dirs(ts) =~= paths_upto(ts, ts.len() as int, true)) by {
        assert forall|p: Seq<char>| all_dirs(ts).contains(p) implies paths_upto(ts, ts.len() as int, true).contains(p) by {
            let i = choose|i: int| 0 <= i < ts.len() && #[trigger] ts[i].has_dir(p);
            assert(holds(ts[i], p, true));
        }
    }
    assert(all_paths(ts) =~= paths_upto(ts, ts.len() as int, false)) by {
        assert forall|p: Seq<char>| all_paths(ts).contains(p) implies paths_upto(ts, ts.len() as int, false).contains(p) by {
            let i = choose|i: int| 0 <= i < ts.len() && (#[trigger] ts[i].file_hash(p)) is Some;
            assert(holds(ts[i], p, false));
        }
        assert forall|p: Seq<char>| paths_upto(ts, ts.len() as int, false).contains(p) implies all_paths(ts).contains(p) by {
            let i = choose|i: int| 0 <= i < ts.len() && #[trigger] holds(ts[i], p, false);
            assert(ts[i].file_hash(p) is Some);
        }
    }
    assert forall|p: Seq<char>| (#[trigger] digests(ts, p)).finite() by {
        let all = Seq::new(
            ts.len(),
            |i: int|
                match ts[i].file_hash(p) {
                    Some(h) => h,
                    None => Seq::<char>::empty(),
                },
        );
        assert(digests(ts, p).subset_of(all.to_set())) by {
            assert forall|d: Seq<char>| digests(ts, p).contains(d) implies all.to_set().contains(d) by {
                let i = choose|i: int| 0 <= i < ts.len() && #[trigger] ts[i].file_hash(p) == Some(d);
                assert(all[i] == d);
            }
        }
        vstd::set_lib::lemma_len_subset(digests(ts, p), all.to_set());
    }
}

/// There is a first free name.
proof fn lemma_first_free_exists(res: Set<Seq<char>>, p: Seq<char>, lab: Seq<char>, d: Seq<char>)
    requires
        res.finite(),
        d.len() >= 8,
    ensures
        !res.contains(candidate(p, lab, d, first_free(res, p, lab, d))),
        forall|j: nat| j < first_free(res, p, lab, d) ==> res.contains(#[trigger] candidate(p, lab, d, j)),
{
    let n = res.len();
    if forall|j: nat| j <= n ==> res.contains(#[trigger] candidate(p, lab, d, j)) {
        lemma_candidates_bound(res, p, lab, d, n);
    }
    let k = choose|k: nat| k <= n && !res.contains(#[trigger] candidate(p, lab, d, k));
    lemma_least_free(res, p, lab, d, k);
}

proof fn lemma_least_free(res: Set<Seq<char>>, p: Seq<char>, lab: Seq<char>, d: Seq<char>, k: nat)
    requires
        !res.contains(candidate(p, lab, d, k)),
    ensures
        !res.contains(candidate(p, lab, d, first_free(res, p, lab, d))),
        forall|j: nat| j < first_free(res, p, lab, d) ==> res.contains(#[trigger] candidate(p, lab, d, j)),
    decreases k,
{
    if exists|j: nat| j < k && !res.contains(#[trigger] candidate(p, lab, d, j)) {
        let j = choose|j: nat| j < k && !res.contains(#[trigger] candidate(p, lab, d, j));
        lemma_least_free(res, p, lab, d, j);
    } else {
        lemma_first_free(res, p, lab, d, k);
    }
}

/// A file of the merged folder keeps a real version: its source copy has
/// the file, and its name is either the original path (when every copy that
/// has the path agrees on its content) or a name that no copy uses.
pub open spec fn entry_ok(ts: Seq<Tree>, e: FileEntry) -> bool {
    &&& e.1 < ts.len()
    &&& ts[e.1 as int].file_hash(e.2) is Some
    &&& (e.0 == e.2 && digests(ts, e.2).len() == 1) || !taken(ts).contains(e.0)
}

/// The merged folder has a file at `t` taken from path `p` of a copy whose
/// content there is `d`.
pub open spec fn has_entry(ts: Seq<Tree>, files: Seq<FileEntry>, t: Seq<char>, p: Seq<char>, d: Seq<char>) -> bool {
    exists|k: int|
        0 <= k < files.len() && (#[trigger] files[k]).0 == t && files[k].2 == p
            && ts[files[k].1 as int].file_hash(p) == Some(d)
}

/// A rename moves a file that the copy has with the recorded digest to a
/// name that no copy uses, and the merged folder holds that content there.
pub open spec fn rename_ok(ts: Seq<Tree>, files: Seq<FileEntry>, r: RenameEntry) -> bool {
    &&& r.0 < ts.len()
    &&& ts[r.0 as int].file_hash(r.1) == Some(r.3)
    &&& !taken(ts).contains(r.2)
    &&& has_entry(ts, files, r.2, r.1, r.3)
}

/// What holds of the planning state at every step, with `done` the paths
/// planned so far.
#[verifier::opaque]
pub open spec fn plan_inv(ts: Seq<Tree>, st: PlanState, done: Set<Seq<char>>) -> bool {
    &&& st.0.finite()
    &&& taken(ts).subset_of(st.0)
    &&& forall|k: int|
        0 <= k < st.1.len() ==> entry_ok(ts, #[trigger] st.1[k]) && st.0.contains(st.1[k].0)
            && done.contains(st.1[k].2)
    &&& forall|a: int, b: int|
        0 <= a < b < st.1.len() ==> (#[trigger] st.1[a]).0 != (#[trigger] st.1[b]).0
    &&& forall|k: int| 0 <= k < st.2.len() ==> rename_ok(ts, st.1, #[trigger] st.2[k])
}

/// The merged folder keeps content `d` of path `p`.
pub open spec fn version_kept(ts: Seq<Tree>, files: Seq<FileEntry>, p: Seq<char>, d: Seq<char>) -> bool {
    exists|k: int|
        0 <= k < files.len() && (#[trigger] files[k]).2 == p && ts[files[k].1 as int].file_hash(p)
            == Some(d)
}

/// Copy `i` renames its file at `p`, whose content is `d`.
pub open spec fn renamed(renames: Seq<RenameEntry>, i: nat, p: Seq<char>, d: Seq<char>) -> bool {
    exists|k: int|
        0 <= k < renames.len() && (#[trigger] renames[k]).0 == i && renames[k].1 == p
            && renames[k].3 == d
}

/// Path `p` is fully planned: every content of it is kept, and when the
/// copies disagree every copy renames its file there.
pub open spec fn covered(ts: Seq<Tree>, st: PlanState, p: Seq<char>) -> bool {
    &&& forall|d: Seq<char>| #[trigger] digests(ts, p).contains(d) ==> version_kept(ts, st.1, p, d)
    &&& digests(ts, p).len() != 1 ==> forall|i: int|
        0 <= i < ts.len() && (#[trigger] ts[i].file_hash(p)) is Some ==> renamed(
            st.2,
            i as nat,
            p,
            ts[i].file_hash(p)->0,
        )
}

/// `b` only adds files and renames to those of `a`.
pub open spec fn extends(a: PlanState, b: PlanState) -> bool {
    &&& b.1.len() >= a.1.len()
    &&& b.1.take(a.1.len() as int) == a.1
    &&& b.2.len() >= a.2.len()
    &&& b.2.take(a.2.len() as int) == a.2
}

proof fn lemma_extends_trans(a: PlanState, b: PlanState, c: PlanState)
    requires
        extends(a, b),
        extends(b, c),
    ensures
        extends(a, c),
{
    assert(c.1.take(a.1.len() as int) =~= c.1.take(b.1.len() as int).take(a.1.len() as int));
    assert(c.2.take(a.2.len() as int) =~= c.2.take(b.2.len() as int).take(a.2.len() as int));
}

proof fn lemma_covered_extends(ts: Seq<Tree>, a: PlanState, b: PlanState, p: Seq<char>)
    requires
        extends(a, b),
        covered(ts, a, p),
    ensures
        covered(ts, b, p),
{
    assert forall|d: Seq<char>| #[trigger] digests(ts, p).contains(d) implies version_kept(
        ts,
        b.1,
        p,
        d,
    ) by {
        let k = choose|k: int|
            0 <= k < a.1.len() && (#[trigger] a.1[k]).2 == p && ts[a.1[k].1 as int].file_hash(p)
                == Some(d);
        assert(b.1[k] == a.1.take(a.1.len() as int)[k]);
        assert(b.1.take(a.1.len() as int)[k] == b.1[k]);
    }
    if digests(ts, p).len() != 1 {
        assert forall|i: int|
            0 <= i < ts.len() && (#[trigger] ts[i].file_hash(p)) is Some implies renamed(
            b.2,
            i as nat,
            p,
            ts[i].file_hash(p)->0,
        ) by {
            let d = ts[i].file_hash(p)->0;
            let k = choose|k: int|
                0 <= k < a.2.len() && (#[trigger] a.2[k]).0 == i as nat && a.2[k].1 == p && a.2[k].3
                    == d;
            assert(b.2.take(a.2.len() as int)[k] == b.2[k]);
        }
    }
}

proof fn lemma_rename_ok_extends(ts: Seq<Tree>, f: Seq<FileEntry>, g: Seq<FileEntry>, r: RenameEntry)
    requires
        g.len() >= f.len(),
        g.take(f.len() as int) == f,
        rename_ok(ts, f, r),
    ensures
        rename_ok(ts, g, r),
{
    let k = choose|k: int|
        0 <= k < f.len() && (#[trigger] f[k]).0 == r.2 && f[k].2 == r.1 && ts[f[k].1 as int].file_hash(
            r.1,
        ) == Some(r.3);
    assert(g.take(f.len() as int)[k] == g[k]);
}

#[verifier::spinoff_prover]
#[verifier::rlimit(50)]
proof fn lemma_place(ts: Seq<Tree>, nv: Seq<Seq<char>>, p: Seq<char>, d: Seq<char>, st: PlanState, done: Set<Seq<char>>)
    requires
        forall|i: int| 0 <= i < ts.len() ==> (#[trigger] ts[i]).wf(),
        ts.len() == nv.len(),
        plan_inv(ts, st, done),
        done.contains(p),
        digests(ts, p).contains(d),
        digests(ts, p).len() != 1,
    ensures
        plan_inv(ts, place(ts, nv, p, d, st), done),
        extends(st, place(ts, nv, p, d, st)),
        version_kept(ts, place(ts, nv, p, d, st).1, p, d),
        forall|i: int|
            0 <= i < ts.len() && #[trigger] ts[i].file_hash(p) == Some(d) ==> renamed(
                place(ts, nv, p, d, st).2,
                i as nat,
                p,
                d,
            ),
{
    reveal(place);
    reveal(plan_inv);
    let o = owners(ts, p, d, ts.len() as int);
    lemma_owners(ts, p, d, ts.len() as int);
    let w0 = choose|i: int| 0 <= i < ts.len() && #[trigger] ts[i].file_hash(p) == Some(d);
    assert(o.contains(w0 as nat));
    ts[w0].lemma_wf();
    assert(digest_ok(d));
    let src = o[0];
    let lab = label(nv[src as int]);
    lemma_first_free_exists(st.0, p, lab, d);
    let t = candidate(p, lab, d, first_free(st.0, p, lab, d));
    let nx = place(ts, nv, p, d, st);
    assert(nx.1 == st.1.push((t, src, p)));
    assert(!st.0.contains(t));
    assert(!taken(ts).contains(t));
    let e = (t, src, p);
    assert(entry_ok(ts, e));
    assert(nx.1[st.1.len() as int] == e);
    assert(nx.1.take(st.1.len() as int) =~= st.1);
    assert(nx.2.take(st.2.len() as int) =~= st.2);
    assert(has_entry(ts, nx.1, t, p, d));
    assert forall|k: int| 0 <= k < nx.1.len() implies entry_ok(ts, #[trigger] nx.1[k]) && nx.0.contains(
        nx.1[k].0,
    ) && done.contains(nx.1[k].2) by {
        if k < st.1.len() {
            assert(nx.1[k] == st.1[k]);
        }
    }
    assert forall|a: int, b: int| 0 <= a < b < nx.1.len() implies (#[trigger] nx.1[a]).0
        != (#[trigger] nx.1[b]).0 by {
        assert(nx.1[a] == st.1[a]);
        if b < st.1.len() {
            assert(nx.1[b] == st.1[b]);
        } else {
            assert(st.0.contains(st.1[a].0));
        }
    }
    let f = |w: nat| (w, p, t, d);
    assert forall|k: int| 0 <= k < nx.2.len() implies rename_ok(ts, nx.1, #[trigger] nx.2[k]) by {
        if k < st.2.len() {
            assert(nx.2[k] == st.2[k]);
            lemma_rename_ok_extends(ts, st.1, nx.1, st.2[k]);
        } else {
            let j = k - st.2.len();
            assert(nx.2[k] == f(o[j]));
        }
    }
    assert(version_kept(ts, nx.1, p, d)) by {
        assert(nx.1[st.1.len() as int].2 == p);
    }
    assert forall|i: int| 0 <= i < ts.len() && #[trigger] ts[i].file_hash(p) == Some(d) implies renamed(
        nx.2,
        i as nat,
        p,
        d,
    ) by {
        assert(o.contains(i as nat));
        let j = choose|j: int| 0 <= j < o.len() && o[j] == i as nat;
        assert(nx.2[st.2.len() + j] == f(o[j]));
    }
}

proof fn lemma_kept_extends(ts: Seq<Tree>, a: PlanState, b: PlanState, p: Seq<char>, d: Seq<char>)
    requires
        extends(a, b),
        version_kept(ts, a.1, p, d),
    ensures
        version_kept(ts, b.1, p, d),
{
    let j = choose|j: int|
        0 <= j < a.1.len() && (#[trigger] a.1[j]).2 == p && ts[a.1[j].1 as int].file_hash(p) == Some(d);
    assert(b.1.take(a.1.len() as int)[j] == b.1[j]);
}

proof fn lemma_renamed_extends(a: PlanState, b: PlanState, i: nat, p: Seq<char>, d: Seq<char>)
    requires
        extends(a, b),
        renamed(a.2, i, p, d),
    ensures
        renamed(b.2, i, p, d),
{
    let j = choose|j: int|
        0 <= j < a.2.len() && (#[trigger] a.2[j]).0 == i && a.2[j].1 == p && a.2[j].3 == d;
    assert(b.2.take(a.2.len() as int)[j] == b.2[j]);
}

#[verifier::spinoff_prover]
proof fn lemma_place_all(ts: Seq<Tree>, nv: Seq<Seq<char>>, p: Seq<char>, ds: Seq<Seq<char>>, st: PlanState, done: Set<Seq<char>>)
    requires
        forall|i: int| 0 <= i < ts.len() ==> (#[trigger] ts[i]).wf(),
        ts.len() == nv.len(),
        plan_inv(ts, st, done),
        done.contains(p),
        forall|k: int| 0 <= k < ds.len() ==> digests(ts, p).contains(#[trigger] ds[k]),
        digests(ts, p).len() != 1,
    ensures
        plan_inv(ts, place_all(ts, nv, p, ds, st), done),
        extends(st, place_all(ts, nv, p, ds, st)),
        forall|k: int|
            0 <= k < ds.len() ==> version_kept(ts, place_all(ts, nv, p, ds, st).1, p, #[trigger] ds[k]),
        forall|k: int, i: int|
            0 <= k < ds.len() && 0 <= i < ts.len() && #[trigger] ts[i].file_hash(p) == Some(
                #[trigger] ds[k],
            ) ==> renamed(place_all(ts, nv, p, ds, st).2, i as nat, p, ds[k]),
    decreases ds.len(),
{
    if ds.len() > 0 {
        let rest = ds.drop_last();
        let d = ds.last();
        assert forall|k: int| 0 <= k < rest.len() implies digests(ts, p).contains(#[trigger] rest[k]) by {
            assert(rest[k] == ds[k]);
        }
        lemma_place_all(ts, nv, p, rest, st, done);
        let mid = place_all(ts, nv, p, rest, st);
        assert(digests(ts, p).contains(ds[ds.len() - 1]));
        lemma_place(ts, nv, p, d, mid, done);
        let nx = place(ts, nv, p, d, mid);
        lemma_extends_trans(st, mid, nx);
        assert forall|k: int| 0 <= k < ds.len() implies version_kept(
            ts,
            nx.1,
            p,
            #[trigger] ds[k],
        ) by {
            if k < rest.len() {
                assert(rest[k] == ds[k]);
                lemma_kept_extends(ts, mid, nx, p, ds[k]);
            }
        }
        assert forall|k: int, i: int|
            0 <= k < ds.len() && 0 <= i < ts.len() && #[trigger] ts[i].file_hash(p) == Some(
                #[trigger] ds[k],
            ) implies renamed(nx.2, i as nat, p, ds[k]) by {
            if k < rest.len() {
                assert(rest[k] == ds[k]);
                lemma_renamed_extends(mid, nx, i as nat, p, ds[k]);
            }
        }
    } else {
        assert(st.1.take(st.1.len() as int) =~= st.1);
        assert(st.2.take(st.2.len() as int) =~= st.2);
    }
}

/// The sorted list of a set of sizes other than one has a length other than one.
proof fn lemma_sorted_len(set: Set<Seq<char>>, sf: bool)
    requires
        set.finite(),
    ensures
        sorted_of(set, sf).len() == set.len(),
        sorted(sorted_of(set, sf), sf),
        sorted_of(set, sf).to_set() == set,
{
    crate::order::lemma_sorted_exists(set, sf);
    let s = sorted_of(set, sf);
    lemma_unique(s, sf);
    assert(s.no_duplicates());
    s.unique_seq_to_set();
}

#[verifier::spinoff_prover]
#[verifier::rlimit(50)]
proof fn lemma_plan_path(ts: Seq<Tree>, nv: Seq<Seq<char>>, p: Seq<char>, st: PlanState, done: Set<Seq<char>>)
    requires
        forall|i: int| 0 <= i < ts.len() ==> (#[trigger] ts[i]).wf(),
        ts.len() == nv.len(),
        plan_inv(ts, st, done),
        !done.contains(p),
        all_paths(ts).contains(p),
    ensures
        plan_inv(ts, plan_path(ts, nv, p, st), done.insert(p)),
        extends(st, plan_path(ts, nv, p, st)),
        covered(ts, plan_path(ts, nv, p, st), p),
{
    lemma_finite(ts);
    let ds = sorted_of(digests(ts, p), false);
    lemma_sorted_len(digests(ts, p), false);
    let done2 = done.insert(p);
    reveal(plan_inv);
    assert(plan_inv(ts, st, done2));
    let nx = plan_path(ts, nv, p, st);
    if ds.len() == 1 {
        let d = ds[0];
        assert(ds.to_set().contains(d));
        let o = owners(ts, p, d, ts.len() as int);
        lemma_owners(ts, p, d, ts.len() as int);
        let w0 = choose|i: int| 0 <= i < ts.len() && #[trigger] ts[i].file_hash(p) == Some(d);
        assert(o.contains(w0 as nat));
        let e = (p, o[0], p);
        assert(nx.1 == st.1.push(e));
        assert(entry_ok(ts, e));
        assert(nx.1.take(st.1.len() as int) =~= st.1);
        assert(nx.2.take(st.2.len() as int) =~= st.2);
        assert(taken(ts).contains(p));
        assert forall|k: int| 0 <= k < nx.1.len() implies entry_ok(ts, #[trigger] nx.1[k])
            && nx.0.contains(nx.1[k].0) && done2.contains(nx.1[k].2) by {
            if k < st.1.len() {
                assert(nx.1[k] == st.1[k]);
            }
        }
        assert forall|a: int, b: int| 0 <= a < b < nx.1.len() implies (#[trigger] nx.1[a]).0
            != (#[trigger] nx.1[b]).0 by {
            assert(nx.1[a] == st.1[a]);
            if b < st.1.len() {
                assert(nx.1[b] == st.1[b]);
            } else {
                assert(entry_ok(ts, st.1[a]));
                assert(done.contains(st.1[a].2));
            }
        }
        assert forall|k: int| 0 <= k < nx.2.len() implies rename_ok(ts, nx.1, #[trigger] nx.2[k]) by {
            lemma_rename_ok_extends(ts, st.1, nx.1, st.2[k]);
        }
        assert forall|dd: Seq<char>| #[trigger] digests(ts, p).contains(dd) implies version_kept(
            ts,
            nx.1,
            p,
            dd,
        ) by {
            let j = choose|j: int| 0 <= j < ds.len() && ds[j] == dd;
            assert(nx.1[st.1.len() as int] == e);
        }
    } else {
        assert forall|k: int| 0 <= k < ds.len() implies digests(ts, p).contains(#[trigger] ds[k]) by {
            assert(ds.to_set().contains(ds[k]));
        }
        lemma_place_all(ts, nv, p, ds, st, done2);
        assert forall|dd: Seq<char>| #[trigger] digests(ts, p).contains(dd) implies version_kept(
            ts,
            nx.1,
            p,
            dd,
        ) by {
            let j = choose|j: int| 0 <= j < ds.len() && ds[j] == dd;
            assert(version_kept(ts, nx.1, p, ds[j]));
        }
        assert forall|i: int| 0 <= i < ts.len() && (#[trigger] ts[i].file_hash(p)) is Some implies renamed(
            nx.2,
            i as nat,
            p,
            ts[i].file_hash(p)->0,
        ) by {
            let dd = ts[i].file_hash(p)->0;
            assert(digests(ts, p).contains(dd));
            let j = choose|j: int| 0 <= j < ds.len() && ds[j] == dd;
            assert(ts[i].file_hash(p) == Some(ds[j]));
        }
    }
}

#[verifier::spinoff_prover]
#[verifier::rlimit(50)]
proof fn lemma_plan_paths(ts: Seq<Tree>, nv: Seq<Seq<char>>, ps: Seq<Seq<char>>, st: PlanState)
    requires
        forall|i: int| 0 <= i < ts.len() ==> (#[trigger] ts[i]).wf(),
        ts.len() == nv.len(),
        sorted(ps, true),
        forall|k: int| 0 <= k < ps.len() ==> all_paths(ts).contains(#[trigger] ps[k]),
        plan_inv(ts, st, Set::empty()),
    ensures
        plan_inv(ts, plan_paths(ts, nv, ps, st), ps.to_set()),
        extends(st, plan_paths(ts, nv, ps, st)),
        forall|k: int| 0 <= k < ps.len() ==> covered(ts, plan_paths(ts, nv, ps, st), #[trigger] ps[k]),
    decreases ps.len(),
{
    if ps.len() == 0 {
        assert(ps.to_set() =~= Set::empty());
        assert(st.1.take(st.1.len() as int) =~= st.1);
        assert(st.2.take(st.2.len() as int) =~= st.2);
    } else {
        let rest = ps.drop_last();
        let p = ps.last();
        assert(sorted(rest, true));
        assert forall|k: int| 0 <= k < rest.len() implies all_paths(ts).contains(#[trigger] rest[k]) by {
            assert(rest[k] == ps[k]);
        }
        lemma_plan_paths(ts, nv, rest, st);
        let mid = plan_paths(ts, nv, rest, st);
        assert(!rest.to_set().contains(p)) by {
            if rest.to_set().contains(p) {
                let j = choose|j: int| 0 <= j < rest.len() && rest[j] == p;
                assert(ps[j] == ps[ps.len() - 1]);
                crate::order::lemma_lt_irreflexive(p, true);
            }
        }
        assert(all_paths(ts).contains(ps[ps.len() - 1]));
        lemma_plan_path(ts, nv, p, mid, rest.to_set());
        let nx = plan_path(ts, nv, p, mid);
        assert(ps == rest.push(p));
        rest.lemma_push_to_set_commute(p);
        lemma_extends_trans(st, mid, nx);
        assert forall|k: int| 0 <= k < ps.len() implies covered(ts, nx, #[trigger] ps[k]) by {
            if k < rest.len() {
                assert(rest[k] == ps[k]);
                lemma_covered_extends(ts, mid, nx, ps[k]);
            }
        }
    }
}

/// The final planning state of a successful plan.
pub open spec fn final_state(ts: Seq<Tree>, nv: Seq<Seq<char>>) -> PlanState {
    plan_paths(ts, nv, sorted_of(all_paths(ts), true), initial_state(ts))
}

#[verifier::spinoff_prover]
#[verifier::rlimit(50)]
proof fn lemma_final_state(ts: Seq<Tree>, nv: Seq<Seq<char>>)
    requires
        forall|i: int| 0 <= i < ts.len() ==> (#[trigger] ts[i]).wf(),
        ts.len() == nv.len(),
    ensures
        plan_inv(ts, final_state(ts, nv), all_paths(ts)),
        forall|p: Seq<char>| all_paths(ts).contains(p) ==> #[trigger] covered(ts, final_state(ts, nv), p),
{
    lemma_finite(ts);
    crate::order::lemma_sorted_exists(all_paths(ts), true);
    let ps = sorted_of(all_paths(ts), true);
    let init = initial_state(ts);
    assert(plan_inv(ts, init, Set::empty())) by {
        reveal(plan_inv);
    }
    assert forall|k: int| 0 <= k < ps.len() implies all_paths(ts).contains(#[trigger] ps[k]) by {
        assert(ps.to_set().contains(ps[k]));
    }
    lemma_plan_paths(ts, nv, ps, init);
    assert forall|p: Seq<char>| all_paths(ts).contains(p) implies #[trigger] covered(ts, final_state(ts, nv), p) by {
        assert(ps.to_set().contains(p));
        let k = choose|k: int| 0 <= k < ps.len() && ps[k] == p;
        assert(covered(ts, final_state(ts, nv), ps[k]));
    }
}

/// Every version survives: whatever content a copy has at a path, the
/// merged folder has a file taken from that path with that content.
pub proof fn lemma_every_version_kept(ts: Seq<Tree>, names: Seq<Seq<char>>, i: int, p: Seq<char>)
    requires
        forall|k: int| 0 <= k < ts.len() ==> (#[trigger] ts[k]).wf(),
        plan_of(ts, names) is Ok,
        0 <= i < ts.len(),
        ts[i].file_hash(p) is Some,
    ensures
        exists|k: int|
            0 <= k < plan_of(ts, names)->Ok_0.0.len() && (#[trigger] plan_of(ts, names)->Ok_0.0[k]).2 == p
                && ts[plan_of(ts, names)->Ok_0.0[k].1 as int].file_hash(p) == ts[i].file_hash(p),
{
    lemma_final_state(ts, names);
    let st = final_state(ts, names);
    assert(plan_of(ts, names)->Ok_0.0 == st.1);
    let d = ts[i].file_hash(p)->0;
    assert(all_paths(ts).contains(p));
    assert(covered(ts, st, p));
    assert(digests(ts, p).contains(d));
    assert(version_kept(ts, st.1, p, d));
    let k = choose|k: int|
        0 <= k < st.1.len() && (#[trigger] st.1[k]).2 == p && ts[st.1[k].1 as int].file_hash(p) == Some(
            d,
        );
    assert(plan_of(ts, names)->Ok_0.0[k] == st.1[k]);
}

/// Originals are renamed, never overwritten. No two files of the merged
/// folder share a path; each is taken from a copy that has it, and sits
/// either at its own path (when every copy that has the path agrees on its
/// content) or at a name that no copy uses for a file or a directory. Every
/// rename moves a file that the copy has with the recorded digest to a name
/// that no copy uses, where the merged folder holds that same content.
pub proof fn lemma_never_overwrites(ts: Seq<Tree>, names: Seq<Seq<char>>)
    requires
        forall|k: int| 0 <= k < ts.len() ==> (#[trigger] ts[k]).wf(),
        plan_of(ts, names) is Ok,
    ensures
        forall|a: int, b: int|
            0 <= a < b < plan_of(ts, names)->Ok_0.0.len() ==> (#[trigger] plan_of(
                ts,
                names,
            )->Ok_0.0[a]).0 != (#[trigger] plan_of(ts, names)->Ok_0.0[b]).0,
        forall|k: int|
            0 <= k < plan_of(ts, names)->Ok_0.0.len() ==> entry_ok(
                ts,
                #[trigger] plan_of(ts, names)->Ok_0.0[k],
            ),
        forall|k: int|
            0 <= k < plan_of(ts, names)->Ok_0.1.len() ==> rename_ok(
                ts,
                plan_of(ts, names)->Ok_0.0,
                #[trigger] plan_of(ts, names)->Ok_0.1[k],
            ),
{
    reveal(plan_inv);
    lemma_final_state(ts, names);
    assert(plan_of(ts, names)->Ok_0.0 == final_state(ts, names).1);
    assert(plan_of(ts, names)->Ok_0.1 == final_state(ts, names).2);
}

/// Where the copies disagree about a path, every copy that has it renames
/// its file there, and the merged folder holds that content under the new
/// name.
pub proof fn lemma_conflicts_renamed(ts: Seq<Tree>, names: Seq<Seq<char>>, i: int, p: Seq<char>)
    requires
        forall|k: int| 0 <= k < ts.len() ==> (#[trigger] ts[k]).wf(),
        plan_of(ts, names) is Ok,
        0 <= i < ts.len(),
        ts[i].file_hash(p) is Some,
        digests(ts, p).len() != 1,
    ensures
        exists|k: int|
            0 <= k < plan_of(ts, names)->Ok_0.1.len() && (#[trigger] plan_of(ts, names)->Ok_0.1[k]).0
                == i as nat && plan_of(ts, names)->Ok_0.1[k].1 == p && Some(
                plan_of(ts, names)->Ok_0.1[k].3,
            ) == ts[i].file_hash(p) && has_entry(
                ts,
                plan_of(ts, names)->Ok_0.0,
                plan_of(ts, names)->Ok_0.1[k].2,
                p,
                plan_of(ts, names)->Ok_0.1[k].3,
            ),
{
    reveal(plan_inv);
    lemma_final_state(ts, names);
    let st = final_state(ts, names);
    assert(plan_of(ts, names)->Ok_0.0 == st.1);
    assert(plan_of(ts, names)->Ok_0.1 == st.2);
    assert(all_paths(ts).contains(p));
    assert(covered(ts, st, p));
    let d = ts[i].file_hash(p)->0;
    assert(renamed(st.2, i as nat, p, d));
    let k = choose|k: int|
        0 <= k < st.2.len() && (#[trigger] st.2[k]).0 == i as nat && st.2[k].1 == p && st.2[k].3 == d;
    assert(rename_ok(ts, st.1, st.2[k]));
    assert(plan_of(ts, names)->Ok_0.1[k] == st.2[k]);
}

#[verifier::spinoff_prover]
#[verifier::rlimit(50)]
proof fn lemma_agreeing_paths(ts: Seq<Tree>, nv: Seq<Seq<char>>, ps: Seq<Seq<char>>, st: PlanState)
    requires
        forall|i: int| 0 <= i < ts.len() ==> (#[trigger] ts[i]).wf(),
        forall|k: int| 0 <= k < ps.len() ==> (#[trigger] digests(ts, ps[k])).len() == 1,
    ensures
        plan_paths(ts, nv, ps, st).2 == st.2,
        plan_paths(ts, nv, ps, st).1.len() == st.1.len() + ps.len(),
        forall|k: int|
            0 <= k < ps.len() ==> (#[trigger] plan_paths(ts, nv, ps, st).1[st.1.len() + k]).0 == ps[k]
                && plan_paths(ts, nv, ps, st).1[st.1.len() + k].2 == ps[k]
                && plan_paths(ts, nv, ps, st).1[st.1.len() + k].1 == owners(
                ts,
                ps[k],
                sorted_of(digests(ts, ps[k]), false)[0],
                ts.len() as int,
            )[0],
        forall|k: int| 0 <= k < st.1.len() ==> #[trigger] plan_paths(ts, nv, ps, st).1[k] == st.1[k],
    decreases ps.len(),
{
    if ps.len() > 0 {
        let rest = ps.drop_last();
        let p = ps.last();
        assert forall|k: int| 0 <= k < rest.len() implies (#[trigger] digests(ts, rest[k])).len() == 1 by {
            assert(rest[k] == ps[k]);
        }
        lemma_agreeing_paths(ts, nv, rest, st);
        lemma_finite(ts);
        assert(digests(ts, ps[ps.len() - 1]).len() == 1);
        lemma_sorted_len(digests(ts, p), false);
        let mid = plan_paths(ts, nv, rest, st);
        let nx = plan_path(ts, nv, p, mid);
        assert forall|k: int| 0 <= k < ps.len() implies (#[trigger] nx.1[st.1.len() + k]).0 == ps[k]
            && nx.1[st.1.len() + k].2 == ps[k] && nx.1[st.1.len() + k].1 == owners(
            ts,
            ps[k],
            sorted_of(digests(ts, ps[k]), false)[0],
            ts.len() as int,
        )[0] by {
            if k < rest.len() {
                assert(rest[k] == ps[k]);
                assert(nx.1[st.1.len() + k] == mid.1[st.1.len() + k]);
            }
        }
        assert forall|k: int| 0 <= k < st.1.len() implies #[trigger] nx.1[k] == st.1[k] by {
            assert(nx.1[k] == mid.1[k]);
        }
    }
}

/// When every copy that has a path agrees on its content, as after a
/// completed sync, the plan renames nothing and keeps every path where it
/// is: one file per path, at that path.
pub proof fn lemma_agreement_renames_nothing(ts: Seq<Tree>, names: Seq<Seq<char>>)
    requires
        forall|k: int| 0 <= k < ts.len() ==> (#[trigger] ts[k]).wf(),
        plan_of(ts, names) is Ok,
        forall|p: Seq<char>| all_paths(ts).contains(p) ==> (#[trigger] digests(ts, p)).len() == 1,
    ensures
        plan_of(ts, names)->Ok_0.1.len() == 0,
        plan_of(ts, names)->Ok_0.0.len() == all_paths(ts).len(),
        forall|k: int|
            0 <= k < plan_of(ts, names)->Ok_0.0.len() ==> (#[trigger] plan_of(ts, names)->Ok_0.0[k]).0
                == plan_of(ts, names)->Ok_0.0[k].2,
{
    lemma_finite(ts);
    lemma_sorted_len(all_paths(ts), true);
    let ps = sorted_of(all_paths(ts), true);
    assert forall|k: int| 0 <= k < ps.len() implies (#[trigger] digests(ts, ps[k])).len() == 1 by {
        assert(ps.to_set().contains(ps[k]));
    }
    let init = initial_state(ts);
    lemma_agreeing_paths(ts, names, ps, init);
    let st = final_state(ts, names);
    assert(plan_of(ts, names)->Ok_0.0 == st.1);
    assert(plan_of(ts, names)->Ok_0.1 == st.2);
    assert forall|k: int| 0 <= k < st.1.len() implies (#[trigger] st.1[k]).0 == st.1[k].2 by {
        assert(st.1[0 + k].0 == ps[k]);
    }
}

/// The copy that a path's single content is taken from is the first copy
/// that has the path.
proof fn lemma_single_owner(ts: Seq<Tree>, p: Seq<char>)
    requires
        forall|k: int| 0 <= k < ts.len() ==> (#[trigger] ts[k]).wf(),
        all_paths(ts).contains(p),
        digests(ts, p).len() == 1,
    ensures
        ({
            let w = owners(ts, p, sorted_of(digests(ts, p), false)[0], ts.len() as int)[0];
            &&& w < ts.len()
            &&& ts[w as int].file_hash(p) is Some
            &&& forall|j: int| 0 <= j < w ==> (#[trigger] ts[j].file_hash(p)) is None
        }),
{
    lemma_finite(ts);
    lemma_sorted_len(digests(ts, p), false);
    let ds = sorted_of(digests(ts, p), false);
    let d = ds[0];
    let n = ts.len() as int;
    lemma_owners(ts, p, d, n);
    let o = owners(ts, p, d, n);
    assert(ds.to_set().contains(d));
    assert forall|h: Seq<char>| #[trigger] digests(ts, p).contains(h) implies h == d by {
        assert(ds.to_set().contains(h));
        let m = choose|m: int| 0 <= m < ds.len() && ds[m] == h;
        assert(m == 0);
    }
    let i = choose|i: int| 0 <= i < ts.len() && (#[trigger] ts[i].file_hash(p)) is Some;
    let hi = ts[i].file_hash(p)->0;
    assert(digests(ts, p).contains(hi));
    assert(o.contains(i as nat));
    assert(o.len() > 0);
    assert forall|j: int| 0 <= j < o[0] implies (#[trigger] ts[j].file_hash(p)) is None by {
        if ts[j].file_hash(p) is Some {
            let hj = ts[j].file_hash(p)->0;
            assert(digests(ts, p).contains(hj));
            assert(o.contains(j as nat));
            let m = choose|m: int| 0 <= m < o.len() && o[m] == j as nat;
            if m > 0 {
                assert(o[0] < o[m]);
            }
        }
    }
}

/// When every copy that has a path agrees on its content, as after a
/// completed sync, the merged folder has every path once, in path order,
/// each taken from the first copy that has it (so a file some copies lack
/// comes from the first that holds it), and its directories are those of
/// all copies together, in path order.
pub proof fn lemma_agreement_lowest_holder(ts: Seq<Tree>, names: Seq<Seq<char>>)
    requires
        forall|k: int| 0 <= k < ts.len() ==> (#[trigger] ts[k]).wf(),
        plan_of(ts, names) is Ok,
        forall|p: Seq<char>| all_paths(ts).contains(p) ==> (#[trigger] digests(ts, p)).len() == 1,
    ensures
        plan_of(ts, names)->Ok_0.0.len() == sorted_of(all_paths(ts), true).len(),
        forall|k: int|
            0 <= k < plan_of(ts, names)->Ok_0.0.len() ==> {
                let e = #[trigger] plan_of(ts, names)->Ok_0.0[k];
                &&& e.0 == sorted_of(all_paths(ts), true)[k]
                &&& e.2 == e.0
                &&& e.1 < ts.len()
                &&& ts[e.1 as int].file_hash(e.0) is Some
                &&& forall|j: int| 0 <= j < e.1 ==> (#[trigger] ts[j].file_hash(e.0)) is None
            },
        sorted(plan_of(ts, names)->Ok_0.2, true),
        plan_of(ts, names)->Ok_0.2.to_set() == all_dirs(ts),
{
    lemma_finite(ts);
    lemma_sorted_len(all_paths(ts), true);
    lemma_sorted_len(all_dirs(ts), true);
    let ps = sorted_of(all_paths(ts), true);
    assert forall|k: int| 0 <= k < ps.len() implies (#[trigger] digests(ts, ps[k])).len() == 1 by {
        assert(ps.to_set().contains(ps[k]));
    }
    let init = initial_state(ts);
    lemma_agreeing_paths(ts, names, ps, init);
    let st = final_state(ts, names);
    assert(plan_of(ts, names)->Ok_0.0 == st.1);
    assert forall|k: int| 0 <= k < st.1.len() implies {
        let e = #[trigger] st.1[k];
        &&& e.0 == ps[k]
        &&& e.2 == e.0
        &&& e.1 < ts.len()
        &&& ts[e.1 as int].file_hash(e.0) is Some
        &&& forall|j: int| 0 <= j < e.1 ==> (#[trigger] ts[j].file_hash(e.0)) is None
    } by {
        assert(st.1[0 + k] == st.1[k]);
        assert(ps.to_set().contains(ps[k]));
        lemma_single_owner(ts, ps[k]);
    }
}

/// Rename `r` went to the first free name of its version: a candidate
/// built from the label of the first copy that holds the version, with
/// every earlier candidate already reserved in `res`; and the merged folder
/// holds the version there, taken from that copy.
pub open spec fn named_ok(ts: Seq<Tree>, nv: Seq<Seq<char>>, res: Set<Seq<char>>, files: Seq<FileEntry>, r: RenameEntry) -> bool {
    let o = owners(ts, r.1, r.3, ts.len() as int)[0];
    let lab = label(nv[o as int]);
    &&& exists|m: nat|
        r.2 == #[trigger] candidate(r.1, lab, r.3, m) && forall|j: nat|
            j < m ==> res.contains(#[trigger] candidate(r.1, lab, r.3, j))
    &&& exists|k: int| 0 <= k < files.len() && files[k] == (r.2, o, r.1)
}

/// Every rename so far is named as `named_ok` says, and every reserved name
/// is a path of some copy or the name of a file of the merged folder.
pub open spec fn naming_inv(ts: Seq<Tree>, nv: Seq<Seq<char>>, st: PlanState) -> bool {
    &&& forall|k: int| 0 <= k < st.2.len() ==> named_ok(ts, nv, st.0, st.1, #[trigger] st.2[k])
    &&& forall|x: Seq<char>|
        #[trigger] st.0.contains(x) ==> taken(ts).contains(x) || exists|k: int|
            0 <= k < st.1.len() && st.1[k].0 == x
}

proof fn lemma_named_grows(ts: Seq<Tree>, nv: Seq<Seq<char>>, a: PlanState, b: PlanState, r: RenameEntry)
    requires
        named_ok(ts, nv, a.0, a.1, r),
        a.0.subset_of(b.0),
        extends(a, b),
    ensures
        named_ok(ts, nv, b.0, b.1, r),
{
    let o = owners(ts, r.1, r.3, ts.len() as int)[0];
    let k = choose|k: int| 0 <= k < a.1.len() && a.1[k] == (r.2, o, r.1);
    assert(b.1[k] == b.1.take(a.1.len() as int)[k]);
}

proof fn lemma_naming_grows(ts: Seq<Tree>, nv: Seq<Seq<char>>, a: PlanState, b: PlanState)
    requires
        naming_inv(ts, nv, a),
        a.0.subset_of(b.0),
        extends(a, b),
        forall|k: int| a.2.len() <= k < b.2.len() ==> named_ok(ts, nv, b.0, b.1, #[trigger] b.2[k]),
        forall|x: Seq<char>|
            #[trigger] b.0.contains(x) && !a.0.contains(x) ==> exists|k: int|
                0 <= k < b.1.len() && b.1[k].0 == x,
    ensures
        naming_inv(ts, nv, b),
{
    assert forall|k: int| 0 <= k < b.2.len() implies named_ok(ts, nv, b.0, b.1, #[trigger] b.2[k]) by {
        if k < a.2.len() {
            assert(b.2[k] == b.2.take(a.2.len() as int)[k]);
            lemma_named_grows(ts, nv, a, b, a.2[k]);
        }
    }
    assert forall|x: Seq<char>| #[trigger] b.0.contains(x) implies taken(ts).contains(x) || exists|k: int|
        0 <= k < b.1.len() && b.1[k].0 == x by {
        if a.0.contains(x) && !taken(ts).contains(x) {
            let k = choose|k: int| 0 <= k < a.1.len() && a.1[k].0 == x;
            assert(b.1[k] == b.1.take(a.1.len() as int)[k]);
        }
    }
}

proof fn lemma_place_naming(ts: Seq<Tree>, nv: Seq<Seq<char>>, p: Seq<char>, d: Seq<char>, st: PlanState, done: Set<Seq<char>>)
    requires
        forall|i: int| 0 <= i < ts.len() ==> (#[trigger] ts[i]).wf(),
        ts.len() == nv.len(),
        plan_inv(ts, st, done),
        naming_inv(ts, nv, st),
        done.contains(p),
        digests(ts, p).contains(d),
        digests(ts, p).len() != 1,
    ensures
        naming_inv(ts, nv, place(ts, nv, p, d, st)),
        st.0.subset_of(place(ts, nv, p, d, st).0),
{
    lemma_place(ts, nv, p, d, st, done);
    reveal(place);
    reveal(plan_inv);
    let o = owners(ts, p, d, ts.len() as int);
    lemma_owners(ts, p, d, ts.len() as int);
    let w0 = choose|i: int| 0 <= i < ts.len() && #[trigger] ts[i].file_hash(p) == Some(d);
    assert(o.contains(w0 as nat));
    ts[w0].lemma_wf();
    let src = o[0];
    let lab = label(nv[src as int]);
    lemma_first_free_exists(st.0, p, lab, d);
    let m = first_free(st.0, p, lab, d);
    let t = candidate(p, lab, d, m);
    let nx = place(ts, nv, p, d, st);
    assert(nx.1[st.1.len() as int] == (t, src, p));
    assert forall|k: int| st.2.len() <= k < nx.2.len() implies named_ok(ts, nv, nx.0, nx.1, #[trigger] nx.2[k]) by {
        let j = k - st.2.len();
        assert(nx.2[k] == (o[j], p, t, d));
        assert(forall|jj: nat| jj < m ==> nx.0.contains(#[trigger] candidate(p, lab, d, jj)));
        assert(nx.2[k].2 == candidate(p, lab, d, m));
    }
    assert forall|x: Seq<char>| #[trigger] nx.0.contains(x) && !st.0.contains(x) implies exists|k: int|
        0 <= k < nx.1.len() && nx.1[k].0 == x by {
        assert(x == t);
    }
    lemma_naming_grows(ts, nv, st, nx);
}

proof fn lemma_place_all_naming(ts: Seq<Tree>, nv: Seq<Seq<char>>, p: Seq<char>, ds: Seq<Seq<char>>, st: PlanState, done: Set<Seq<char>>)
    requires
        forall|i: int| 0 <= i < ts.len() ==> (#[trigger] ts[i]).wf(),
        ts.len() == nv.len(),
        plan_inv(ts, st, done),
        naming_inv(ts, nv, st),
        done.contains(p),
        forall|k: int| 0 <= k < ds.len() ==> digests(ts, p).contains(#[trigger] ds[k]),
        digests(ts, p).len() != 1,
    ensures
        naming_inv(ts, nv, place_all(ts, nv, p, ds, st)),
        st.0.subset_of(place_all(ts, nv, p, ds, st).0),
    decreases ds.len(),
{
    if ds.len() > 0 {
        let rest = ds.drop_last();
        assert forall|k: int| 0 <= k < rest.len() implies digests(ts, p).contains(#[trigger] rest[k]) by {
            assert(rest[k] == ds[k]);
        }
        lemma_place_all(ts, nv, p, rest, st, done);
        lemma_place_all_naming(ts, nv, p, rest, st, done);
        let mid = place_all(ts, nv, p, rest, st);
        assert(digests(ts, p).contains(ds[ds.len() - 1]));
        lemma_place_naming(ts, nv, p, ds.last(), mid, done);
    }
}

proof fn lemma_plan_path_naming(ts: Seq<Tree>, nv: Seq<Seq<char>>, p: Seq<char>, st: PlanState, done: Set<Seq<char>>)
    requires
        forall|i: int| 0 <= i < ts.len() ==> (#[trigger] ts[i]).wf(),
        ts.len() == nv.len(),
        plan_inv(ts, st, done),
        naming_inv(ts, nv, st),
        !done.contains(p),
        all_paths(ts).contains(p),
    ensures
        naming_inv(ts, nv, plan_path(ts, nv, p, st)),
        st.0.subset_of(plan_path(ts, nv, p, st).0),
{
    lemma_finite(ts);
    lemma_plan_path(ts, nv, p, st, done);
    let ds = sorted_of(digests(ts, p), false);
    lemma_sorted_len(digests(ts, p), false);
    let done2 = done.insert(p);
    let nx = plan_path(ts, nv, p, st);
    if ds.len() == 1 {
        lemma_naming_grows(ts, nv, st, nx);
    } else {
        assert(plan_inv(ts, st, done2)) by {
            reveal(plan_inv);
        }
        assert forall|k: int| 0 <= k < ds.len() implies digests(ts, p).contains(#[trigger] ds[k]) by {
            assert(ds.to_set().contains(ds[k]));
        }
        lemma_place_all_naming(ts, nv, p, ds, st, done2);
    }
}

proof fn lemma_plan_paths_naming(ts: Seq<Tree>, nv: Seq<Seq<char>>, ps: Seq<Seq<char>>, st: PlanState)
    requires
        forall|i: int| 0 <= i < ts.len() ==> (#[trigger] ts[i]).wf(),
        ts.len() == nv.len(),
        sorted(ps, true),
        forall|k: int| 0 <= k < ps.len() ==> all_paths(ts).contains(#[trigger] ps[k]),
        plan_inv(ts, st, Set::empty()),
        naming_inv(ts, nv, st),
    ensures
        naming_inv(ts, nv, plan_paths(ts, nv, ps, st)),
    decreases ps.len(),
{
    if ps.len() > 0 {
        let rest = ps.drop_last();
        let p = ps.last();
        assert(sorted(rest, true));
        assert forall|k: int| 0 <= k < rest.len() implies all_paths(ts).contains(#[trigger] rest[k]) by {
            assert(rest[k] == ps[k]);
        }
        lemma_plan_paths(ts, nv, rest, st);
        lemma_plan_paths_naming(ts, nv, rest, st);
        let mid = plan_paths(ts, nv, rest, st);
        assert(!rest.to_set().contains(p)) by {
            if rest.to_set().contains(p) {
                let j = choose|j: int| 0 <= j < rest.len() && rest[j] == p;
                assert(ps[j] == ps[ps.len() - 1]);
                crate::order::lemma_lt_irreflexive(p, true);
            }
        }
        assert(all_paths(ts).contains(ps[ps.len() - 1]));
        lemma_plan_path_naming(ts, nv, p, mid, rest.to_set());
    }
}

/// How conflicting versions are named. Each rename of a version takes it
/// to the first free name in the order of `candidate`, built from the label
/// of the first copy that holds that version: every earlier candidate is a
/// path some copy has or the name of another file of the merged folder. The
/// merged folder holds the version there, taken from that first copy. A path
/// whose copies disagree keeps no file at its own name.
pub proof fn lemma_conflict_names(ts: Seq<Tree>, names: Seq<Seq<char>>)
    requires
        forall|k: int| 0 <= k < ts.len() ==> (#[trigger] ts[k]).wf(),
        plan_of(ts, names) is Ok,
    ensures
        forall|k: int|
            0 <= k < plan_of(ts, names)->Ok_0.1.len() ==> {
                let r = #[trigger] plan_of(ts, names)->Ok_0.1[k];
                let files = plan_of(ts, names)->Ok_0.0;
                let o = owners(ts, r.1, r.3, ts.len() as int)[0];
                let lab = label(names[o as int]);
                &&& o < ts.len()
                &&& ts[o as int].file_hash(r.1) == Some(r.3)
                &&& forall|j: int| 0 <= j < o ==> (#[trigger] ts[j].file_hash(r.1)) != Some(r.3)
                &&& exists|m: nat|
                    r.2 == #[trigger] candidate(r.1, lab, r.3, m) && forall|j: nat|
                        j < m ==> taken(ts).contains(#[trigger] candidate(r.1, lab, r.3, j))
                            || exists|f: int| 0 <= f < files.len() && files[f].0 == candidate(r.1, lab, r.3, j)
                &&& exists|f: int| 0 <= f < files.len() && files[f] == (r.2, o, r.1)
            },
        forall|k: int|
            0 <= k < plan_of(ts, names)->Ok_0.0.len() && all_paths(ts).contains(
                (#[trigger] plan_of(ts, names)->Ok_0.0[k]).0,
            ) ==> digests(ts, plan_of(ts, names)->Ok_0.0[k].0).len() == 1,
{
    lemma_never_overwrites(ts, names);
    lemma_finite(ts);
    crate::order::lemma_sorted_exists(all_paths(ts), true);
    let ps = sorted_of(all_paths(ts), true);
    let init = initial_state(ts);
    assert(plan_inv(ts, init, Set::empty())) by {
        reveal(plan_inv);
    }
    assert(naming_inv(ts, names, init));
    assert forall|k: int| 0 <= k < ps.len() implies all_paths(ts).contains(#[trigger] ps[k]) by {
        assert(ps.to_set().contains(ps[k]));
    }
    lemma_plan_paths_naming(ts, names, ps, init);
    let st = final_state(ts, names);
    assert(plan_of(ts, names)->Ok_0.0 == st.1);
    assert(plan_of(ts, names)->Ok_0.1 == st.2);
    assert forall|k: int| 0 <= k < st.2.len() implies {
        let r = #[trigger] st.2[k];
        let o = owners(ts, r.1, r.3, ts.len() as int)[0];
        let lab = label(names[o as int]);
        &&& o < ts.len()
        &&& ts[o as int].file_hash(r.1) == Some(r.3)
        &&& forall|j: int| 0 <= j < o ==> (#[trigger] ts[j].file_hash(r.1)) != Some(r.3)
        &&& exists|m: nat|
            r.2 == #[trigger] candidate(r.1, lab, r.3, m) && forall|j: nat|
                j < m ==> taken(ts).contains(#[trigger] candidate(r.1, lab, r.3, j))
                    || exists|f: int| 0 <= f < st.1.len() && st.1[f].0 == candidate(r.1, lab, r.3, j)
        &&& exists|f: int| 0 <= f < st.1.len() && st.1[f] == (r.2, o, r.1)
    } by {
        let r = st.2[k];
        assert(rename_ok(ts, st.1, r));
        lemma_owners(ts, r.1, r.3, ts.len() as int);
        let ow = owners(ts, r.1, r.3, ts.len() as int);
        assert(ow.contains(r.0));
        let o = ow[0];
        assert forall|j: int| 0 <= j < o implies (#[trigger] ts[j].file_hash(r.1)) != Some(r.3) by {
            if ts[j].file_hash(r.1) == Some(r.3) {
                assert(ow.contains(j as nat));
                let mm = choose|mm: int| 0 <= mm < ow.len() && ow[mm] == j as nat;
                if mm > 0 {
                    assert(ow[0] < ow[mm]);
                }
            }
        }
        assert(named_ok(ts, names, st.0, st.1, r));
    }
    assert forall|k: int|
        0 <= k < st.1.len() && all_paths(ts).contains((#[trigger] st.1[k]).0) implies digests(ts, st.1[k].0).len() == 1 by {
        assert(entry_ok(ts, st.1[k]));
        assert(taken(ts).contains(st.1[k].0));
    }
}

// ---------------------------------------------------------------------------
// Around the plan
// ---------------------------------------------------------------------------

/// Stops a sync between steps once the user asked it to stop.
pub fn check_cancel(cancelled: bool) -> (r: Result<(), String>)
    ensures
        r is Ok == !cancelled,
        r matches Err(e) ==> e@ == "Stopped. Completed copies and conflict renames remain in place."@,
{
    if cancelled {
        Err(owned("Stopped. Completed copies and conflict renames remain in place."))
    } else {
        Ok(())
    }
}

/// The digest in `sha256sum` output: after one optional backslash (which
/// marks an escaped file name), the first 64 characters, which must all be
/// hex digits.
pub open spec fn digest_of(text: Seq<char>) -> Option<Seq<char>> {
    let t = strip_escape(text);
    if t.len() >= 64 && forall|i: int| 0 <= i < 64 ==> crate::text::is_ascii_hex(#[trigger] t[i]) {
        Some(t.take(64))
    } else {
        None
    }
}

/// `text` without one leading backslash.
pub open spec fn strip_escape(text: Seq<char>) -> Seq<char> {
    if text.len() > 0 && text[0] == '\\' {
        text.drop_first()
    } else {
        text
    }
}

/// Reads a SHA-256 digest from the output of `sha256sum`.
pub fn read_digest(stdout: &[u8]) -> (r: Result<String, String>)
    ensures
        match r {
            Ok(d) => digest_of(crate::jobs::utf8_lossy(stdout@)) == Some(d@),
            Err(e) => digest_of(crate::jobs::utf8_lossy(stdout@)) is None && e@
                == "Invalid SHA-256 result."@,
        },
{
    let text = crate::jobs::decode_lossy(stdout);
    let start: usize = if text.len() > 0 && text[0] == '\\' {
        1
    } else {
        0
    };
    let ghost t = strip_escape(text@);
    assert(t == text@.skip(start as int));
    if text.len() - start < 64 {
        return Err(owned("Invalid SHA-256 result."));
    }
    let mut i: usize = 0;
    while i < 64
        invariant
            i <= 64,
            start + 64 <= text.len(),
            text@ == crate::jobs::utf8_lossy(stdout@),
            t == text@.skip(start as int),
            t == strip_escape(text@),
            forall|k: int| 0 <= k < i ==> crate::text::is_ascii_hex(#[trigger] t[k]),
        decreases 64 - i,
    {
        if !crate::text::is_hex(text[start + i]) {
            assert(t[i as int] == text@[start + i]);
            return Err(owned("Invalid SHA-256 result."));
        }
        i = i + 1;
    }
    let d = slice(&text, start, start + 64);
    assert(d@ == t.take(64));
    Ok(string_of(&d))
}

} // verus!
