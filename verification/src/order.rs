//! Lexicographic orders on character sequences, and sorted lists of them.
//!
//! Strings order by code point (the order of `str`'s `Ord`, which compares
//! UTF-8 bytes). Relative paths order component by component, as
//! `Path`'s `Ord` does; for paths whose components are non-empty this is
//! the code point order with `/` ranked below every other character.
use vstd::prelude::*;

verus! {

pub open spec fn rank(c: char, slash_first: bool) -> int {
    if slash_first && c == '/' {
        -1
    } else {
        (c as u32) as int
    }
}

/// `a` sorts strictly before `b`.
pub open spec fn lex_lt(a: Seq<char>, b: Seq<char>, sf: bool) -> bool
    decreases a.len(),
{
    if a.len() == 0 {
        b.len() > 0
    } else if b.len() == 0 {
        false
    } else if rank(a[0], sf) < rank(b[0], sf) {
        true
    } else if rank(a[0], sf) > rank(b[0], sf) {
        false
    } else {
        lex_lt(a.drop_first(), b.drop_first(), sf)
    }
}

pub proof fn lemma_rank_injective(a: char, b: char, sf: bool)
    ensures
        rank(a, sf) == rank(b, sf) ==> a == b,
{
    if rank(a, sf) == rank(b, sf) {
        if sf && a == '/' {
        } else if sf && b == '/' {
        } else {
            assert(a as u32 == b as u32);
        }
    }
}

pub proof fn lemma_lt_irreflexive(a: Seq<char>, sf: bool)
    ensures
        !lex_lt(a, a, sf),
    decreases a.len(),
{
    if a.len() > 0 {
        lemma_lt_irreflexive(a.drop_first(), sf);
    }
}

pub proof fn lemma_lt_asymmetric(a: Seq<char>, b: Seq<char>, sf: bool)
    ensures
        !(lex_lt(a, b, sf) && lex_lt(b, a, sf)),
    decreases a.len(),
{
    if a.len() > 0 && b.len() > 0 {
        lemma_lt_asymmetric(a.drop_first(), b.drop_first(), sf);
    }
}

pub proof fn lemma_lt_transitive(a: Seq<char>, b: Seq<char>, c: Seq<char>, sf: bool)
    requires
        lex_lt(a, b, sf),
        lex_lt(b, c, sf),
    ensures
        lex_lt(a, c, sf),
    decreases a.len(),
{
    if a.len() > 0 && b.len() > 0 && c.len() > 0 {
        if rank(a[0], sf) == rank(b[0], sf) && rank(b[0], sf) == rank(c[0], sf) {
            lemma_lt_transitive(a.drop_first(), b.drop_first(), c.drop_first(), sf);
        }
    }
}

pub proof fn lemma_lt_total(a: Seq<char>, b: Seq<char>, sf: bool)
    ensures
        a != b ==> lex_lt(a, b, sf) || lex_lt(b, a, sf),
    decreases a.len(),
{
    if a.len() == 0 && b.len() == 0 {
        assert(a =~= b);
    }
    if a != b && a.len() > 0 && b.len() > 0 {
        lemma_rank_injective(a[0], b[0], sf);
        lemma_lt_total(a.drop_first(), b.drop_first(), sf);
        if a.drop_first() == b.drop_first() && a[0] == b[0] {
            assert(a =~= seq![a[0]] + a.drop_first());
            assert(b =~= seq![b[0]] + b.drop_first());
        }
    }
}

/// Whether `a` sorts strictly before `b`.
pub fn less(a: &Vec<char>, b: &Vec<char>, sf: bool) -> (r: bool)
    ensures
        r == lex_lt(a@, b@, sf),
{
    let mut i: usize = 0;
    assert(a@.skip(0) == a@ && b@.skip(0) == b@);
    loop
        invariant
            i <= a.len(),
            i <= b.len(),
            lex_lt(a@, b@, sf) == lex_lt(a@.skip(i as int), b@.skip(i as int), sf),
        decreases a.len() - i,
    {
        if i == a.len() {
            return i < b.len();
        }
        if i == b.len() {
            return false;
        }
        let ca = a[i];
        let cb = b[i];
        assert(a@.skip(i as int)[0] == a@[i as int]);
        assert(b@.skip(i as int)[0] == b@[i as int]);
        if ca != cb {
            if sf && ca == '/' {
                assert(rank(ca, sf) < rank(cb, sf));
                return true;
            }
            if sf && cb == '/' {
                assert(rank(ca, sf) > rank(cb, sf));
                return false;
            }
            proof {
                lemma_rank_injective(ca, cb, sf);
            }
            let r = (ca as u32) < (cb as u32);
            assert(r == (rank(ca, sf) < rank(cb, sf)));
            return r;
        }
        assert(rank(ca, sf) == rank(cb, sf));
        assert(a@.skip(i as int).drop_first() == a@.skip(i + 1));
        assert(b@.skip(i as int).drop_first() == b@.skip(i + 1));
        i = i + 1;
    }
}

/// Strictly increasing: sorted without duplicates.
pub open spec fn sorted(s: Seq<Seq<char>>, sf: bool) -> bool {
    forall|i: int, j: int| 0 <= i < j < s.len() ==> lex_lt(#[trigger] s[i], #[trigger] s[j], sf)
}

/// The sorted list of a finite set.
pub open spec fn sorted_of(set: Set<Seq<char>>, sf: bool) -> Seq<Seq<char>> {
    choose|s: Seq<Seq<char>>| sorted(s, sf) && s.to_set() == set
}

pub proof fn lemma_sorted_unique(s1: Seq<Seq<char>>, s2: Seq<Seq<char>>, sf: bool)
    requires
        sorted(s1, sf),
        sorted(s2, sf),
        s1.to_set() == s2.to_set(),
    ensures
        s1 == s2,
    decreases s1.len(),
{
    if s1.len() == 0 {
        if s2.len() > 0 {
            assert(s2.to_set().contains(s2[0]));
        }
    } else if s2.len() == 0 {
        assert(s1.to_set().contains(s1[0]));
    } else {
        assert(s1.to_set().contains(s1[0]));
        assert(s2.to_set().contains(s2[0]));
        let k = choose|k: int| 0 <= k < s1.len() && s1[k] == s2[0];
        let m = choose|m: int| 0 <= m < s2.len() && s2[m] == s1[0];
        if k > 0 && m > 0 {
            lemma_lt_asymmetric(s1[0], s2[0], sf);
        }
        if k > 0 && m == 0 {
            lemma_lt_irreflexive(s1[0], sf);
        }
        if k == 0 && m > 0 {
            lemma_lt_irreflexive(s2[0], sf);
        }
        assert(s1[0] == s2[0]);
        let t1 = s1.drop_first();
        let t2 = s2.drop_first();
        assert(sorted(t1, sf)) by {
            assert forall|i: int, j: int| 0 <= i < j < t1.len() implies lex_lt(
                #[trigger] t1[i],
                #[trigger] t1[j],
                sf,
            ) by {
                assert(t1[i] == s1[i + 1] && t1[j] == s1[j + 1]);
            }
        }
        assert(sorted(t2, sf)) by {
            assert forall|i: int, j: int| 0 <= i < j < t2.len() implies lex_lt(
                #[trigger] t2[i],
                #[trigger] t2[j],
                sf,
            ) by {
                assert(t2[i] == s2[i + 1] && t2[j] == s2[j + 1]);
            }
        }
        assert(t1.to_set() =~= t2.to_set()) by {
            assert forall|x: Seq<char>| t1.to_set().contains(x) implies t2.to_set().contains(x) by {
                let i = choose|i: int| 0 <= i < t1.len() && t1[i] == x;
                assert(s1.to_set().contains(x));
                let j = choose|j: int| 0 <= j < s2.len() && s2[j] == x;
                if j == 0 {
                    assert(lex_lt(s1[0], s1[i + 1], sf));
                    lemma_lt_irreflexive(x, sf);
                }
                assert(t2[j - 1] == x);
            }
            assert forall|x: Seq<char>| t2.to_set().contains(x) implies t1.to_set().contains(x) by {
                let i = choose|i: int| 0 <= i < t2.len() && t2[i] == x;
                assert(s2.to_set().contains(x));
                let j = choose|j: int| 0 <= j < s1.len() && s1[j] == x;
                if j == 0 {
                    assert(lex_lt(s2[0], s2[i + 1], sf));
                    lemma_lt_irreflexive(x, sf);
                }
                assert(t1[j - 1] == x);
            }
        }
        lemma_sorted_unique(t1, t2, sf);
        assert(s1 =~= seq![s1[0]] + t1);
        assert(s2 =~= seq![s2[0]] + t2);
    }
}

/// A sorted list is the sorted list of its set.
pub proof fn lemma_sorted_of(s: Seq<Seq<char>>, sf: bool)
    requires
        sorted(s, sf),
    ensures
        sorted_of(s.to_set(), sf) == s,
{
    let t = sorted_of(s.to_set(), sf);
    assert(sorted(s, sf) && s.to_set() == s.to_set());
    lemma_sorted_unique(t, s, sf);
}

/// The character sequences held by a list of character vectors.
pub open spec fn views(v: Seq<Vec<char>>) -> Seq<Seq<char>> {
    v.map_values(|x: Vec<char>| x@)
}

/// Where `x` belongs in a sorted list: the number of entries before it, and
/// whether the entry there is `x` itself.
pub fn locate(v: &Vec<Vec<char>>, x: &Vec<char>, sf: bool) -> (r: (usize, bool))
    requires
        sorted(views(v@), sf),
    ensures
        r.0 <= v@.len(),
        forall|i: int| 0 <= i < r.0 ==> lex_lt(#[trigger] views(v@)[i], x@, sf),
        r.1 ==> r.0 < v@.len() && views(v@)[r.0 as int] == x@,
        !r.1 ==> r.0 == v@.len() || lex_lt(x@, views(v@)[r.0 as int], sf),
        r.1 == views(v@).contains(x@),
{
    let ghost s = views(v@);
    let mut j: usize = 0;
    while j < v.len() && less(&v[j], x, sf)
        invariant
            j <= v@.len(),
            s == views(v@),
            sorted(s, sf),
            forall|i: int| 0 <= i < j ==> lex_lt(#[trigger] s[i], x@, sf),
        decreases v.len() - j,
    {
        j = j + 1;
    }
    let found = j < v.len() && crate::text::eq(&v[j], x);
    proof {
        if j < s.len() && !found {
            lemma_lt_total(s[j as int], x@, sf);
        }
        if found {
            assert(s[j as int] == x@);
        } else if s.contains(x@) {
            let k = choose|k: int| 0 <= k < s.len() && s[k] == x@;
            if k < j {
                lemma_lt_irreflexive(x@, sf);
            } else if k > j {
                lemma_lt_transitive(x@, s[j as int], s[k], sf);
                lemma_lt_irreflexive(x@, sf);
            }
        }
    }
    (j, found)
}

/// Putting `x` where `locate` says keeps a sorted list sorted and adds `x`
/// to its set.
pub proof fn lemma_insert_at(s: Seq<Seq<char>>, j: int, x: Seq<char>, sf: bool)
    requires
        sorted(s, sf),
        0 <= j <= s.len(),
        forall|i: int| 0 <= i < j ==> lex_lt(#[trigger] s[i], x, sf),
        j == s.len() || lex_lt(x, s[j], sf),
    ensures
        sorted(s.insert(j, x), sf),
        s.insert(j, x).to_set() == s.to_set().insert(x),
{
    let after = s.insert(j, x);
    assert forall|a: int, b: int| 0 <= a < b < after.len() implies lex_lt(
        #[trigger] after[a],
        #[trigger] after[b],
        sf,
    ) by {
        if a < j && b < j {
        } else if a < j && b == j {
        } else if a < j && b > j {
            assert(after[b] == s[b - 1]);
            if b - 1 > j {
                lemma_lt_transitive(x, s[j], s[b - 1], sf);
            }
            lemma_lt_transitive(s[a], x, s[b - 1], sf);
        } else if a == j {
            assert(after[b] == s[b - 1]);
            if b - 1 > j {
                lemma_lt_transitive(x, s[j], s[b - 1], sf);
            }
        } else {
            assert(after[a] == s[a - 1] && after[b] == s[b - 1]);
        }
    }
    assert(after.to_set() =~= s.to_set().insert(x)) by {
        assert forall|y: Seq<char>| after.to_set().contains(y) implies s.to_set().insert(
            x,
        ).contains(y) by {
            let i = choose|i: int| 0 <= i < after.len() && after[i] == y;
            if i < j {
                assert(s[i] == y);
            } else if i > j {
                assert(s[i - 1] == y);
            }
        }
        assert forall|y: Seq<char>| s.to_set().insert(x).contains(y) implies after.to_set().contains(
            y,
        ) by {
            if y == x {
                assert(after[j] == y);
            } else {
                let i = choose|i: int| 0 <= i < s.len() && s[i] == y;
                if i < j {
                    assert(after[i] == y);
                } else {
                    assert(after[i + 1] == y);
                }
            }
        }
    }
}

/// Inserts `x` into a sorted list, keeping it sorted; nothing changes when
/// it is already there.
pub fn insert_sorted(v: &mut Vec<Vec<char>>, x: Vec<char>, sf: bool)
    requires
        sorted(views(old(v)@), sf),
    ensures
        sorted(views(final(v)@), sf),
        views(final(v)@).to_set() == views(old(v)@).to_set().insert(x@),
{
    let ghost before = views(v@);
    let (j, found) = locate(v, &x, sf);
    if found {
        assert(before.to_set().insert(x@) =~= before.to_set());
        return;
    }
    proof {
        lemma_insert_at(before, j as int, x@, sf);
    }
    let ghost xv = x@;
    v.insert(j, x);
    assert(views(v@) =~= before.insert(j as int, xv));
}

/// Every finite set of character sequences has a sorted list.
pub proof fn lemma_sorted_exists(set: Set<Seq<char>>, sf: bool)
    requires
        set.finite(),
    ensures
        sorted(sorted_of(set, sf), sf),
        sorted_of(set, sf).to_set() == set,
    decreases set.len(),
{
    if set.len() == 0 {
        let e = Seq::<Seq<char>>::empty();
        assert(e.to_set() =~= set);
        assert(sorted(e, sf));
    } else {
        let x = set.choose();
        let rest = set.remove(x);
        lemma_sorted_exists(rest, sf);
        let s = sorted_of(rest, sf);
        let j = insert_position(s, x, sf);
        lemma_insert_position(s, x, sf);
        assert(!s.to_set().contains(x));
        if j < s.len() && s[j] == x {
            assert(s.to_set().contains(s[j]));
        }
        if j < s.len() && s[j] != x {
            lemma_lt_total(s[j], x, sf);
        }
        lemma_insert_at(s, j, x, sf);
        assert(s.insert(j, x).to_set() =~= set);
        assert(sorted(s.insert(j, x), sf) && s.insert(j, x).to_set() == set);
    }
}

/// The number of leading entries of `s` that sort before `x`.
pub open spec fn insert_position(s: Seq<Seq<char>>, x: Seq<char>, sf: bool) -> int
    decreases s.len(),
{
    if s.len() == 0 {
        0
    } else if lex_lt(s[0], x, sf) {
        1 + insert_position(s.drop_first(), x, sf)
    } else {
        0
    }
}

pub proof fn lemma_insert_position(s: Seq<Seq<char>>, x: Seq<char>, sf: bool)
    requires
        sorted(s, sf),
    ensures
        0 <= insert_position(s, x, sf) <= s.len(),
        forall|i: int| 0 <= i < insert_position(s, x, sf) ==> lex_lt(#[trigger] s[i], x, sf),
        insert_position(s, x, sf) < s.len() ==> !lex_lt(s[insert_position(s, x, sf)], x, sf),
    decreases s.len(),
{
    if s.len() > 0 && lex_lt(s[0], x, sf) {
        let t = s.drop_first();
        assert(sorted(t, sf)) by {
            assert forall|a: int, b: int| 0 <= a < b < t.len() implies lex_lt(
                #[trigger] t[a],
                #[trigger] t[b],
                sf,
            ) by {
                assert(t[a] == s[a + 1] && t[b] == s[b + 1]);
            }
        }
        lemma_insert_position(t, x, sf);
        assert forall|i: int| 0 <= i < insert_position(s, x, sf) implies lex_lt(
            #[trigger] s[i],
            x,
            sf,
        ) by {
            if i > 0 {
                assert(s[i] == t[i - 1]);
            }
        }
    }
}

} // verus!
