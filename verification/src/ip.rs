//! The IP address text forms that `std::net` accepts, as grammars.
//!
//! `Ipv4Addr`: four decimal octets separated by `.`, each one to three
//! digits, at most 255, without a leading zero unless the octet is `0`.
//! `Ipv6Addr`: up to eight groups of one to four hex digits separated by `:`,
//! with one optional `::` standing for one or more zero groups, and an
//! optional embedded IPv4 address in place of the last two groups.
use vstd::prelude::*;
use crate::text::{digits_value, is_ascii_digit, is_ascii_hex, is_digit, is_hex};

verus! {

/// The number of consecutive digits (hex or decimal) from `pos`.
pub open spec fn digit_run(s: Seq<char>, pos: int, hex: bool) -> nat
    decreases s.len() - pos,
{
    if 0 <= pos < s.len() && (if hex {
        is_ascii_hex(s[pos])
    } else {
        is_ascii_digit(s[pos])
    }) {
        1 + digit_run(s, pos + 1, hex)
    } else {
        0
    }
}

/// One IPv6 group: one to four hex digits. The position after it.
pub open spec fn read_hex_group(s: Seq<char>, pos: int) -> Option<int> {
    let n = digit_run(s, pos, true);
    if 1 <= n <= 4 {
        Some(pos + n)
    } else {
        None
    }
}

/// One IPv4 octet: one to three decimal digits, at most 255, no leading zero
/// unless it is the only digit. Its value and the position after it.
pub open spec fn read_octet(s: Seq<char>, pos: int) -> Option<(nat, int)> {
    let n = digit_run(s, pos, false);
    let v = digits_value(s.subrange(pos, pos + n));
    if 1 <= n <= 3 && v <= 255 && !(n > 1 && s[pos] == '0') {
        Some((v, pos + n))
    } else {
        None
    }
}

/// `c` at `pos`, then the position after it.
pub open spec fn read_char(s: Seq<char>, pos: int, c: char) -> Option<int> {
    if 0 <= pos < s.len() && s[pos] == c {
        Some(pos + 1)
    } else {
        None
    }
}

/// Four octets separated by dots: the address and the position after it.
pub open spec fn read_ipv4(s: Seq<char>, pos: int) -> Option<(u32, int)> {
    match read_octet(s, pos) {
        None => None,
        Some((a, p1)) => match read_char(s, p1, '.') {
            None => None,
            Some(q1) => match read_octet(s, q1) {
                None => None,
                Some((b, p2)) => match read_char(s, p2, '.') {
                    None => None,
                    Some(q2) => match read_octet(s, q2) {
                        None => None,
                        Some((c, p3)) => match read_char(s, p3, '.') {
                            None => None,
                            Some(q3) => match read_octet(s, q3) {
                                None => None,
                                Some((d, p4)) => Some(
                                    (((a * 16777216 + b * 65536 + c * 256 + d) as u32), p4),
                                ),
                            },
                        },
                    },
                },
            },
        },
    }
}

/// The `:` that precedes every group but the first.
pub open spec fn read_separator(s: Seq<char>, pos: int, index: int) -> Option<int> {
    if index > 0 {
        read_char(s, pos, ':')
    } else {
        Some(pos)
    }
}

/// Reads up to `limit - index` more groups: the number of groups read, whether
/// the last two were an embedded IPv4 address, and the position after them.
pub open spec fn read_groups(s: Seq<char>, pos: int, index: int, limit: int) -> (int, bool, int)
    decreases limit - index,
{
    if index >= limit {
        (limit, false, pos)
    } else {
        let v4 = if index < limit - 1 {
            match read_separator(s, pos, index) {
                Some(p) => match read_ipv4(s, p) {
                    Some((_, q)) => Some(q),
                    None => None,
                },
                None => None,
            }
        } else {
            None
        };
        match v4 {
            Some(q) => (index + 2, true, q),
            None => match read_separator(s, pos, index) {
                Some(p) => match read_hex_group(s, p) {
                    Some(q) => read_groups(s, q, index + 1, limit),
                    None => (index, false, pos),
                },
                None => (index, false, pos),
            },
        }
    }
}

/// The whole text is an IPv6 address, as `str::parse::<Ipv6Addr>` reads it.
pub open spec fn ipv6_text(s: Seq<char>) -> bool {
    let head = read_groups(s, 0, 0, 8);
    if head.0 == 8 {
        head.2 == s.len()
    } else if head.1 {
        false
    } else {
        match read_char(s, head.2, ':') {
            None => false,
            Some(p) => match read_char(s, p, ':') {
                None => false,
                Some(q) => read_groups(s, q, 0, 7 - head.0).2 == s.len(),
            },
        }
    }
}

/// The whole text is an IPv4 address, as `str::parse::<Ipv4Addr>` reads it.
pub open spec fn ipv4_value(s: Seq<char>) -> Option<u32> {
    match read_ipv4(s, 0) {
        Some((v, p)) => if p == s.len() {
            Some(v)
        } else {
            None
        },
        None => None,
    }
}

proof fn lemma_digit_run_bound(s: Seq<char>, pos: int, hex: bool)
    requires
        0 <= pos,
    ensures
        pos + digit_run(s, pos, hex) <= s.len() || digit_run(s, pos, hex) == 0,
        digit_run(s, pos, hex) > 0 ==> pos + digit_run(s, pos, hex) <= s.len(),
    decreases s.len() - pos,
{
    if 0 <= pos < s.len() {
        lemma_digit_run_bound(s, pos + 1, hex);
    }
}

fn is_digit_of(c: char, hex: bool) -> (r: bool)
    ensures
        r == if hex {
            is_ascii_hex(c)
        } else {
            is_ascii_digit(c)
        },
{
    if hex {
        is_hex(c)
    } else {
        is_digit(c)
    }
}

/// Counts the digits from `pos`.
fn run_of(s: &Vec<char>, pos: usize, hex: bool) -> (n: usize)
    requires
        pos <= s.len(),
    ensures
        n == digit_run(s@, pos as int, hex),
        pos + n <= s.len(),
{
    let mut k: usize = 0;
    while pos + k < s.len() && is_digit_of(s[pos + k], hex)
        invariant
            pos + k <= s.len(),
            digit_run(s@, pos as int, hex) == k + digit_run(s@, pos + k, hex),
        decreases s.len() - pos - k,
    {
        k = k + 1;
    }
    k
}

fn hex_group_at(s: &Vec<char>, pos: usize) -> (r: Option<usize>)
    requires
        pos <= s.len(),
    ensures
        r matches Some(q) ==> read_hex_group(s@, pos as int) == Some(q as int) && q <= s.len(),
        r is None ==> read_hex_group(s@, pos as int) is None,
{
    let n = run_of(s, pos, true);
    if 1 <= n && n <= 4 {
        Some(pos + n)
    } else {
        None
    }
}

fn octet_at(s: &Vec<char>, pos: usize) -> (r: Option<(u32, usize)>)
    requires
        pos <= s.len(),
    ensures
        r matches Some((v, q)) ==> read_octet(s@, pos as int) == Some((v as nat, q as int)) && q
            <= s.len(),
        r is None ==> read_octet(s@, pos as int) is None,
{
    let n = run_of(s, pos, false);
    if n < 1 || n > 3 {
        return None;
    }
    let mut v: u32 = 0;
    let mut k: usize = 0;
    while k < n
        invariant
            n <= 3,
            pos + n <= s.len(),
            k <= n,
            v as nat == digits_value(s@.subrange(pos as int, pos + k)),
            v < 1000,
            n == digit_run(s@, pos as int, false),
        decreases n - k,
    {
        proof {
            lemma_run_digits(s@, pos as int, k as int);
        }
        let d = (s[pos + k] as u32) - 48;
        let ghost t = s@.subrange(pos as int, pos + k + 1);
        assert(t.drop_last() == s@.subrange(pos as int, pos + k));
        assert(v * 10 + d < 1000) by {
            assert(k < 3);
            let sub = s@.subrange(pos as int, pos + k);
            assert forall|i: int| 0 <= i < sub.len() implies is_ascii_digit(#[trigger] sub[i]) by {
                lemma_run_digits(s@, pos as int, i);
            }
            lemma_value_bound(sub, k as nat);
        }
        v = v * 10 + d;
        k = k + 1;
    }
    if v > 255 || (n > 1 && s[pos] == '0') {
        return None;
    }
    Some((v, pos + n))
}

proof fn lemma_run_digits(s: Seq<char>, pos: int, k: int)
    requires
        0 <= pos,
        0 <= k < digit_run(s, pos, false),
    ensures
        pos + k < s.len(),
        is_ascii_digit(s[pos + k]),
    decreases k,
{
    if k > 0 {
        lemma_run_digits(s, pos + 1, k - 1);
    }
}

proof fn lemma_value_bound(t: Seq<char>, k: nat)
    requires
        t.len() == k,
        k <= 2,
        forall|i: int| 0 <= i < t.len() ==> is_ascii_digit(#[trigger] t[i]),
    ensures
        digits_value(t) < if k == 0 {
            1nat
        } else if k == 1 {
            10nat
        } else {
            100nat
        },
    decreases k,
{
    if k > 0 {
        lemma_value_bound(t.drop_last(), (k - 1) as nat);
    }
}

fn char_at(s: &Vec<char>, pos: usize, c: char) -> (r: Option<usize>)
    requires
        pos <= s.len(),
    ensures
        r matches Some(q) ==> read_char(s@, pos as int, c) == Some(q as int) && q <= s.len(),
        r is None ==> read_char(s@, pos as int, c) is None,
{
    if pos < s.len() && s[pos] == c {
        Some(pos + 1)
    } else {
        None
    }
}

/// Reads an IPv4 address at `pos`.
pub fn ipv4_at(s: &Vec<char>, pos: usize) -> (r: Option<(u32, usize)>)
    requires
        pos <= s.len(),
    ensures
        r matches Some((v, q)) ==> read_ipv4(s@, pos as int) == Some((v, q as int)) && q
            <= s.len(),
        r is None ==> read_ipv4(s@, pos as int) is None,
{
    let (a, p1) = match octet_at(s, pos) {
        Some(x) => x,
        None => return None,
    };
    let q1 = match char_at(s, p1, '.') {
        Some(x) => x,
        None => return None,
    };
    let (b, p2) = match octet_at(s, q1) {
        Some(x) => x,
        None => return None,
    };
    let q2 = match char_at(s, p2, '.') {
        Some(x) => x,
        None => return None,
    };
    let (c, p3) = match octet_at(s, q2) {
        Some(x) => x,
        None => return None,
    };
    let q3 = match char_at(s, p3, '.') {
        Some(x) => x,
        None => return None,
    };
    let (d, p4) = match octet_at(s, q3) {
        Some(x) => x,
        None => return None,
    };
    Some((a * 16777216 + b * 65536 + c * 256 + d, p4))
}

fn separator_at(s: &Vec<char>, pos: usize, index: usize) -> (r: Option<usize>)
    requires
        pos <= s.len(),
    ensures
        r matches Some(q) ==> read_separator(s@, pos as int, index as int) == Some(q as int) && q
            <= s.len(),
        r is None ==> read_separator(s@, pos as int, index as int) is None,
{
    if index > 0 {
        char_at(s, pos, ':')
    } else {
        Some(pos)
    }
}

fn groups_at(s: &Vec<char>, pos: usize, index: usize, limit: usize) -> (r: (usize, bool, usize))
    requires
        pos <= s.len(),
        index <= limit <= 8,
    ensures
        (r.0 as int, r.1, r.2 as int) == read_groups(s@, pos as int, index as int, limit as int),
        r.2 <= s.len(),
        r.0 <= limit,
    decreases limit - index,
{
    if index >= limit {
        return (limit, false, pos);
    }
    if index < limit - 1 {
        if let Some(p) = separator_at(s, pos, index) {
            if let Some((_, q)) = ipv4_at(s, p) {
                return (index + 2, true, q);
            }
        }
    }
    match separator_at(s, pos, index) {
        Some(p) => match hex_group_at(s, p) {
            Some(q) => groups_at(s, q, index + 1, limit),
            None => (index, false, pos),
        },
        None => (index, false, pos),
    }
}

/// Whether `s` is an IPv6 address in the text form that std accepts.
pub fn is_ipv6(s: &Vec<char>) -> (r: bool)
    ensures
        r == ipv6_text(s@),
{
    let head = groups_at(s, 0, 0, 8);
    if head.0 == 8 {
        return head.2 == s.len();
    }
    if head.1 {
        return false;
    }
    let p = match char_at(s, head.2, ':') {
        Some(p) => p,
        None => return false,
    };
    let q = match char_at(s, p, ':') {
        Some(q) => q,
        None => return false,
    };
    let tail = groups_at(s, q, 0, 7 - head.0);
    tail.2 == s.len()
}

/// The IPv4 address that `s` spells, if it spells one.
pub fn parse_ipv4(s: &Vec<char>) -> (r: Option<u32>)
    ensures
        r == ipv4_value(s@),
{
    match ipv4_at(s, 0) {
        Some((v, p)) => if p == s.len() {
            Some(v)
        } else {
            None
        },
        None => None,
    }
}

// ---------------------------------------------------------------------------
// IPv6 values
// ---------------------------------------------------------------------------

/// The value of a hex digit.
pub open spec fn hex_digit_value(c: char) -> nat {
    if is_ascii_digit(c) {
        ((c as u32) - 48) as nat
    } else if 'a' <= c && c <= 'f' {
        ((c as u32) - 87) as nat
    } else if 'A' <= c && c <= 'F' {
        ((c as u32) - 55) as nat
    } else {
        0
    }
}

/// The value of a run of hex digits.
pub open spec fn hex_value(t: Seq<char>) -> nat
    decreases t.len(),
{
    if t.len() == 0 {
        0
    } else {
        hex_value(t.drop_last()) * 16 + hex_digit_value(t.last())
    }
}

/// The embedded IPv4 address that `read_groups` reads in place of the next
/// two groups, if there is one.
pub open spec fn embedded_v4(s: Seq<char>, pos: int, index: int, limit: int) -> Option<u32> {
    if index < limit - 1 {
        match read_separator(s, pos, index) {
            Some(p) => match read_ipv4(s, p) {
                Some((v, _)) => Some(v),
                None => None,
            },
            None => None,
        }
    } else {
        None
    }
}

/// The values of the groups that `read_groups` reads, an embedded IPv4
/// address counting as two groups.
pub open spec fn group_values(s: Seq<char>, pos: int, index: int, limit: int) -> Seq<nat>
    decreases limit - index,
{
    if index >= limit {
        seq![]
    } else {
        match embedded_v4(s, pos, index, limit) {
            Some(v) => seq![(v / 65536) as nat, (v % 65536) as nat],
            None => match read_separator(s, pos, index) {
                Some(p) => match read_hex_group(s, p) {
                    Some(q) => seq![hex_value(s.subrange(p, q))] + group_values(s, q, index + 1, limit),
                    None => seq![],
                },
                None => seq![],
            },
        }
    }
}

/// The eight groups of the IPv6 address that `s` spells (when `ipv6_text`
/// holds), with `::` standing for the missing zero groups.
pub open spec fn ipv6_groups(s: Seq<char>) -> Seq<nat> {
    let head = read_groups(s, 0, 0, 8);
    let hv = group_values(s, 0, 0, 8);
    if head.0 == 8 {
        hv
    } else {
        let q = head.2 + 2;
        let tv = group_values(s, q, 0, 7 - head.0);
        hv + Seq::new((8 - hv.len() - tv.len()) as nat, |i: int| 0nat) + tv
    }
}

proof fn lemma_group_values(s: Seq<char>, pos: int, index: int, limit: int)
    requires
        0 <= index <= limit,
    ensures
        group_values(s, pos, index, limit).len() == read_groups(s, pos, index, limit).0 - index,
        forall|i: int| 0 <= i < group_values(s, pos, index, limit).len() ==> #[trigger] group_values(s, pos, index, limit)[i] < 65536,
    decreases limit - index,
{
    if index < limit {
        if embedded_v4(s, pos, index, limit) is None {
            if let Some(p) = read_separator(s, pos, index) {
                if let Some(q) = read_hex_group(s, p) {
                    if p >= 0 {
                        lemma_digit_run_bound(s, p, true);
                    }
                    lemma_group_values(s, q, index + 1, limit);
                    lemma_hex_bound(s.subrange(p, q));
                    let rest = group_values(s, q, index + 1, limit);
                    assert forall|i: int| 0 <= i < group_values(s, pos, index, limit).len() implies #[trigger] group_values(s, pos, index, limit)[i] < 65536 by {
                        if i > 0 {
                            assert(group_values(s, pos, index, limit)[i] == rest[i - 1]);
                        }
                    }
                }
            }
        }
    }
}

proof fn lemma_hex_bound(t: Seq<char>)
    requires
        t.len() <= 4,
    ensures
        hex_value(t) < 65536,
{
    lemma_hex_pow(t);
}

proof fn lemma_hex_pow(t: Seq<char>)
    ensures
        t.len() == 0 ==> hex_value(t) < 1,
        t.len() == 1 ==> hex_value(t) < 16,
        t.len() == 2 ==> hex_value(t) < 256,
        t.len() == 3 ==> hex_value(t) < 4096,
        t.len() == 4 ==> hex_value(t) < 65536,
    decreases t.len(),
{
    if t.len() > 0 {
        lemma_hex_pow(t.drop_last());
        assert(hex_digit_value(t.last()) < 16);
    }
}

fn hex_digit_of(c: char) -> (r: u32)
    ensures
        r as nat == hex_digit_value(c),
        r < 16,
{
    if is_digit(c) {
        (c as u32) - 48
    } else if 'a' <= c && c <= 'f' {
        (c as u32) - 87
    } else if 'A' <= c && c <= 'F' {
        (c as u32) - 55
    } else {
        0
    }
}

/// The value of the hex digits `s[p..q]`, at most four of them.
fn hex_value_at(s: &Vec<char>, p: usize, q: usize) -> (r: u32)
    requires
        p <= q <= s.len(),
        q - p <= 4,
    ensures
        r as nat == hex_value(s@.subrange(p as int, q as int)),
        r < 65536,
{
    let mut v: u32 = 0;
    let mut k = p;
    while k < q
        invariant
            p <= k <= q <= s.len(),
            q - p <= 4,
            v as nat == hex_value(s@.subrange(p as int, k as int)),
            v < 65536,
        decreases q - k,
    {
        proof {
            lemma_hex_pow(s@.subrange(p as int, k + 1));
            assert(s@.subrange(p as int, k + 1).drop_last() == s@.subrange(p as int, k as int));
            lemma_hex_pow(s@.subrange(p as int, k as int));
        }
        v = v * 16 + hex_digit_of(s[k]);
        k = k + 1;
    }
    v
}

/// The group values that `groups_at` reads.
fn group_values_at(s: &Vec<char>, pos: usize, index: usize, limit: usize) -> (r: Vec<u16>)
    requires
        pos <= s.len(),
        index <= limit <= 8,
    ensures
        r@.map_values(|x: u16| x as nat) == group_values(s@, pos as int, index as int, limit as int),
    decreases limit - index,
{
    if index >= limit {
        let r: Vec<u16> = Vec::new();
        assert(r@.map_values(|x: u16| x as nat) =~= Seq::<nat>::empty());
        return r;
    }
    if index < limit - 1 {
        if let Some(p) = separator_at(s, pos, index) {
            if let Some((v, _)) = ipv4_at(s, p) {
                let mut r: Vec<u16> = Vec::new();
                r.push((v / 65536) as u16);
                r.push((v % 65536) as u16);
                assert(r@.map_values(|x: u16| x as nat) =~= seq![(v / 65536) as nat, (v % 65536) as nat]);
                return r;
            }
        }
    }
    match separator_at(s, pos, index) {
        Some(p) => match hex_group_at(s, p) {
            Some(q) => {
                proof {
                    lemma_digit_run_bound(s@, p as int, true);
                }
                let first = hex_value_at(s, p, q) as u16;
                let rest = group_values_at(s, q, index + 1, limit);
                let mut r: Vec<u16> = Vec::new();
                r.push(first);
                let mut i: usize = 0;
                while i < rest.len()
                    invariant
                        i <= rest@.len(),
                        r@.map_values(|x: u16| x as nat) == seq![first as nat] + rest@.take(i as int).map_values(|x: u16| x as nat),
                    decreases rest@.len() - i,
                {
                    let ghost prev = r@.map_values(|x: u16| x as nat);
                    r.push(rest[i]);
                    assert(r@.map_values(|x: u16| x as nat) =~= prev.push(rest@[i as int] as nat));
                    i = i + 1;
                    assert(rest@.take(i as int).map_values(|x: u16| x as nat) =~= rest@.take(i - 1).map_values(|x: u16| x as nat).push(rest@[i - 1] as nat));
                    assert(r@.map_values(|x: u16| x as nat) =~= seq![first as nat] + rest@.take(i as int).map_values(|x: u16| x as nat));
                }
                assert(rest@.take(rest@.len() as int) == rest@);
                r
            },
            None => {
                let r: Vec<u16> = Vec::new();
                assert(r@.map_values(|x: u16| x as nat) =~= Seq::<nat>::empty());
                r
            },
        },
        None => {
            let r: Vec<u16> = Vec::new();
            assert(r@.map_values(|x: u16| x as nat) =~= Seq::<nat>::empty());
            r
        },
    }
}

/// The eight groups of the IPv6 address that `s` spells, if it spells one.
pub fn parse_ipv6(s: &Vec<char>) -> (r: Option<Vec<u16>>)
    ensures
        r is Some == ipv6_text(s@),
        r matches Some(g) ==> g@.map_values(|x: u16| x as nat) == ipv6_groups(s@) && g@.len() == 8,
{
    if !is_ipv6(s) {
        return None;
    }
    let head = groups_at(s, 0, 0, 8);
    let hv = group_values_at(s, 0, 0, 8);
    proof {
        lemma_group_values(s@, 0, 0, 8);
    }
    if head.0 == 8 {
        return Some(hv);
    }
    let q = head.2 + 2;
    let tail = groups_at(s, q, 0, 7 - head.0);
    let tv = group_values_at(s, q, 0, 7 - head.0);
    proof {
        lemma_group_values(s@, q as int, 0, 7 - head.0);
    }
    assert(hv@.len() == head.0 && tv@.len() == tail.0);
    let mut g = hv;
    let zeros = 8 - g.len() - tv.len();
    let mut k: usize = 0;
    let ghost base = g@.map_values(|x: u16| x as nat);
    while k < zeros
        invariant
            k <= zeros,
            g@.map_values(|x: u16| x as nat) == base + Seq::new(k as nat, |i: int| 0nat),
        decreases zeros - k,
    {
        let ghost prev = g@.map_values(|x: u16| x as nat);
        g.push(0);
        assert(g@.map_values(|x: u16| x as nat) =~= prev.push(0nat));
        k = k + 1;
        assert(g@.map_values(|x: u16| x as nat) =~= base + Seq::new(k as nat, |i: int| 0nat));
    }
    let ghost mid = g@.map_values(|x: u16| x as nat);
    let mut i: usize = 0;
    while i < tv.len()
        invariant
            i <= tv@.len(),
            g@.map_values(|x: u16| x as nat) == mid + tv@.take(i as int).map_values(|x: u16| x as nat),
        decreases tv@.len() - i,
    {
        let ghost prev = g@.map_values(|x: u16| x as nat);
        g.push(tv[i]);
        assert(g@.map_values(|x: u16| x as nat) =~= prev.push(tv@[i as int] as nat));
        i = i + 1;
        assert(tv@.take(i as int).map_values(|x: u16| x as nat) =~= tv@.take(i - 1).map_values(|x: u16| x as nat).push(tv@[i - 1] as nat));
        assert(g@.map_values(|x: u16| x as nat) =~= mid + tv@.take(i as int).map_values(|x: u16| x as nat));
    }
    assert(tv@.take(tv@.len() as int) == tv@);
    Some(g)
}

// ---------------------------------------------------------------------------
// Writing addresses
// ---------------------------------------------------------------------------

pub open spec fn hex_char(d: nat) -> char {
    if d < 10 {
        ((d + 48) as u32) as char
    } else {
        ((d + 87) as u32) as char
    }
}

/// `{:x}`: lowercase hex digits without leading zeros.
pub open spec fn hex_text(v: nat) -> Seq<char>
    decreases v,
{
    if v < 16 {
        seq![hex_char(v)]
    } else {
        hex_text(v / 16).push(hex_char(v % 16))
    }
}

/// Groups in hex separated by colons.
pub open spec fn colon_hex(gs: Seq<nat>) -> Seq<char>
    decreases gs.len(),
{
    if gs.len() == 0 {
        seq![]
    } else if gs.len() == 1 {
        hex_text(gs[0])
    } else {
        colon_hex(gs.drop_last()) + seq![':'] + hex_text(gs.last())
    }
}

/// The first longest run of zero groups from `i` on, as `(start, length)`,
/// given the longest and the current run before `i`.
pub open spec fn zero_run(gs: Seq<nat>, i: int, longest: (int, int), current: (int, int)) -> (int, int)
    decreases gs.len() - i,
{
    if i < 0 || i >= gs.len() {
        longest
    } else if gs[i] == 0 {
        let cur = if current.1 == 0 {
            (i, 1int)
        } else {
            (current.0, current.1 + 1)
        };
        let lng = if cur.1 > longest.1 {
            cur
        } else {
            longest
        };
        zero_run(gs, i + 1, lng, cur)
    } else {
        zero_run(gs, i + 1, longest, (0int, 0int))
    }
}

/// The dotted form of an IPv4 address.
pub open spec fn ipv4_text(v: nat) -> Seq<char> {
    crate::text::decimal(v / 16777216) + seq!['.'] + crate::text::decimal((v / 65536) % 256)
        + seq!['.'] + crate::text::decimal((v / 256) % 256) + seq!['.'] + crate::text::decimal(v % 256)
}

/// How `Ipv6Addr` writes itself: an IPv4-mapped address as `::ffff:` and
/// the dotted form; otherwise the groups in lowercase hex, with the first
/// longest run of two or more zero groups written `::`.
pub open spec fn ipv6_display(gs: Seq<nat>) -> Seq<char> {
    if gs.len() == 8 && gs[0] == 0 && gs[1] == 0 && gs[2] == 0 && gs[3] == 0 && gs[4] == 0 && gs[5]
        == 65535 {
        seq![':', ':', 'f', 'f', 'f', 'f', ':'] + ipv4_text(gs[6] * 65536 + gs[7])
    } else {
        let z = zero_run(gs, 0, (0int, 0int), (0int, 0int));
        if z.1 > 1 {
            colon_hex(gs.take(z.0)) + seq![':', ':'] + colon_hex(gs.skip(z.0 + z.1))
        } else {
            colon_hex(gs)
        }
    }
}

fn hex_char_of(d: u32) -> (c: char)
    requires
        d < 16,
    ensures
        c == hex_char(d as nat),
{
    if d < 10 {
        crate::text::char_from_ascii(d + 48)
    } else {
        crate::text::char_from_ascii(d + 87)
    }
}

fn hex_text_of(v: u32) -> (r: Vec<char>)
    ensures
        r@ == hex_text(v as nat),
    decreases v,
{
    if v < 16 {
        let mut r: Vec<char> = Vec::new();
        r.push(hex_char_of(v));
        r
    } else {
        let mut r = hex_text_of(v / 16);
        r.push(hex_char_of(v % 16));
        r
    }
}

fn colon_hex_of(gs: &Vec<u16>, start: usize, end: usize) -> (r: Vec<char>)
    requires
        start <= end <= gs.len(),
    ensures
        r@ == colon_hex(gs@.subrange(start as int, end as int).map_values(|x: u16| x as nat)),
{
    let mut r: Vec<char> = Vec::new();
    let mut k = start;
    while k < end
        invariant
            start <= k <= end <= gs.len(),
            r@ == colon_hex(gs@.subrange(start as int, k as int).map_values(|x: u16| x as nat)),
        decreases end - k,
    {
        let ghost prev = gs@.subrange(start as int, k as int).map_values(|x: u16| x as nat);
        let ghost next = gs@.subrange(start as int, k + 1).map_values(|x: u16| x as nat);
        assert(next.drop_last() =~= prev);
        assert(next.last() == gs@[k as int] as nat);
        if k > start {
            r.push(':');
        }
        let h = hex_text_of(gs[k] as u32);
        crate::text::push_all(&mut r, &h);
        k = k + 1;
        assert(r@ =~= colon_hex(next));
    }
    r
}

fn push_decimal(out: &mut Vec<char>, v: u32)
    ensures
        final(out)@ == old(out)@ + crate::text::decimal(v as nat),
{
    let d = crate::text::decimal_of(v as u64);
    crate::text::push_all(out, &d);
}

/// Writes an IPv6 address as `Ipv6Addr`'s `Display` does.
pub fn ipv6_to_string(gs: &Vec<u16>) -> (r: Vec<char>)
    requires
        gs@.len() == 8,
    ensures
        r@ == ipv6_display(gs@.map_values(|x: u16| x as nat)),
{
    let ghost g = gs@.map_values(|x: u16| x as nat);
    if gs[0] == 0 && gs[1] == 0 && gs[2] == 0 && gs[3] == 0 && gs[4] == 0 && gs[5] == 65535 {
        let mut r: Vec<char> = Vec::new();
        r.push(':');
        r.push(':');
        r.push('f');
        r.push('f');
        r.push('f');
        r.push('f');
        r.push(':');
        let v: u32 = (gs[6] as u32) * 65536 + gs[7] as u32;
        push_decimal(&mut r, v / 16777216);
        r.push('.');
        push_decimal(&mut r, (v / 65536) % 256);
        r.push('.');
        push_decimal(&mut r, (v / 256) % 256);
        r.push('.');
        push_decimal(&mut r, v % 256);
        assert(r@ =~= ipv6_display(g));
        return r;
    }
    let mut longest: (usize, usize) = (0, 0);
    let mut current: (usize, usize) = (0, 0);
    let mut i: usize = 0;
    while i < 8
        invariant
            gs@.len() == 8,
            g == gs@.map_values(|x: u16| x as nat),
            i <= 8,
            longest.0 + longest.1 <= i,
            current.0 + current.1 <= i,
            zero_run(g, 0, (0int, 0int), (0int, 0int)) == zero_run(
                g,
                i as int,
                (longest.0 as int, longest.1 as int),
                (current.0 as int, current.1 as int),
            ),
        decreases 8 - i,
    {
        if gs[i] == 0 {
            let cur = if current.1 == 0 {
                (i, 1)
            } else {
                (current.0, current.1 + 1)
            };
            if cur.1 > longest.1 {
                longest = cur;
            }
            current = cur;
        } else {
            current = (0, 0);
        }
        i = i + 1;
    }
    if longest.1 > 1 {
        let mut r = colon_hex_of(gs, 0, longest.0);
        r.push(':');
        r.push(':');
        let tail = colon_hex_of(gs, longest.0 + longest.1, 8);
        crate::text::push_all(&mut r, &tail);
        assert(gs@.subrange(0, longest.0 as int).map_values(|x: u16| x as nat) =~= g.take(longest.0 as int));
        assert(gs@.subrange(longest.0 + longest.1, 8).map_values(|x: u16| x as nat) =~= g.skip(longest.0 + longest.1));
        r
    } else {
        let r = colon_hex_of(gs, 0, 8);
        assert(gs@.subrange(0, 8).map_values(|x: u16| x as nat) =~= g);
        r
    }
}

// ---------------------------------------------------------------------------
// Either kind
// ---------------------------------------------------------------------------

/// An address as a value: `(true, [v])` for IPv4 address `v`, `(false,
/// groups)` for an IPv6 address.
pub type IpView = (bool, Seq<nat>);

/// What `str::parse::<IpAddr>` gives: an IPv4 address if the text is one,
/// else an IPv6 address if it is one.
pub open spec fn ip_value(s: Seq<char>) -> Option<IpView> {
    match ipv4_value(s) {
        Some(v) => Some((true, seq![v as nat])),
        None => if ipv6_text(s) {
            Some((false, ipv6_groups(s)))
        } else {
            None
        },
    }
}

/// How `IpAddr` writes itself.
pub open spec fn ip_text(ip: IpView) -> Seq<char> {
    if ip.0 {
        ipv4_text(ip.1[0])
    } else {
        ipv6_display(ip.1)
    }
}

/// An IP address.
pub enum Ip {
    V4(u32),
    V6(Vec<u16>),
}

impl View for Ip {
    type V = IpView;

    open spec fn view(&self) -> IpView {
        match self {
            Ip::V4(v) => (true, seq![*v as nat]),
            Ip::V6(g) => (false, g@.map_values(|x: u16| x as nat)),
        }
    }
}

impl Ip {
    /// An IPv6 address has eight groups.
    pub open spec fn wf(&self) -> bool {
        match self {
            Ip::V4(_) => true,
            Ip::V6(g) => g@.len() == 8,
        }
    }
}

/// Reads an IPv4 or IPv6 address.
pub fn parse_ip(s: &Vec<char>) -> (r: Option<Ip>)
    ensures
        match r {
            Some(ip) => ip_value(s@) == Some(ip@) && ip.wf(),
            None => ip_value(s@) is None,
        },
{
    match parse_ipv4(s) {
        Some(v) => Some(Ip::V4(v)),
        None => match parse_ipv6(s) {
            Some(g) => Some(Ip::V6(g)),
            None => None,
        },
    }
}

/// Whether two addresses are the same (an IPv4 address never equals an
/// IPv6 one).
pub fn same_ip(a: &Ip, b: &Ip) -> (r: bool)
    requires
        a.wf(),
        b.wf(),
    ensures
        r == (a@ == b@),
{
    match (a, b) {
        (Ip::V4(x), Ip::V4(y)) => {
            if *x == *y {
                true
            } else {
                assert(a@.1[0] != b@.1[0]);
                false
            }
        },
        (Ip::V6(x), Ip::V6(y)) => {
            let mut i: usize = 0;
            while i < 8
                invariant
                    x@.len() == 8,
                    y@.len() == 8,
                    a@.1 == x@.map_values(|v: u16| v as nat),
                    b@.1 == y@.map_values(|v: u16| v as nat),
                    i <= 8,
                    forall|k: int| 0 <= k < i ==> x@[k] == y@[k],
                decreases 8 - i,
            {
                if x[i] != y[i] {
                    assert(a@.1[i as int] != b@.1[i as int]);
                    return false;
                }
                i = i + 1;
            }
            assert(a@.1 =~= b@.1);
            true
        },
        (Ip::V4(_), Ip::V6(_)) => false,
        (Ip::V6(_), Ip::V4(_)) => false,
    }
}

/// Writes an address as `IpAddr`'s `Display` does.
pub fn ip_to_string(ip: &Ip) -> (r: Vec<char>)
    requires
        ip.wf(),
    ensures
        r@ == ip_text(ip@),
{
    match ip {
        Ip::V4(v) => {
            let v = *v;
            let mut r: Vec<char> = Vec::new();
            push_decimal(&mut r, v / 16777216);
            r.push('.');
            push_decimal(&mut r, (v / 65536) % 256);
            r.push('.');
            push_decimal(&mut r, (v / 256) % 256);
            r.push('.');
            push_decimal(&mut r, v % 256);
            assert(r@ =~= ip_text(ip@));
            r
        },
        Ip::V6(g) => ipv6_to_string(g),
    }
}

/// A character that can appear in an address: a hex digit, `:` or `.`.
pub open spec fn address_char(c: char) -> bool {
    is_ascii_hex(c) || c == ':' || c == '.'
}

/// Every character of `s` from `a` up to `b` is an address character.
pub open spec fn address_span(s: Seq<char>, a: int, b: int) -> bool {
    forall|k: int| a <= k < b ==> address_char(#[trigger] s[k])
}

proof fn lemma_digit_run_span(s: Seq<char>, pos: int, hex: bool)
    requires
        0 <= pos <= s.len(),
    ensures
        pos + digit_run(s, pos, hex) <= s.len(),
        address_span(s, pos, pos + digit_run(s, pos, hex)),
    decreases s.len() - pos,
{
    if pos < s.len() && (if hex {
        is_ascii_hex(s[pos])
    } else {
        is_ascii_digit(s[pos])
    }) {
        lemma_digit_run_span(s, pos + 1, hex);
    }
}

proof fn lemma_read_ipv4_span(s: Seq<char>, pos: int)
    requires
        0 <= pos <= s.len(),
    ensures
        read_ipv4(s, pos) matches Some((_, q)) ==> pos <= q <= s.len() && address_span(s, pos, q),
{
    lemma_digit_run_span(s, pos, false);
    if let Some((_, p1)) = read_octet(s, pos) {
        if let Some(q1) = read_char(s, p1, '.') {
            lemma_digit_run_span(s, q1, false);
            if let Some((_, p2)) = read_octet(s, q1) {
                if let Some(q2) = read_char(s, p2, '.') {
                    lemma_digit_run_span(s, q2, false);
                    if let Some((_, p3)) = read_octet(s, q2) {
                        if let Some(q3) = read_char(s, p3, '.') {
                            lemma_digit_run_span(s, q3, false);
                        }
                    }
                }
            }
        }
    }
}

proof fn lemma_read_groups_span(s: Seq<char>, pos: int, index: int, limit: int)
    requires
        0 <= pos <= s.len(),
        0 <= index,
    ensures
        pos <= read_groups(s, pos, index, limit).2 <= s.len(),
        address_span(s, pos, read_groups(s, pos, index, limit).2),
    decreases limit - index,
{
    if index < limit {
        if let Some(p) = read_separator(s, pos, index) {
            lemma_read_ipv4_span(s, p);
            lemma_digit_run_span(s, p, true);
            if let Some(q) = read_hex_group(s, p) {
                lemma_read_groups_span(s, q, index + 1, limit);
            }
        }
    }
}

/// An IPv6 address is written with hex digits, `:` and `.` only.
pub proof fn lemma_ipv6_chars(s: Seq<char>)
    requires
        ipv6_text(s),
    ensures
        address_span(s, 0, s.len() as int),
{
    lemma_read_groups_span(s, 0, 0, 8);
    let head = read_groups(s, 0, 0, 8);
    if head.0 != 8 && !head.1 {
        if let Some(p) = read_char(s, head.2, ':') {
            if let Some(q) = read_char(s, p, ':') {
                lemma_read_groups_span(s, q, 0, 7 - head.0);
            }
        }
    }
}

} // verus!
