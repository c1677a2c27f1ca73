//! Finding SSH servers on a local network: the addresses to probe, and how
//! an SSH greeting is recognized.
use vstd::prelude::*;
use crate::text::{chars, owned, parse_unsigned, trim};
use crate::text::{
    decimal, decimal_of, find_char, first_index, lemma_first_index, parse_unsigned_of, push_all,
    slice, string_of, trim_of,
};
use crate::ip::{ip_to_string, ipv4_text, ipv4_value, parse_ipv4, Ip};
use crate::order::{insert_sorted, lemma_sorted_of, sorted, sorted_of, views};
use crate::config::{lines, lines_of};
use crate::jobs::{decode_lossy, utf8_lossy};

verus! {

/// Most addresses one scan probes.
pub const MAX_HOSTS: u32 = 4096;

/// Whether an address is probed: not unspecified, not multicast, not the
/// broadcast address.
pub open spec fn probed(v: u32) -> bool {
    v != 0 && !(224 <= v / 16777216 <= 239) && v != 0xffffffff
}

/// The addresses from `base + from` to `base + to - 1` that are probed, in
/// order.
pub open spec fn probe_list(base: nat, from: nat, to: nat) -> Seq<u32>
    decreases to - from,
{
    if from >= to {
        seq![]
    } else {
        let v = (base + from) as u32;
        if probed(v) {
            seq![v] + probe_list(base, from + 1, to)
        } else {
            probe_list(base, from + 1, to)
        }
    }
}

/// The text before the first `/` and the text after it.
pub open spec fn split_slash(s: Seq<char>) -> Option<(Seq<char>, Seq<char>)> {
    match crate::text::first_index(s, '/') {
        Some(i) => Some((s.take(i), s.skip(i + 1))),
        None => None,
    }
}

/// The addresses a scan of `cidr` probes: the hosts of an IPv4 network of
/// at most 4096 addresses given as `address/prefix` (without the network
/// and broadcast addresses for prefixes up to 30), leaving out unspecified,
/// multicast and broadcast addresses; or why there are none.
pub open spec fn targets_of(cidr: Seq<char>) -> Result<Seq<u32>, Seq<char>> {
    match split_slash(trim(cidr)) {
        None => Err("Enter an IPv4 network, for example 192.168.1.0/24."@),
        Some((a, p)) => match crate::ip::ipv4_value(a) {
            None => Err("Enter a valid IPv4 network."@),
            Some(addr) => match parse_unsigned(p, u32::MAX as nat) {
                None => Err("Invalid network prefix."@),
                Some(prefix) => if !(20 <= prefix <= 32) {
                    Err("Scan at most 4096 addresses at a time: choose a /20 or smaller IPv4 network."@)
                } else {
                    let k = (32 - prefix) as u32;
                    let count = (1u32 << k) as nat;
                    let base = (addr & (0xffffffffu32 << k)) as nat;
                    let list = if prefix <= 30 {
                        probe_list(base, 1, (count - 1) as nat)
                    } else {
                        probe_list(base, 0, count)
                    };
                    if list.len() == 0 {
                        Err("This network has no scannable IPv4 addresses."@)
                    } else {
                        Ok(list)
                    }
                },
            },
        },
    }
}

fn is_probed(v: u32) -> (r: bool)
    ensures
        r == probed(v),
{
    let top = v / 16777216;
    v != 0 && !(224 <= top && top <= 239) && v != 0xffffffff
}

/// Within a network of `2^k` addresses starting at `addr`'s network address,
/// every address lies at its offset from that start and shares `addr`'s top
/// bits, and so does every address that shares them.
proof fn lemma_network_bits(addr: u32, k: u32, o: u32, x: u32)
    by (bit_vector)
    requires
        k <= 12,
    ensures
        (addr & (0xffffffffu32 << k)) + (1u32 << k) <= 0x1_0000_0000,
        k >= 2 ==> (1u32 << k) >= 4,
        o < (1u32 << k) && x == (addr & (0xffffffffu32 << k)) + o ==> x >> k == addr >> k,
        x >> k == addr >> k ==> (addr & (0xffffffffu32 << k)) <= x && x - (addr & (
            0xffffffffu32 << k)) < (1u32 << k),
{
}

/// Addresses with the same top `k` bits, for `k` at most 12, have the same
/// top byte.
proof fn lemma_same_top_byte(x: u32, y: u32, k: u32)
    by (bit_vector)
    requires
        k <= 12,
        x >> k == y >> k,
    ensures
        x / 16777216 == y / 16777216,
{
}

/// The probed addresses from `base + from` to `base + to - 1` are the probed
/// ones among them, in increasing order.
proof fn lemma_probe_list(base: nat, from: nat, to: nat)
    requires
        base + to <= 0x1_0000_0000,
    ensures
        forall|i: int|
            0 <= i < probe_list(base, from, to).len() ==> from <= #[trigger] probe_list(base, from, to)[i]
                - base < to && probed(probe_list(base, from, to)[i]),
        forall|i: int, j: int|
            0 <= i < j < probe_list(base, from, to).len() ==> #[trigger] probe_list(base, from, to)[i]
                < #[trigger] probe_list(base, from, to)[j],
        forall|o: int|
            from <= o < to && #[trigger] probed((base + o) as u32) ==> probe_list(base, from, to).contains(
                (base + o) as u32,
            ),
    decreases to - from,
{
    if from < to {
        let v = (base + from) as u32;
        assert(v == base + from);
        let rest = probe_list(base, from + 1, to);
        lemma_probe_list(base, from + 1, to);
        let l = probe_list(base, from, to);
        if probed(v) {
            assert(l == seq![v] + rest);
            assert forall|i: int| 0 < i < l.len() implies l[i] == rest[i - 1] by {}
            assert forall|o: int| from <= o < to && #[trigger] probed((base + o) as u32) implies l.contains(
                (base + o) as u32,
            ) by {
                if o == from {
                    assert(l[0] == (base + o) as u32);
                } else {
                    let w = (base + o) as u32;
                    let j = choose|j: int| 0 <= j < rest.len() && rest[j] == w;
                    assert(l[j + 1] == w);
                }
            }
        } else {
            assert(l == rest);
        }
    }
}

/// A scan of `address/prefix` probes exactly the probed addresses of that
/// network, in increasing order: each one shares the address's top `prefix`
/// bits, and up to `/30` neither the network address nor the broadcast
/// address is probed, so that the first address probed is the network
/// address plus one.
pub proof fn lemma_targets_network(cidr: Seq<char>, addr: u32, prefix: nat)
    requires
        split_slash(trim(cidr)) matches Some((a, p)) && crate::ip::ipv4_value(a) == Some(addr)
            && parse_unsigned(p, u32::MAX as nat) == Some(prefix),
    ensures
        targets_of(cidr) matches Ok(v) ==> ({
            let k = (32 - prefix) as u32;
            let base = addr & (0xffffffffu32 << k);
            let last = base + (1u32 << k) - 1;
            &&& 20 <= prefix <= 32
            &&& forall|i: int|
                0 <= i < v.len() ==> #[trigger] v[i] >> k == addr >> k && probed(v[i]) && (prefix
                    <= 30 ==> v[i] != base && v[i] != last)
            &&& forall|i: int, j: int| 0 <= i < j < v.len() ==> #[trigger] v[i] < #[trigger] v[j]
            &&& forall|t: u32|
                (t >> k == addr >> k && #[trigger] probed(t) && (prefix <= 30 ==> t != base && t
                    != last)) ==> v.contains(t)
            &&& (prefix <= 30 ==> v[0] == base + 1)
        }),
{
    if let Ok(v) = targets_of(cidr) {
        let k = (32 - prefix) as u32;
        let b32 = addr & (0xffffffffu32 << k);
        let count = (1u32 << k) as nat;
        let base = b32 as nat;
        lemma_network_bits(addr, k, 0, 0);
        let (from, to): (nat, nat) = if prefix <= 30 {
            (1, (count - 1) as nat)
        } else {
            (0, count)
        };
        assert(v == probe_list(base, from, to));
        lemma_probe_list(base, from, to);
        assert forall|i: int| 0 <= i < v.len() implies #[trigger] v[i] >> k == addr >> k && probed(v[i])
            && (prefix <= 30 ==> v[i] != b32 && v[i] != b32 + (1u32 << k) - 1) by {
            let x = v[i];
            let o = (x - base) as u32;
            lemma_network_bits(addr, k, o, x);
        }
        assert forall|t: u32|
            (t >> k == addr >> k && #[trigger] probed(t) && (prefix <= 30 ==> t != b32 && t != b32
                + (1u32 << k) - 1)) implies v.contains(t) by {
            lemma_network_bits(addr, k, 0, t);
            let o: int = t - base;
            assert((base + o) as u32 == t);
        }
        if prefix <= 30 {
            lemma_network_bits(addr, k, 1, (base + 1) as u32);
            let first = (base + 1) as u32;
            assert(first == base + 1);
            if probed(first) {
                assert(probe_list(base, 1, to) == seq![first] + probe_list(base, 2, to));
            } else {
                let x = v[0];
                lemma_network_bits(addr, k, (x - base) as u32, x);
                lemma_same_top_byte(x, first, k);
            }
        }
    }
}

/// The addresses to probe for a network written `address/prefix`.
pub fn targets(cidr: &str) -> (r: Result<Vec<u32>, String>)
    ensures
        match r {
            Ok(v) => targets_of(cidr@) == Ok::<Seq<u32>, Seq<char>>(v@),
            Err(e) => targets_of(cidr@) == Err::<Seq<u32>, Seq<char>>(e@),
        },
{
    let t = crate::text::trim_of(&chars(cidr));
    let cut = crate::text::find_char(&t, '/');
    proof {
        crate::text::lemma_first_index(t@, '/');
    }
    let i = match cut {
        Some(i) => i,
        None => return Err(owned("Enter an IPv4 network, for example 192.168.1.0/24.")),
    };
    let a = crate::text::slice(&t, 0, i);
    let p = crate::text::slice(&t, i + 1, t.len());
    assert(split_slash(t@) == Some((a@, p@)));
    let addr = match crate::ip::parse_ipv4(&a) {
        Some(v) => v,
        None => return Err(owned("Enter a valid IPv4 network.")),
    };
    let prefix = match crate::text::parse_unsigned_of(&p, 0xffffffff) {
        Some(v) => v,
        None => return Err(owned("Invalid network prefix.")),
    };
    if !(20 <= prefix && prefix <= 32) {
        return Err(owned("Scan at most 4096 addresses at a time: choose a /20 or smaller IPv4 network."));
    }
    let k: u32 = (32 - prefix) as u32;
    let count: u32 = 1u32 << k;
    let base: u32 = addr & (0xffffffffu32 << k);
    assert(count <= 4096 && count >= 1 && base as int + count as int - 1 <= 0xffffffff) by (bit_vector)
        requires
            k <= 12,
            count == 1u32 << k,
            base == addr & (0xffffffffu32 << k),
    ;
    if count > MAX_HOSTS {
        return Err(owned("Network is too large."));
    }
    let (from, to): (u32, u32) = if prefix <= 30 {
        (1, count - 1)
    } else {
        (0, count)
    };
    let mut out: Vec<u32> = Vec::new();
    let mut offset = from;
    let ghost whole = probe_list(base as nat, from as nat, to as nat);
    while offset < to
        invariant
            from <= offset || offset >= to,
            to <= count,
            base as int + count as int - 1 <= 0xffffffff,
            whole == out@ + probe_list(base as nat, offset as nat, to as nat),
        decreases to - offset,
    {
        let v = base + offset;
        if is_probed(v) {
            out.push(v);
        }
        offset = offset + 1;
        assert(whole =~= out@ + probe_list(base as nat, offset as nat, to as nat));
    }
    assert(probe_list(base as nat, offset as nat, to as nat) == Seq::<u32>::empty());
    assert(out@ =~= whole);
    if out.len() == 0 {
        return Err(owned("This network has no scannable IPv4 addresses."));
    }
    Ok(out)
}

/// The probe for a port: refused for port 0, else the targets of `cidr`.
pub fn scan_targets(cidr: &str, port: u16) -> (r: Result<Vec<u32>, String>)
    ensures
        port == 0 ==> (r matches Err(e) && e@ == "Choose an SSH port from 1 to 65535."@),
        port != 0 ==> match r {
            Ok(v) => targets_of(cidr@) == Ok::<Seq<u32>, Seq<char>>(v@),
            Err(e) => targets_of(cidr@) == Err::<Seq<u32>, Seq<char>>(e@),
        },
{
    if port == 0 {
        return Err(owned("Choose an SSH port from 1 to 65535."));
    }
    targets(cidr)
}

/// `p` occurs in `data` at `i`.
pub open spec fn bytes_at(data: Seq<u8>, i: int, p: Seq<u8>) -> bool {
    0 <= i && i + p.len() <= data.len() && data.subrange(i, i + p.len()) == p
}

/// Some complete line of `data` (ended by a newline) starts with an SSH
/// version 2 greeting, `SSH-2.0-` or `SSH-1.99-`.
pub open spec fn greeting(data: Seq<u8>) -> bool {
    exists|i: int|
        0 <= i < data.len() && (i == 0 || data[i - 1] == 10u8) && (bytes_at(
            data,
            i,
            seq![83u8, 83u8, 72u8, 45u8, 50u8, 46u8, 48u8, 45u8],
        ) || bytes_at(data, i, seq![83u8, 83u8, 72u8, 45u8, 49u8, 46u8, 57u8, 57u8, 45u8]))
            && exists|j: int| i <= j < data.len() && #[trigger] data[j] == 10u8
}

fn bytes_at_of(data: &Vec<u8>, i: usize, p: &Vec<u8>) -> (r: bool)
    ensures
        r == bytes_at(data@, i as int, p@),
{
    if i > data.len() || data.len() - i < p.len() {
        return false;
    }
    let mut k: usize = 0;
    while k < p.len()
        invariant
            i + p@.len() <= data.len(),
            k <= p@.len(),
            forall|m: int| 0 <= m < k ==> data@[i + m] == p@[m],
        decreases p@.len() - k,
    {
        if data[i + k] != p[k] {
            assert(data@.subrange(i as int, i + p@.len())[k as int] != p@[k as int]);
            return false;
        }
        k = k + 1;
    }
    assert(data@.subrange(i as int, i + p@.len()) =~= p@);
    true
}

/// Whether the bytes read from a port so far hold an SSH greeting line.
pub fn banner_seen(data: &[u8]) -> (r: bool)
    ensures
        r == greeting(data@),
{
    let mut d: Vec<u8> = Vec::new();
    let mut k: usize = 0;
    while k < data.len()
        invariant
            k <= data@.len(),
            d@ == data@.take(k as int),
        decreases data@.len() - k,
    {
        d.push(data[k]);
        k = k + 1;
        assert(d@ =~= data@.take(k as int));
    }
    assert(data@.take(data@.len() as int) == data@);
    let v2: Vec<u8> = vec![83u8, 83u8, 72u8, 45u8, 50u8, 46u8, 48u8, 45u8];
    let v199: Vec<u8> = vec![83u8, 83u8, 72u8, 45u8, 49u8, 46u8, 57u8, 57u8, 45u8];
    assert(v2@ =~= seq![83u8, 83u8, 72u8, 45u8, 50u8, 46u8, 48u8, 45u8]);
    assert(v199@ =~= seq![83u8, 83u8, 72u8, 45u8, 49u8, 46u8, 57u8, 57u8, 45u8]);
    // Scan from the end: `last_newline` is the first newline at or after `i`.
    let mut i = d.len();
    let mut newline_after = false;
    while i > 0
        invariant
            i <= d@.len(),
            d@ == data@,
            v2@ == seq![83u8, 83u8, 72u8, 45u8, 50u8, 46u8, 48u8, 45u8],
            v199@ == seq![83u8, 83u8, 72u8, 45u8, 49u8, 46u8, 57u8, 57u8, 45u8],
            newline_after == exists|j: int| i <= j < d@.len() && #[trigger] d@[j] == 10u8,
            forall|m: int|
                i <= m < d@.len() ==> !((m == 0 || d@[m - 1] == 10u8) && (bytes_at(d@, m, v2@)
                    || bytes_at(d@, m, v199@)) && exists|j: int| m <= j < d@.len() && #[trigger] d@[j] == 10u8),
        decreases i,
    {
        i = i - 1;
        if d[i] == 10u8 {
            newline_after = true;
        }
        let starts = i == 0 || d[i - 1] == 10u8;
        if starts && newline_after && (bytes_at_of(&d, i, &v2) || bytes_at_of(&d, i, &v199)) {
            return true;
        }
        assert(newline_after == exists|j: int| i <= j < d@.len() && #[trigger] d@[j] == 10u8) by {
            if newline_after && d@[i as int] != 10u8 {
                let j = choose|j: int| i + 1 <= j < d@.len() && #[trigger] d@[j] == 10u8;
            }
        }
    }
    false
}

// ---------------------------------------------------------------------------
// Local networks
// ---------------------------------------------------------------------------

/// The leading one bits of the 32-bit number `m`, counting at most `k`.
pub open spec fn leading_ones(m: nat, k: nat) -> nat
    decreases k,
{
    if k == 0 || m < 0x8000_0000 {
        0
    } else {
        1 + leading_ones(((m - 0x8000_0000) * 2) as nat, (k - 1) as nat)
    }
}

/// An interface's network, `base/prefix`: the address with the host bits
/// cleared, and the number of leading one bits of the netmask.
pub open spec fn network_text(address: u32, mask: u32) -> Seq<char> {
    ipv4_text((address & mask) as nat) + seq!['/'] + decimal(leading_ones(mask as nat, 32))
}

/// The prefix length of a netmask: its leading one bits.
pub fn prefix_length(mask: u32) -> (r: u32)
    ensures
        r == leading_ones(mask as nat, 32),
        r <= 32,
{
    let mut m: u32 = mask;
    let mut k: u32 = 0;
    while k < 32 && m >= 0x8000_0000
        invariant
            k <= 32,
            leading_ones(mask as nat, 32) == k + leading_ones(m as nat, (32 - k) as nat),
        decreases 32 - k,
    {
        m = (m - 0x8000_0000) * 2;
        k = k + 1;
    }
    k
}

/// Writes the network of an interface with this address and netmask.
pub fn network_label(address: u32, mask: u32) -> (r: Vec<char>)
    ensures
        r@ == network_text(address, mask),
{
    let base = address & mask;
    let mut r = ip_to_string(&Ip::V4(base));
    r.push('/');
    let p = prefix_length(mask);
    let d = decimal_of(p as u64);
    push_all(&mut r, &d);
    r
}

/// The character sequences of a list of strings.
pub open spec fn texts(v: Seq<String>) -> Seq<Seq<char>> {
    v.map_values(|s: String| s@)
}

/// Each distinct text once, in string order.
pub fn sorted_texts(items: &Vec<Vec<char>>) -> (r: Vec<String>)
    ensures
        texts(r@) == sorted_of(views(items@).to_set(), false),
{
    let mut v: Vec<Vec<char>> = Vec::new();
    let mut k: usize = 0;
    assert(views(items@).take(0).to_set() =~= views(v@).to_set());
    while k < items.len()
        invariant
            k <= items@.len(),
            sorted(views(v@), false),
            views(v@).to_set() == views(items@).take(k as int).to_set(),
        decreases items@.len() - k,
    {
        let x = slice(&items[k], 0, items[k].len());
        assert(x@ =~= items@[k as int]@);
        insert_sorted(&mut v, x, false);
        assert(views(items@).take(k + 1) == views(items@).take(k as int).push(items@[k as int]@));
        proof {
            views(items@).take(k as int).lemma_push_to_set_commute(items@[k as int]@);
        }
        k = k + 1;
    }
    assert(views(items@).take(k as int) == views(items@));
    proof {
        lemma_sorted_of(views(v@), false);
    }
    let mut r: Vec<String> = Vec::new();
    let mut j: usize = 0;
    while j < v.len()
        invariant
            j <= v@.len(),
            r@.len() == j,
            texts(r@) == views(v@).take(j as int),
        decreases v@.len() - j,
    {
        let ghost before = r@;
        let t = string_of(&v[j]);
        assert(t@ == views(v@)[j as int]);
        r.push(t);
        assert(r@ == before.push(t));
        assert(texts(before) == views(v@).take(j as int));
        j = j + 1;
        assert(texts(r@) =~= views(v@).take(j as int)) by {
            assert forall|m: int| 0 <= m < j implies #[trigger] texts(r@)[m] == views(v@).take(
                j as int,
            )[m] by {
                if m < j - 1 {
                    assert(texts(r@)[m] == texts(before)[m]);
                }
            }
        }
    }
    assert(views(v@).take(j as int) == views(v@));
    r
}

/// The networks of a list of interfaces, each an address and netmask.
pub open spec fn interface_networks(ifs: Seq<(u32, u32)>) -> Seq<Seq<char>> {
    ifs.map_values(|p: (u32, u32)| network_text(p.0, p.1))
}

/// The networks of the IPv4 interfaces that are up and neither loopback nor
/// point-to-point, given as address and netmask: each once, in string order.
pub fn interface_network_list(interfaces: &Vec<(u32, u32)>) -> (r: Vec<String>)
    ensures
        texts(r@) == sorted_of(interface_networks(interfaces@).to_set(), false),
{
    let mut items: Vec<Vec<char>> = Vec::new();
    let mut i: usize = 0;
    while i < interfaces.len()
        invariant
            i <= interfaces@.len(),
            items@.len() == i,
            views(items@) == interface_networks(interfaces@.take(i as int)),
        decreases interfaces@.len() - i,
    {
        let (address, mask) = interfaces[i];
        let ghost before = items@;
        let x = network_label(address, mask);
        items.push(x);
        assert(items@ == before.push(x));
        assert(views(before) == interface_networks(interfaces@.take(i as int)));
        assert(x@ == network_text(interfaces@[i as int].0, interfaces@[i as int].1));
        i = i + 1;
        assert forall|m: int| 0 <= m < i implies #[trigger] views(items@)[m] == interface_networks(
            interfaces@.take(i as int),
        )[m] by {
            if m < i - 1 {
                assert(views(items@)[m] == views(before)[m]);
            }
        }
        assert(views(items@) =~= interface_networks(interfaces@.take(i as int)));
    }
    assert(interfaces@.take(i as int) == interfaces@);
    sorted_texts(&items)
}

/// Two to the power `k`.
pub open spec fn power2(k: nat) -> nat
    decreases k,
{
    if k == 0 {
        1
    } else {
        2 * power2((k - 1) as nat)
    }
}

/// The netmask of a prefix length: `u32::MAX` shifted left by `32 - p`,
/// and no bits for a shift of 32 or more.
pub open spec fn prefix_mask(p: nat) -> u32 {
    if p == 0 {
        0
    } else {
        (0x1_0000_0000 - power2((32 - p) as nat)) as u32
    }
}

/// One line of `Get-NetIPAddress` output, `address/prefix` with blanks
/// around it, as a network: the address with the bits past the prefix
/// cleared, and the prefix. A line that does not parse, or whose prefix
/// exceeds 32, gives none.
pub open spec fn windows_network(line: Seq<char>) -> Option<Seq<char>> {
    let t = trim(line);
    match first_index(t, '/') {
        Some(k) => match (ipv4_value(t.take(k)), parse_unsigned(t.skip(k + 1), 0xffff_ffff)) {
            (Some(a), Some(p)) => if p <= 32 {
                Some(ipv4_text((a & prefix_mask(p)) as nat) + seq!['/'] + decimal(p))
            } else {
                None
            },
            _ => None,
        },
        None => None,
    }
}

/// The networks of the lines that name one, in order.
pub open spec fn windows_labels(ls: Seq<Seq<char>>) -> Seq<Seq<char>>
    decreases ls.len(),
{
    if ls.len() == 0 {
        Seq::empty()
    } else {
        let prev = windows_labels(ls.drop_last());
        match windows_network(ls.last()) {
            Some(x) => prev.push(x),
            None => prev,
        }
    }
}

fn prefix_mask_of(p: u32) -> (r: u32)
    requires
        p <= 32,
    ensures
        r == prefix_mask(p as nat),
{
    if p == 0 {
        return 0;
    }
    let mut q: u64 = 1;
    let mut i: u32 = 0;
    while i < 32 - p
        invariant
            1 <= p <= 32,
            i <= 32 - p,
            q == power2(i as nat),
            q <= 0x8000_0000,
        decreases 32 - p - i,
    {
        proof {
            lemma_power2_mono((i + 1) as nat, 31);
        }
        q = q * 2;
        i = i + 1;
    }
    proof {
        lemma_power2_mono((32 - p) as nat, 31);
        lemma_power2_mono(0, (32 - p) as nat);
    }
    (0x1_0000_0000u64 - q) as u32
}

proof fn lemma_power2_mono(i: nat, n: nat)
    requires
        i <= n,
    ensures
        1 <= power2(i) <= power2(n),
        n == 31 ==> power2(n) == 0x8000_0000,
    decreases n,
{
    if i < n {
        lemma_power2_mono(i, (n - 1) as nat);
    }
    if i == n && n > 0 {
        lemma_power2_mono(0, (n - 1) as nat);
    }
    if n == 31 {
        reveal_with_fuel(power2, 32);
    }
}

/// Reads one line of `Get-NetIPAddress` output as a network.
pub fn windows_network_of(line: &Vec<char>) -> (r: Option<Vec<char>>)
    ensures
        match r {
            Some(x) => windows_network(line@) == Some(x@),
            None => windows_network(line@) is None,
        },
{
    let t = trim_of(line);
    let k = match find_char(&t, '/') {
        Some(k) => k,
        None => return None,
    };
    proof {
        lemma_first_index(t@, '/');
    }
    let head = slice(&t, 0, k);
    let tail = slice(&t, k + 1, t.len());
    assert(head@ == t@.take(k as int));
    assert(tail@ == t@.skip(k + 1));
    let a = match parse_ipv4(&head) {
        Some(a) => a,
        None => return None,
    };
    let p = match parse_unsigned_of(&tail, 0xffff_ffff) {
        Some(p) => p,
        None => return None,
    };
    if p > 32 {
        return None;
    }
    let mask = prefix_mask_of(p as u32);
    let mut r = ip_to_string(&Ip::V4(a & mask));
    r.push('/');
    let d = decimal_of(p);
    push_all(&mut r, &d);
    Some(r)
}

/// The networks in the output of the Windows address listing: each once,
/// in string order.
pub fn windows_network_list(stdout: &[u8]) -> (r: Vec<String>)
    ensures
        texts(r@) == sorted_of(windows_labels(lines(utf8_lossy(stdout@))).to_set(), false),
{
    let text = decode_lossy(stdout);
    let ls = lines_of(&text);
    let ghost all = lines(utf8_lossy(stdout@));
    let mut items: Vec<Vec<char>> = Vec::new();
    let mut i: usize = 0;
    while i < ls.len()
        invariant
            i <= ls@.len(),
            ls@.len() == all.len(),
            forall|j: int| 0 <= j < ls@.len() ==> #[trigger] ls@[j]@ == all[j],
            views(items@) == windows_labels(all.take(i as int)),
        decreases ls@.len() - i,
    {
        let n = windows_network_of(&ls[i]);
        assert(all.take(i + 1).drop_last() == all.take(i as int));
        assert(all.take(i + 1).last() == ls@[i as int]@);
        match n {
            Some(x) => {
                items.push(x);
            },
            None => {},
        }
        i = i + 1;
        assert(views(items@) =~= windows_labels(all.take(i as int)));
    }
    assert(all.take(i as int) == all);
    sorted_texts(&items)
}

// ---------------------------------------------------------------------------
// Found hosts
// ---------------------------------------------------------------------------

/// Hosts (address and SSH port) in order of address.
pub open spec fn by_address(s: Seq<(u32, u16)>) -> bool {
    forall|i: int, j: int| 0 <= i < j < s.len() ==> (#[trigger] s[i]).0 <= (#[trigger] s[j]).0
}

/// Puts the hosts a scan found in order of address, as the scan's end
/// shows them; the same hosts stay, each as often as before.
pub fn sort_found(hosts: &mut Vec<(u32, u16)>)
    ensures
        final(hosts)@.to_multiset() == old(hosts)@.to_multiset(),
        by_address(final(hosts)@),
{
    let mut r: Vec<(u32, u16)> = Vec::new();
    let mut i: usize = 0;
    assert(hosts@.take(0) =~= Seq::<(u32, u16)>::empty());
    while i < hosts.len()
        invariant
            i <= hosts@.len(),
            by_address(r@),
            r@.to_multiset() == hosts@.take(i as int).to_multiset(),
        decreases hosts@.len() - i,
    {
        let x = hosts[i];
        let mut j = r.len();
        while j > 0 && r[j - 1].0 > x.0
            invariant
                j <= r@.len(),
                by_address(r@),
                forall|k: int| j <= k < r@.len() ==> (#[trigger] r@[k]).0 > x.0,
            decreases j,
        {
            j = j - 1;
        }
        let ghost before = r@;
        r.insert(j, x);
        proof {
            vstd::seq_lib::to_multiset_insert(before, j as int, x);
            assert(hosts@.take(i + 1) =~= hosts@.take(i as int).push(x));
            vstd::seq_lib::to_multiset_build(hosts@.take(i as int), x);
            assert forall|a: int, b: int| 0 <= a < b < r@.len() implies (#[trigger] r@[a]).0
                <= (#[trigger] r@[b]).0 by {
                if j > 0 {
                    assert(before[j - 1].0 <= x.0);
                }
                if a < j && b > j {
                    assert(r@[a] == before[a] && r@[b] == before[b - 1]);
                    if a < j - 1 {
                        assert(before[a].0 <= before[j - 1].0);
                    }
                } else if a < j && b == j {
                    assert(r@[a] == before[a]);
                    if a < j - 1 {
                        assert(before[a].0 <= before[j - 1].0);
                    }
                } else if a == j {
                    assert(r@[b] == before[b - 1]);
                } else if a < j {
                    assert(r@[a] == before[a] && r@[b] == before[b]);
                } else {
                    assert(r@[a] == before[a - 1] && r@[b] == before[b - 1]);
                }
            }
        }
        i = i + 1;
    }
    assert(hosts@.take(i as int) =~= hosts@);
    *hosts = r;
}

/// The network a scan starts with: the first local network that can be
/// scanned, else the first one, else nothing.
pub open spec fn first_scannable(ns: Seq<Seq<char>>) -> Option<int>
    decreases ns.len(),
{
    if ns.len() == 0 {
        None
    } else if targets_of(ns[0]) is Ok {
        Some(0)
    } else {
        match first_scannable(ns.drop_first()) {
            Some(k) => Some(k + 1),
            None => None,
        }
    }
}

pub open spec fn default_range_of(ns: Seq<Seq<char>>) -> Seq<char> {
    match first_scannable(ns) {
        Some(k) => ns[k],
        None => if ns.len() > 0 {
            ns[0]
        } else {
            Seq::empty()
        },
    }
}

proof fn lemma_first_scannable(ns: Seq<Seq<char>>)
    ensures
        first_scannable(ns) matches Some(k) ==> 0 <= k < ns.len(),
    decreases ns.len(),
{
    if ns.len() > 0 {
        lemma_first_scannable(ns.drop_first());
    }
}

/// The range a new scan offers.
pub fn default_range(networks: &Vec<String>) -> (r: String)
    ensures
        r@ == default_range_of(texts(networks@)),
{
    let ghost ns = texts(networks@);
    let mut i: usize = 0;
    assert(ns.skip(0) =~= ns);
    while i < networks.len()
        invariant
            i <= networks@.len(),
            ns == texts(networks@),
            first_scannable(ns) == match first_scannable(ns.skip(i as int)) {
                Some(k) => Some(k + i),
                None => None::<int>,
            },
        decreases networks@.len() - i,
    {
        assert(ns.skip(i as int)[0] == networks@[i as int]@);
        if targets(networks[i].as_str()).is_ok() {
            proof {
                lemma_first_scannable(ns);
            }
            return networks[i].clone();
        }
        assert(ns.skip(i as int).drop_first() =~= ns.skip(i + 1));
        i = i + 1;
    }
    if networks.len() > 0 {
        networks[0].clone()
    } else {
        String::new()
    }
}

} // verus!
