//! Tailscale status as the jobs read it: whether Tailscale runs, this
//! device's address, and which peer a configured server name or address
//! means. The JSON that `tailscale status --json` prints is read into
//! `TailscaleStatus` by the caller.
use vstd::prelude::*;
use crate::ip::{ip_value, ip_text, parse_ip, Ip, IpView};
use crate::text::{
    ascii_lower_seq, chars, eq, eq_str, owned, split_char, string_of, trim_end_char,
};

verus! {

/// A peer in the status: its Tailscale addresses (`None` when the field is
/// not a list; entries that are not strings are left out), its DNS name and
/// its host name (empty when missing).
pub struct Peer {
    pub ips: Option<Vec<String>>,
    pub dns_name: String,
    pub host_name: String,
}

/// The fields of `tailscale status --json` that Codesync reads.
pub struct TailscaleStatus {
    /// `BackendState`, when it is a string.
    pub backend_state: Option<String>,
    /// `Self.TailscaleIPs`, when it is a list (string entries only).
    pub self_ips: Option<Vec<String>>,
    /// The values of `Peer`, when it is an object.
    pub peers: Option<Vec<Peer>>,
}

pub open spec fn strs(v: Seq<String>) -> Seq<Seq<char>> {
    v.map_values(|x: String| x@)
}

pub open spec fn running(status: TailscaleStatus) -> bool {
    status.backend_state matches Some(s) && s@ == "Running"@
}

/// Whether Tailscale is connected on the device that printed the status.
pub fn tailscale_running(status: &TailscaleStatus) -> (r: bool)
    ensures
        r == running(*status),
{
    match &status.backend_state {
        Some(s) => eq_str(&chars(s.as_str()), "Running"),
        None => false,
    }
}

/// The first entry that is an IPv4 address.
pub open spec fn first_v4(ips: Seq<Seq<char>>) -> Option<Seq<char>>
    decreases ips.len(),
{
    if ips.len() == 0 {
        None
    } else if crate::ip::ipv4_value(ips[0]) is Some {
        Some(ips[0])
    } else {
        first_v4(ips.drop_first())
    }
}

/// The first entry that is an IPv6 address.
pub open spec fn first_v6(ips: Seq<Seq<char>>) -> Option<Seq<char>>
    decreases ips.len(),
{
    if ips.len() == 0 {
        None
    } else if crate::ip::ipv6_text(ips[0]) {
        Some(ips[0])
    } else {
        first_v6(ips.drop_first())
    }
}

pub open spec fn address_of(status: TailscaleStatus) -> Result<Seq<char>, Seq<char>> {
    if !running(status) {
        Err("Tailscale is not connected. Finish signing in and retry setup."@)
    } else {
        match status.self_ips {
            Some(ips) => match first_v4(strs(ips@)) {
                Some(a) => Ok(a),
                None => match first_v6(strs(ips@)) {
                    Some(a) => Ok(a),
                    None => Err("Tailscale did not return a server address."@),
                },
            },
            None => Err("Tailscale did not return a server address."@),
        }
    }
}

/// This device's Tailscale address: its first IPv4 address, else its first
/// IPv6 address, as listed.
pub fn tailscale_address(status: &TailscaleStatus) -> (r: Result<String, String>)
    ensures
        match r {
            Ok(a) => address_of(*status) == Ok::<Seq<char>, Seq<char>>(a@),
            Err(e) => address_of(*status) == Err::<Seq<char>, Seq<char>>(e@),
        },
{
    if !tailscale_running(status) {
        return Err(owned("Tailscale is not connected. Finish signing in and retry setup."));
    }
    let ips = match &status.self_ips {
        Some(ips) => ips,
        None => return Err(owned("Tailscale did not return a server address.")),
    };
    let ghost v = strs(ips@);
    assert(status.self_ips matches Some(x) && strs(x@) == v);
    let mut i: usize = 0;
    assert(v.skip(0) == v);
    while i < ips.len()
        invariant
            i <= ips@.len(),
            v == strs(ips@),
            running(*status),
            status.self_ips matches Some(x) && strs(x@) == v,
            first_v4(v) == first_v4(v.skip(i as int)),
        decreases ips@.len() - i,
    {
        assert(v.skip(i as int)[0] == v[i as int]);
        if crate::ip::parse_ipv4(&chars(ips[i].as_str())).is_some() {
            return Ok(ips[i].clone());
        }
        assert(v.skip(i as int).drop_first() == v.skip(i + 1));
        i = i + 1;
    }
    let mut i: usize = 0;
    while i < ips.len()
        invariant
            i <= ips@.len(),
            v == strs(ips@),
            running(*status),
            status.self_ips matches Some(x) && strs(x@) == v,
            first_v4(v) is None,
            first_v6(v) == first_v6(v.skip(i as int)),
        decreases ips@.len() - i,
    {
        assert(v.skip(i as int)[0] == v[i as int]);
        if crate::ip::is_ipv6(&chars(ips[i].as_str())) {
            return Ok(ips[i].clone());
        }
        assert(v.skip(i as int).drop_first() == v.skip(i + 1));
        i = i + 1;
    }
    Err(owned("Tailscale did not return a server address."))
}

// ---------------------------------------------------------------------------
// Which peer a server is
// ---------------------------------------------------------------------------

/// `s` without `[` and `]` at either end.
pub open spec fn trim_brackets(s: Seq<char>) -> Seq<char>
    decreases s.len(),
{
    if s.len() > 0 && (s[0] == '[' || s[0] == ']') {
        trim_brackets(s.drop_first())
    } else if s.len() > 0 && (s.last() == '[' || s.last() == ']') {
        trim_brackets(s.drop_last())
    } else {
        s
    }
}

/// A configured server address as compared with peers: without brackets or
/// trailing dots, in ASCII lower case.
pub open spec fn normalized(configured: Seq<char>) -> Seq<char> {
    ascii_lower_seq(trim_end_char(trim_brackets(configured), '.'))
}

/// The addresses among `ips` that parse, in order.
pub open spec fn ip_list(ips: Seq<Seq<char>>) -> Seq<IpView>
    decreases ips.len(),
{
    if ips.len() == 0 {
        seq![]
    } else {
        match ip_value(ips.last()) {
            Some(ip) => ip_list(ips.drop_last()).push(ip),
            None => ip_list(ips.drop_last()),
        }
    }
}

/// The first IPv4 address of a list, else its first address.
pub open spec fn preferred(ips: Seq<IpView>) -> Option<IpView> {
    if exists|i: int| 0 <= i < ips.len() && (#[trigger] ips[i]).0 {
        Some(ips[choose|i: int| 0 <= i < ips.len() && (#[trigger] ips[i]).0 && forall|j: int| 0 <= j < i ==> !(#[trigger] ips[j]).0])
    } else if ips.len() > 0 {
        Some(ips[0])
    } else {
        None
    }
}

/// The address to use for `peer` when it is the configured server: the
/// configured text names one of its addresses, or (when it is not an
/// address) equals its DNS name, its host name or the first label of its
/// DNS name.
pub open spec fn peer_choice(peer: Peer, conf: Seq<char>) -> Option<Seq<char>> {
    match peer.ips {
        None => None,
        Some(list) => {
            let ips = ip_list(strs(list@));
            let dns = ascii_lower_seq(trim_end_char(peer.dns_name@, '.'));
            let host = ascii_lower_seq(peer.host_name@);
            let address_match = ip_value(conf) matches Some(ip) && ips.contains(ip);
            let name_match = ip_value(conf) is None && conf.len() > 0 && (conf == dns || conf == host
                || split_char(dns, '.')[0] == conf);
            if (address_match || name_match) && preferred(ips) is Some {
                Some(crate::ip::ip_text(preferred(ips)->Some_0))
            } else {
                None
            }
        },
    }
}

/// The chosen addresses of the peers that match, in order.
pub open spec fn peer_matches(peers: Seq<Peer>, conf: Seq<char>) -> Seq<Seq<char>>
    decreases peers.len(),
{
    if peers.len() == 0 {
        seq![]
    } else {
        match peer_choice(peers.last(), conf) {
            Some(a) => peer_matches(peers.drop_last(), conf).push(a),
            None => peer_matches(peers.drop_last(), conf),
        }
    }
}

/// The Tailscale address of the configured server, when exactly one peer
/// matches it; duplicated names are never guessed.
pub open spec fn peer_address_of(status: TailscaleStatus, configured: Seq<char>) -> Option<Seq<char>> {
    if !running(status) {
        None
    } else {
        match status.peers {
            None => None,
            Some(peers) => {
                let m = peer_matches(peers@, normalized(configured));
                if m.len() == 1 {
                    Some(m[0])
                } else {
                    None
                }
            },
        }
    }
}

fn is_bracket(c: char) -> (r: bool)
    ensures
        r == (c == '[' || c == ']'),
{
    c == '[' || c == ']'
}

/// `w` without `[` and `]` at either end.
pub fn without_brackets(w: &Vec<char>) -> (r: Vec<char>)
    ensures
        r@ == trim_brackets(w@),
{
    let mut start: usize = 0;
    let mut end: usize = w.len();
    assert(w@.subrange(0, w@.len() as int) == w@);
    while start < end && is_bracket(w[start])
        invariant
            start <= end == w@.len(),
            trim_brackets(w@) == trim_brackets(w@.subrange(start as int, end as int)),
        decreases end - start,
    {
        assert(w@.subrange(start as int, end as int).drop_first() == w@.subrange(start + 1, end as int));
        start = start + 1;
    }
    while start < end && is_bracket(w[end - 1])
        invariant
            start <= end <= w@.len(),
            start == end || !(w@[start as int] == '[' || w@[start as int] == ']'),
            trim_brackets(w@) == trim_brackets(w@.subrange(start as int, end as int)),
        decreases end - start,
    {
        let ghost t = w@.subrange(start as int, end as int);
        assert(t.drop_last() == w@.subrange(start as int, end - 1));
        assert(t[0] == w@[start as int]);
        end = end - 1;
    }
    assert(w@.subrange(start as int, end as int).len() == 0 || w@.subrange(start as int, end as int)[0]
        == w@[start as int]);
    crate::text::slice(w, start, end)
}

fn lower_of(w: &Vec<char>) -> (r: Vec<char>)
    ensures
        r@ == ascii_lower_seq(w@),
{
    let mut r: Vec<char> = Vec::new();
    let mut i: usize = 0;
    while i < w.len()
        invariant
            i <= w@.len(),
            r@ == ascii_lower_seq(w@.take(i as int)),
        decreases w@.len() - i,
    {
        r.push(crate::text::to_ascii_lower(w[i]));
        i = i + 1;
        assert(r@ =~= ascii_lower_seq(w@.take(i as int)));
    }
    assert(w@.take(w@.len() as int) == w@);
    r
}

pub open spec fn ip_views(v: Seq<Ip>) -> Seq<IpView> {
    v.map_values(|x: Ip| x@)
}

fn ip_list_of(list: &Vec<String>) -> (r: Vec<Ip>)
    ensures
        ip_views(r@) == ip_list(strs(list@)),
        forall|i: int| 0 <= i < r@.len() ==> (#[trigger] r@[i]).wf(),
{
    let mut r: Vec<Ip> = Vec::new();
    let mut i: usize = 0;
    while i < list.len()
        invariant
            i <= list@.len(),
            ip_views(r@) == ip_list(strs(list@).take(i as int)),
            forall|k: int| 0 <= k < r@.len() ==> (#[trigger] r@[k]).wf(),
        decreases list@.len() - i,
    {
        let ghost before = ip_views(r@);
        assert(strs(list@).take(i + 1).drop_last() == strs(list@).take(i as int));
        assert(strs(list@).take(i + 1).last() == list@[i as int]@);
        match parse_ip(&chars(list[i].as_str())) {
            Some(ip) => {
                let ghost v = ip@;
                r.push(ip);
                assert(ip_views(r@) =~= before.push(v));
            },
            None => {},
        }
        i = i + 1;
    }
    assert(strs(list@).take(list@.len() as int) == strs(list@));
    r
}

fn contains_ip(ips: &Vec<Ip>, ip: &Ip) -> (r: bool)
    requires
        ip.wf(),
        forall|i: int| 0 <= i < ips@.len() ==> (#[trigger] ips@[i]).wf(),
    ensures
        r == ip_views(ips@).contains(ip@),
{
    let mut i: usize = 0;
    while i < ips.len()
        invariant
            i <= ips@.len(),
            ip.wf(),
            forall|k: int| 0 <= k < ips@.len() ==> (#[trigger] ips@[k]).wf(),
            forall|k: int| 0 <= k < i ==> ip_views(ips@)[k] != ip@,
        decreases ips@.len() - i,
    {
        if crate::ip::same_ip(&ips[i], ip) {
            assert(ip_views(ips@)[i as int] == ip@);
            return true;
        }
        i = i + 1;
    }
    false
}

fn preferred_of(ips: &Vec<Ip>) -> (r: Option<usize>)
    ensures
        match r {
            Some(i) => i < ips@.len() && preferred(ip_views(ips@)) == Some(ip_views(ips@)[i as int]),
            None => preferred(ip_views(ips@)) is None,
        },
{
    let ghost v = ip_views(ips@);
    let mut i: usize = 0;
    while i < ips.len()
        invariant
            i <= ips@.len(),
            v == ip_views(ips@),
            forall|k: int| 0 <= k < i ==> !(#[trigger] v[k]).0,
        decreases ips@.len() - i,
    {
        let is_v4 = match &ips[i] {
            Ip::V4(_) => true,
            Ip::V6(_) => false,
        };
        if is_v4 {
            proof {
                assert(v[i as int].0);
                let c = choose|c: int| 0 <= c < v.len() && (#[trigger] v[c]).0 && forall|j: int| 0 <= j < c ==> !(#[trigger] v[j]).0;
                if c < i {
                } else if c > i {
                    assert(!v[i as int].0);
                }
            }
            return Some(i);
        }
        i = i + 1;
    }
    if ips.len() > 0 {
        Some(0)
    } else {
        None
    }
}

fn peer_choice_of(peer: &Peer, conf: &Vec<char>, conf_ip: &Option<Ip>) -> (r: Option<Vec<char>>)
    requires
        match conf_ip {
            Some(ip) => ip_value(conf@) == Some(ip@) && ip.wf(),
            None => ip_value(conf@) is None,
        },
    ensures
        match r {
            Some(a) => peer_choice(*peer, conf@) == Some(a@),
            None => peer_choice(*peer, conf@) is None,
        },
{
    let list = match &peer.ips {
        Some(list) => list,
        None => return None,
    };
    let ips = ip_list_of(list);
    let dns = lower_of(&crate::text::trim_end_matches(&chars(peer.dns_name.as_str()), '.'));
    let host = lower_of(&chars(peer.host_name.as_str()));
    let address_match = match conf_ip {
        Some(ip) => contains_ip(&ips, ip),
        None => false,
    };
    let name_match = if conf_ip.is_none() && conf.len() > 0 {
        let first = crate::text::split(&dns, '.');
        proof {
            crate::text::lemma_split_nonempty(dns@, '.');
        }
        eq(conf, &dns) || eq(conf, &host) || eq(&first[0], conf)
    } else {
        false
    };
    if !(address_match || name_match) {
        return None;
    }
    match preferred_of(&ips) {
        Some(i) => Some(crate::ip::ip_to_string(&ips[i])),
        None => None,
    }
}

/// The Tailscale address of the server configured as `configured`, from
/// this device's status: the preferred address (IPv4 first) of the one
/// peer that has the configured address, or whose DNS name, host name or
/// first DNS label is the configured name. When no peer or several peers
/// match, there is none: duplicated names are never guessed.
pub fn peer_address(status: &TailscaleStatus, configured: &str) -> (r: Option<String>)
    ensures
        match r {
            Some(a) => peer_address_of(*status, configured@) == Some(a@),
            None => peer_address_of(*status, configured@) is None,
        },
{
    if !tailscale_running(status) {
        return None;
    }
    let peers = match &status.peers {
        Some(p) => p,
        None => return None,
    };
    let conf = lower_of(&crate::text::trim_end_matches(&without_brackets(&chars(configured)), '.'));
    assert(conf@ == normalized(configured@));
    let conf_ip = parse_ip(&conf);
    let mut found: Vec<Vec<char>> = Vec::new();
    let mut i: usize = 0;
    while i < peers.len()
        invariant
            i <= peers@.len(),
            match conf_ip {
                Some(ip) => ip_value(conf@) == Some(ip@) && ip.wf(),
                None => ip_value(conf@) is None,
            },
            crate::order::views(found@) == peer_matches(peers@.take(i as int), conf@),
        decreases peers@.len() - i,
    {
        let ghost before = crate::order::views(found@);
        assert(peers@.take(i + 1).drop_last() == peers@.take(i as int));
        assert(peers@.take(i + 1).last() == peers@[i as int]);
        match peer_choice_of(&peers[i], &conf, &conf_ip) {
            Some(a) => {
                let ghost av = a@;
                found.push(a);
                assert(crate::order::views(found@) =~= before.push(av));
            },
            None => {},
        }
        i = i + 1;
    }
    assert(peers@.take(peers@.len() as int) == peers@);
    if found.len() == 1 {
        Some(string_of(&found[0]))
    } else {
        None
    }
}

/// Whether `address` is the address or name of exactly one peer.
pub fn tailscale_membership(status: &TailscaleStatus, address: &str) -> (r: bool)
    ensures
        r == peer_address_of(*status, address@) is Some,
{
    peer_address(status, address).is_some()
}

} // verus!
