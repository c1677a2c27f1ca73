//! SSH and rsync spellings of a `user@host` destination.
use vstd::prelude::*;
use crate::text::{
    chars, has_char, last_index, lemma_last_index, push_all, rfind_char, slice, string_of,
    trim_end_char, trim_end_matches,
};

verus! {

/// `rsplit_once('@')`, with an empty user where there is no `@`.
pub open spec fn host_parts(d: Seq<char>) -> (Seq<char>, Seq<char>) {
    match last_index(d, '@') {
        Some(i) => (d.take(i), d.skip(i + 1)),
        None => (seq![], d),
    }
}

/// A host without the brackets of a bracketed IPv6 address.
pub open spec fn bare_host(h: Seq<char>) -> Seq<char> {
    if h.len() >= 2 && h[0] == '[' && h.last() == ']' {
        h.subrange(1, h.len() - 1)
    } else {
        h
    }
}

/// `user@host` (or `host` alone) with the host unbracketed.
pub open spec fn ssh_destination_of(d: Seq<char>) -> Seq<char> {
    let user = host_parts(d).0;
    let host = bare_host(host_parts(d).1);
    if user.len() == 0 {
        host
    } else {
        user + seq!['@'] + host
    }
}

/// The host as rsync needs it: bracketed when it holds a `:`.
pub open spec fn rsync_host(host: Seq<char>) -> Seq<char> {
    if host.contains(':') {
        seq!['['] + host + seq![']']
    } else {
        host
    }
}

/// `[user@]host:dir/` with the directory's trailing slashes collapsed to one.
pub open spec fn rsync_destination_of(d: Seq<char>, dir: Seq<char>) -> Seq<char> {
    let user = host_parts(d).0;
    let host = rsync_host(bare_host(host_parts(d).1));
    let prefix = if user.len() == 0 {
        host
    } else {
        user + seq!['@'] + host
    };
    prefix + seq![':'] + trim_end_char(dir, '/') + seq!['/']
}

/// The user of `user@host`, where the host holds no `@`, is all that comes
/// before that last `@`.
proof fn lemma_host_parts_at(user: Seq<char>, host: Seq<char>)
    requires
        !host.contains('@'),
    ensures
        host_parts(user + seq!['@'] + host) == (user, host),
{
    let d = user + seq!['@'] + host;
    lemma_last_index(d, '@');
    assert(d[user.len() as int] == '@');
    let i = last_index(d, '@')->0;
    if i > user.len() {
        assert(host[i - user.len() - 1] == d[i]);
    }
    assert(i == user.len());
    assert(d.take(i) =~= user);
    assert(d.skip(i + 1) =~= host);
}

/// How a destination is spelled for ssh and for rsync, for a user and a host
/// name or address `a` (without `@` or brackets), written `user@a`,
/// `user@[a]`, `a` or `[a]`: ssh gets the address without brackets; rsync
/// gets it in brackets exactly when it holds a `:` (an IPv6 address), then
/// `:`, the directory without its trailing slashes, and one `/`.
pub proof fn lemma_destination_spellings(user: Seq<char>, a: Seq<char>, dir: Seq<char>)
    requires
        user.len() > 0,
        !a.contains('@'),
        !a.contains('['),
        !a.contains(']'),
    ensures
        ({
            let plain = user + seq!['@'] + a;
            let bracketed = user + seq!['@'] + (seq!['['] + a + seq![']']);
            let host_for_rsync = if a.contains(':') { seq!['['] + a + seq![']'] } else { a };
            let tail = seq![':'] + trim_end_char(dir, '/') + seq!['/'];
            &&& ssh_destination_of(plain) == plain
            &&& ssh_destination_of(bracketed) == plain
            &&& ssh_destination_of(a) == a
            &&& ssh_destination_of(seq!['['] + a + seq![']']) == a
            &&& rsync_destination_of(plain, dir) == user + seq!['@'] + host_for_rsync + tail
            &&& rsync_destination_of(bracketed, dir) == user + seq!['@'] + host_for_rsync + tail
            &&& rsync_destination_of(a, dir) == host_for_rsync + tail
            &&& rsync_destination_of(seq!['['] + a + seq![']'], dir) == host_for_rsync + tail
        }),
{
    let b = seq!['['] + a + seq![']'];
    lemma_host_parts_at(user, a);
    assert(!b.contains('@')) by {
        if b.contains('@') {
            let k = choose|k: int| 0 <= k < b.len() && b[k] == '@';
            assert(a[k - 1] == '@');
        }
    }
    lemma_host_parts_at(user, b);
    lemma_last_index(a, '@');
    lemma_last_index(b, '@');
    assert(b.subrange(1, b.len() - 1) =~= a);
    assert(b.last() == ']');
    if a.len() >= 2 && a[0] == '[' {
        assert(a.contains('['));
    }
}

/// Splits a destination at its last `@`.
pub fn host_parts_of(d: &Vec<char>) -> (r: (Vec<char>, Vec<char>))
    ensures
        r.0@ == host_parts(d@).0,
        r.1@ == host_parts(d@).1,
{
    proof {
        lemma_last_index(d@, '@');
    }
    match rfind_char(d, '@') {
        Some(i) => {
            let user = slice(d, 0, i);
            let host = slice(d, i + 1, d.len());
            assert(user@ == d@.take(i as int));
            assert(host@ == d@.skip(i + 1));
            (user, host)
        },
        None => (Vec::new(), slice(d, 0, d.len())),
    }
}

/// Removes the brackets around a bracketed host.
pub fn bare_host_of(h: &Vec<char>) -> (r: Vec<char>)
    ensures
        r@ == bare_host(h@),
{
    if h.len() >= 2 && h[0] == '[' && h[h.len() - 1] == ']' {
        slice(h, 1, h.len() - 1)
    } else {
        slice(h, 0, h.len())
    }
}

/// The destination that `ssh` takes: `user@host`, or `host` without a user,
/// with an IPv6 address unbracketed.
pub fn ssh_destination(destination: &str) -> (r: String)
    ensures
        r@ == ssh_destination_of(destination@),
{
    let d = chars(destination);
    let (user, host) = host_parts_of(&d);
    let host = bare_host_of(&host);
    if user.len() == 0 {
        string_of(&host)
    } else {
        let mut out = user;
        out.push('@');
        push_all(&mut out, &host);
        string_of(&out)
    }
}

/// The remote argument that `rsync` takes: `[user@]host:dir/`, with an IPv6
/// address bracketed and the directory ending in exactly one slash.
pub fn rsync_destination(destination: &str, directory: &str) -> (r: String)
    ensures
        r@ == rsync_destination_of(destination@, directory@),
{
    let d = chars(destination);
    let (user, host) = host_parts_of(&d);
    let host = bare_host_of(&host);
    let host = if has_char(&host, ':') {
        let mut b: Vec<char> = Vec::new();
        b.push('[');
        push_all(&mut b, &host);
        b.push(']');
        b
    } else {
        host
    };
    let mut out = if user.len() == 0 {
        host
    } else {
        let mut p = user;
        p.push('@');
        push_all(&mut p, &host);
        p
    };
    out.push(':');
    let dir = chars(directory);
    let dir = trim_end_matches(&dir, '/');
    push_all(&mut out, &dir);
    out.push('/');
    string_of(&out)
}

} // verus!
