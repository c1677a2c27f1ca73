//! Job plumbing that does not need a process: commands, scripts, and the
//! activity log.
use vstd::prelude::*;
use crate::text::{
    byte_len, byte_len_of, chars, is_control, is_control_char, lemma_byte_len_first, string_of,
    utf8_width, width_of,
};

verus! {

// ---------------------------------------------------------------------------
// Activity output
// ---------------------------------------------------------------------------

/// `String::from_utf8_lossy`: invalid sequences become U+FFFD.
pub uninterp spec fn utf8_lossy(bytes: Seq<u8>) -> Seq<char>;

/// Decodes bytes with `String::from_utf8_lossy`. The replacement rules are not
/// restated; the result is named `utf8_lossy`. Valid UTF-8 decodes exactly.
#[verifier::external_body]
pub(crate) fn decode_lossy(bytes: &[u8]) -> (r: Vec<char>)
    ensures
        r@ == utf8_lossy(bytes@),
        vstd::utf8::valid_utf8(bytes@) ==> r@ == vstd::utf8::decode_utf8(bytes@),
{
    String::from_utf8_lossy(bytes).chars().collect()
}

/// One character through the terminal filter: escape sequences (CSI and OSC)
/// are skipped, backspace removes the last character, newline, tab and
/// printable characters are kept, other control characters are dropped.
pub open spec fn terminal_step(escape: u8, text: Seq<char>, c: char) -> (u8, Seq<char>) {
    if escape == 1 {
        (
            if c == '[' {
                2
            } else if c == ']' {
                3
            } else {
                0
            },
            text,
        )
    } else if escape == 2 {
        (
            if '@' <= c && c <= '~' {
                0
            } else {
                2
            },
            text,
        )
    } else if escape == 3 {
        (
            if c == '\x07' {
                0
            } else if c == '\x1b' {
                4
            } else {
                3
            },
            text,
        )
    } else if escape == 4 {
        (
            if c == '\\' {
                0
            } else {
                3
            },
            text,
        )
    } else if c == '\x1b' {
        (1, text)
    } else if c == '\x08' {
        (
            escape,
            if text.len() > 0 {
                text.drop_last()
            } else {
                text
            },
        )
    } else if c == '\n' || c == '\t' || !is_control(c) {
        (escape, text.push(c))
    } else {
        (escape, text)
    }
}

/// The filter over a run of characters.
pub open spec fn terminal_feed(escape: u8, text: Seq<char>, cs: Seq<char>) -> (u8, Seq<char>)
    decreases cs.len(),
{
    if cs.len() == 0 {
        (escape, text)
    } else {
        let before = terminal_feed(escape, text, cs.drop_last());
        terminal_step(before.0, before.1, cs.last())
    }
}

/// The text without leading characters worth `cut` bytes, rounded up to a
/// character boundary.
pub open spec fn drop_bytes(s: Seq<char>, cut: int) -> Seq<char>
    decreases s.len(),
{
    if cut <= 0 || s.len() == 0 {
        s
    } else {
        drop_bytes(s.drop_first(), cut - utf8_width(s[0]))
    }
}

/// The log limit: above 200,000 bytes, keep about the last 150,000.
pub open spec fn bounded(s: Seq<char>) -> Seq<char> {
    if byte_len(s) > 200_000 {
        drop_bytes(s, byte_len(s) - 150_000)
    } else {
        s
    }
}

/// A log character: newline, tab, or not a control character.
pub open spec fn clean(s: Seq<char>) -> bool {
    forall|i: int| 0 <= i < s.len() ==> (#[trigger] s[i] == '\n' || s[i] == '\t' || !is_control(s[i]))
}

/// The activity log, with terminal escapes removed across reads.
#[derive(Debug)]
pub struct Output {
    pub text: String,
    escape: u8,
}

impl Default for Output {
    fn default() -> (r: Self)
        ensures
            r.log() == Seq::<char>::empty(),
            r.escape_state() == 0,
    {
        Output { text: String::new(), escape: 0 }
    }
}

impl Output {
    /// Where the filter stands: 0 in text, 1 after ESC, 2 in a CSI sequence,
    /// 3 in an OSC string, 4 after ESC inside an OSC string.
    pub closed spec fn escape_state(&self) -> u8 {
        self.escape
    }

    /// The text of the log.
    pub closed spec fn log(&self) -> Seq<char> {
        self.text@
    }

    /// Appends bytes read from a command: decoded lossily, filtered character
    /// by character (the filter state carries over between calls), then cut
    /// to the last 150,000 bytes or so once the log exceeds 200,000 bytes.
    pub fn append(&mut self, bytes: &[u8])
        ensures
            ({
                let fed = terminal_feed(old(self).escape_state(), old(self).log(), utf8_lossy(bytes@));
                &&& final(self).escape_state() == fed.0
                &&& final(self).log() == bounded(fed.1)
            }),
            vstd::utf8::valid_utf8(bytes@) ==> utf8_lossy(bytes@) == vstd::utf8::decode_utf8(bytes@),
    {
        let decoded = decode_lossy(bytes);
        let mut text = chars(self.text.as_str());
        let mut escape = self.escape;
        let ghost t0 = text@;
        let ghost e0 = escape;
        let mut i: usize = 0;
        while i < decoded.len()
            invariant
                i <= decoded@.len(),
                (escape, text@) == terminal_feed(e0, t0, decoded@.take(i as int)),
            decreases decoded.len() - i,
        {
            let c = decoded[i];
            proof {
                assert(decoded@.take(i + 1).drop_last() == decoded@.take(i as int));
                assert(decoded@.take(i + 1).last() == c);
            }
            if escape == 1 {
                escape = if c == '[' {
                    2
                } else if c == ']' {
                    3
                } else {
                    0
                };
            } else if escape == 2 {
                if '@' <= c && c <= '~' {
                    escape = 0;
                }
            } else if escape == 3 {
                if c == '\x07' {
                    escape = 0;
                } else if c == '\x1b' {
                    escape = 4;
                }
            } else if escape == 4 {
                escape = if c == '\\' {
                    0
                } else {
                    3
                };
            } else if c == '\x1b' {
                escape = 1;
            } else if c == '\x08' {
                let _ = text.pop();
            } else if c == '\n' || c == '\t' || !is_control_char(c) {
                text.push(c);
            }
            i = i + 1;
        }
        assert(decoded@.take(decoded@.len() as int) == decoded@);
        let total = byte_len_of(&text);
        if total > 200_000 {
            let cut = total - 150_000;
            let mut dropped: u128 = 0;
            let mut k: usize = 0;
            assert(text@.skip(0) == text@);
            while k < text.len() && dropped < cut
                invariant
                    k <= text@.len(),
                    dropped as nat + byte_len(text@.skip(k as int)) == total,
                    drop_bytes(text@, cut as int) == drop_bytes(
                        text@.skip(k as int),
                        cut - dropped,
                    ),
                    total == byte_len(text@),
                decreases text.len() - k,
            {
                proof {
                    lemma_byte_len_first(text@.skip(k as int));
                    assert(text@.skip(k as int).drop_first() == text@.skip(k + 1));
                    assert(text@.skip(k as int)[0] == text@[k as int]);
                }
                dropped = dropped + width_of(text[k]) as u128;
                k = k + 1;
            }
            let kept = crate::text::slice(&text, k, text.len());
            proof {
                assert(kept@ == text@.skip(k as int));
            }
            self.text = string_of(&kept);
        } else {
            self.text = string_of(&text);
        }
        self.escape = escape;
    }
}

/// Escape sequences split across reads are handled as if read at once: the
/// filter over `a` then `b` equals the filter over `a + b`.
pub proof fn lemma_feed_concat(escape: u8, text: Seq<char>, a: Seq<char>, b: Seq<char>)
    ensures
        ({
            let first = terminal_feed(escape, text, a);
            terminal_feed(first.0, first.1, b) == terminal_feed(escape, text, a + b)
        }),
    decreases b.len(),
{
    if b.len() == 0 {
        assert(a + b == a);
    } else {
        lemma_feed_concat(escape, text, a, b.drop_last());
        assert((a + b).drop_last() == a + b.drop_last());
        assert((a + b).last() == b.last());
    }
}

/// The filter keeps the log clean: no control characters but newline and
/// tab survive it.
pub proof fn lemma_feed_clean(escape: u8, text: Seq<char>, cs: Seq<char>)
    requires
        clean(text),
    ensures
        clean(terminal_feed(escape, text, cs).1),
    decreases cs.len(),
{
    if cs.len() > 0 {
        lemma_feed_clean(escape, text, cs.drop_last());
        let before = terminal_feed(escape, text, cs.drop_last());
        let t = before.1;
        if t.len() > 0 {
            assert forall|i: int| 0 <= i < t.drop_last().len() implies (#[trigger] t.drop_last()[i]
                == '\n' || t.drop_last()[i] == '\t' || !is_control(t.drop_last()[i])) by {
                assert(t.drop_last()[i] == t[i]);
            }
        }
    }
}

/// Decoding valid UTF-8 in two parts gives the decoding of the whole.
pub proof fn lemma_decode_concat(a: Seq<u8>, b: Seq<u8>)
    requires
        vstd::utf8::valid_utf8(a),
        vstd::utf8::valid_utf8(b),
    ensures
        vstd::utf8::valid_utf8(a + b),
        vstd::utf8::decode_utf8(a + b) == vstd::utf8::decode_utf8(a) + vstd::utf8::decode_utf8(b),
    decreases a.len(),
{
    vstd::utf8::valid_utf8_concat(a, b);
    if a.len() == 0 {
        assert(a + b =~= b);
        assert(vstd::utf8::decode_utf8(a) =~= Seq::<char>::empty());
        assert(vstd::utf8::decode_utf8(a) + vstd::utf8::decode_utf8(b) =~= vstd::utf8::decode_utf8(b));
    } else {
        let rest = vstd::utf8::pop_first_scalar(a);
        assert(vstd::utf8::pop_first_scalar(a).len() < a.len());
        lemma_decode_concat(rest, b);
        assert(vstd::utf8::pop_first_scalar(a + b) =~= rest + b);
        assert(vstd::utf8::decode_first_scalar(a + b) == vstd::utf8::decode_first_scalar(a));
        assert(vstd::utf8::decode_utf8(a + b) =~= vstd::utf8::decode_utf8(a) + vstd::utf8::decode_utf8(b));
    }
}

/// Bytes of valid UTF-8 read in two parts leave the filter where reading
/// them at once would: the same escape state and the same text.
pub proof fn lemma_append_parts(escape: u8, text: Seq<char>, a: Seq<u8>, b: Seq<u8>)
    requires
        vstd::utf8::valid_utf8(a),
        vstd::utf8::valid_utf8(b),
    ensures
        ({
            let first = terminal_feed(escape, text, vstd::utf8::decode_utf8(a));
            terminal_feed(first.0, first.1, vstd::utf8::decode_utf8(b)) == terminal_feed(
                escape,
                text,
                vstd::utf8::decode_utf8(a + b),
            )
        }),
{
    lemma_decode_concat(a, b);
    lemma_feed_concat(escape, text, vstd::utf8::decode_utf8(a), vstd::utf8::decode_utf8(b));
}

/// Whatever bytes arrive, a clean log stays clean after an append and
/// holds at most 200,000 bytes.
pub proof fn lemma_append_bytes_bounded(escape: u8, text: Seq<char>, bytes: Seq<u8>)
    requires
        clean(text),
    ensures
        byte_len(bounded(terminal_feed(escape, text, utf8_lossy(bytes)).1)) <= 200_000,
        clean(bounded(terminal_feed(escape, text, utf8_lossy(bytes)).1)),
{
    lemma_append_bounded(escape, text, utf8_lossy(bytes));
}

proof fn lemma_drop_bytes(s: Seq<char>, cut: int)
    requires
        cut <= byte_len(s),
    ensures
        byte_len(drop_bytes(s, cut)) + cut <= byte_len(s) + 3,
        byte_len(drop_bytes(s, cut)) <= byte_len(s),
        forall|i: int|
            0 <= i < drop_bytes(s, cut).len() ==> exists|j: int|
                0 <= j < s.len() && #[trigger] drop_bytes(s, cut)[i] == s[j],
    decreases s.len(),
{
    if cut <= 0 || s.len() == 0 {
        assert forall|i: int| 0 <= i < drop_bytes(s, cut).len() implies exists|j: int|
            0 <= j < s.len() && #[trigger] drop_bytes(s, cut)[i] == s[j] by {
            assert(drop_bytes(s, cut)[i] == s[i]);
        }
    } else {
        lemma_byte_len_first(s);
        let r = s.drop_first();
        lemma_drop_bytes(r, cut - utf8_width(s[0]));
        assert forall|i: int| 0 <= i < drop_bytes(s, cut).len() implies exists|j: int|
            0 <= j < s.len() && #[trigger] drop_bytes(s, cut)[i] == s[j] by {
            let j = choose|j: int| 0 <= j < r.len() && drop_bytes(r, cut - utf8_width(s[0]))[i] == r[j];
            assert(s[j + 1] == r[j]);
        }
    }
}

/// After any append the log holds at most 200,000 bytes, and a clean log
/// stays clean.
pub proof fn lemma_append_bounded(escape: u8, text: Seq<char>, cs: Seq<char>)
    requires
        clean(text),
    ensures
        byte_len(bounded(terminal_feed(escape, text, cs).1)) <= 200_000,
        clean(bounded(terminal_feed(escape, text, cs).1)),
{
    let t = terminal_feed(escape, text, cs).1;
    lemma_feed_clean(escape, text, cs);
    if byte_len(t) > 200_000 {
        lemma_drop_bytes(t, byte_len(t) - 150_000);
        let d = drop_bytes(t, byte_len(t) - 150_000);
        assert forall|i: int| 0 <= i < d.len() implies (#[trigger] d[i] == '\n' || d[i] == '\t'
            || !is_control(d[i])) by {
            let j = choose|j: int| 0 <= j < t.len() && d[i] == t[j];
        }
    }
}

// ---------------------------------------------------------------------------
// Running a command
// ---------------------------------------------------------------------------

/// The environment a command runs with: OpenSSH asks this program for
/// passwords (always, through the app's socket), and tools print plain,
/// uncoloured English. On Windows the socket also needs the bridge's token.
pub open spec fn environment(askpass: Seq<char>, socket: Seq<char>, token: Option<Seq<char>>) -> Seq<(Seq<char>, Seq<char>)> {
    let base = seq![
        ("SSH_ASKPASS"@, askpass),
        ("SSH_ASKPASS_REQUIRE"@, "force"@),
        ("CODESYNC_ASKPASS"@, "1"@),
        ("CODESYNC_AUTH_SOCKET"@, socket),
        ("LC_ALL"@, "C"@),
        ("TERM"@, "dumb"@),
        ("NO_COLOR"@, "1"@),
    ];
    match token {
        Some(t) => base.push(("CODESYNC_AUTH_TOKEN"@, t)),
        None => base,
    }
}

pub open spec fn pairs(v: Seq<(String, String)>) -> Seq<(Seq<char>, Seq<char>)> {
    v.map_values(|p: (String, String)| (p.0@, p.1@))
}

fn push_pair(v: &mut Vec<(String, String)>, k: &str, x: &str)
    ensures
        pairs(final(v)@) == pairs(old(v)@).push((k@, x@)),
{
    v.push((string_of(&chars(k)), string_of(&chars(x))));
    assert(pairs(final(v)@) =~= pairs(old(v)@).push((k@, x@)));
}

/// The variables set for every command a job runs.
pub fn command_environment(askpass: &str, socket: &str, token: Option<&str>) -> (r: Vec<(String, String)>)
    ensures
        pairs(r@) == environment(askpass@, socket@, match token {
            Some(t) => Some(t@),
            None => None,
        }),
{
    let mut v: Vec<(String, String)> = Vec::new();
    assert(pairs(v@) =~= Seq::<(Seq<char>, Seq<char>)>::empty());
    push_pair(&mut v, "SSH_ASKPASS", askpass);
    push_pair(&mut v, "SSH_ASKPASS_REQUIRE", "force");
    push_pair(&mut v, "CODESYNC_ASKPASS", "1");
    push_pair(&mut v, "CODESYNC_AUTH_SOCKET", socket);
    push_pair(&mut v, "LC_ALL", "C");
    push_pair(&mut v, "TERM", "dumb");
    push_pair(&mut v, "NO_COLOR", "1");
    match token {
        Some(t) => {
            push_pair(&mut v, "CODESYNC_AUTH_TOKEN", t);
        },
        None => {},
    }
    v
}

/// The longest unfinished Tailscale output line kept back; a longer one is
/// shown as it is.
pub const PENDING_LIMIT: usize = 16384;

/// The complete lines of `s`, each with its newline, and what follows the
/// last newline.
pub open spec fn split_lines(s: Seq<u8>) -> (Seq<Seq<u8>>, Seq<u8>)
    decreases s.len(),
{
    if s.len() == 0 {
        (Seq::empty(), Seq::empty())
    } else {
        let (ls, rest) = split_lines(s.drop_last());
        if s.last() == 10u8 {
            (ls.push(rest.push(10u8)), Seq::empty())
        } else {
            (ls, rest.push(s.last()))
        }
    }
}

/// What a chunk of Tailscale output gives, after what was held back: the
/// complete lines, and the rest held back again, unless it grew past
/// `PENDING_LIMIT`, when it is given too.
pub open spec fn feed_lines(pending: Seq<u8>, chunk: Seq<u8>) -> (Seq<Seq<u8>>, Seq<u8>) {
    let (ls, rest) = split_lines(pending + chunk);
    if rest.len() > PENDING_LIMIT {
        (ls.push(rest), Seq::empty())
    } else {
        (ls, rest)
    }
}

/// The bytes of a list of lines, one after another.
pub open spec fn flatten(ls: Seq<Seq<u8>>) -> Seq<u8>
    decreases ls.len(),
{
    if ls.len() == 0 {
        Seq::empty()
    } else {
        flatten(ls.drop_last()) + ls.last()
    }
}

pub open spec fn byte_lines(v: Seq<Vec<u8>>) -> Seq<Seq<u8>> {
    v.map_values(|x: Vec<u8>| x@)
}

/// Splitting keeps every byte in order: the lines, then the rest, are the
/// input.
pub proof fn lemma_split_keeps_bytes(s: Seq<u8>)
    ensures
        flatten(split_lines(s).0) + split_lines(s).1 == s,
    decreases s.len(),
{
    if s.len() > 0 {
        lemma_split_keeps_bytes(s.drop_last());
        let (ls, rest) = split_lines(s.drop_last());
        if s.last() == 10u8 {
            assert(ls.push(rest.push(10u8)).drop_last() == ls);
            assert(flatten(ls.push(rest.push(10u8))) == flatten(ls) + rest.push(10u8));
            assert(flatten(ls) + rest == s.drop_last());
            assert(flatten(ls) + rest.push(10u8) =~= (flatten(ls) + rest).push(10u8));
            assert(s.drop_last().push(s.last()) =~= s);
            assert(flatten(ls) + rest.push(10u8) + Seq::<u8>::empty() =~= s);
        } else {
            assert(flatten(ls) + rest == s.drop_last());
            assert(flatten(ls) + rest.push(s.last()) =~= (flatten(ls) + rest).push(s.last()));
            assert(s.drop_last().push(s.last()) =~= s);
        }
    }
}

/// Every line that splitting gives ends with its newline and holds no
/// other, and the rest holds none.
pub proof fn lemma_split_lines_shape(s: Seq<u8>)
    ensures
        forall|i: int| 0 <= i < split_lines(s).0.len() ==> {
            let l = #[trigger] split_lines(s).0[i];
            l.len() > 0 && l.last() == 10u8 && forall|k: int| 0 <= k < l.len() - 1 ==> l[k] != 10u8
        },
        forall|k: int| 0 <= k < split_lines(s).1.len() ==> split_lines(s).1[k] != 10u8,
    decreases s.len(),
{
    if s.len() > 0 {
        lemma_split_lines_shape(s.drop_last());
        let (ls, rest) = split_lines(s.drop_last());
        if s.last() == 10u8 {
            let l = rest.push(10u8);
            assert forall|i: int| 0 <= i < split_lines(s).0.len() implies {
                let m = #[trigger] split_lines(s).0[i];
                m.len() > 0 && m.last() == 10u8 && forall|k: int| 0 <= k < m.len() - 1 ==> m[k] != 10u8
            } by {
                if i < ls.len() {
                    assert(split_lines(s).0[i] == ls[i]);
                } else {
                    assert(split_lines(s).0[i] == l);
                    assert forall|k: int| 0 <= k < l.len() - 1 implies l[k] != 10u8 by {
                        assert(l[k] == rest[k]);
                    }
                }
            }
        } else {
            assert forall|k: int| 0 <= k < split_lines(s).1.len() implies split_lines(s).1[k] != 10u8 by {
                if k < rest.len() {
                    assert(split_lines(s).1[k] == rest[k]);
                }
            }
        }
    }
}

/// Feeding a chunk loses and reorders nothing: the lines given, then what
/// is held back, are what was held back before, then the chunk.
pub proof fn lemma_feed_keeps_bytes(pending: Seq<u8>, chunk: Seq<u8>)
    ensures
        flatten(feed_lines(pending, chunk).0) + feed_lines(pending, chunk).1 == pending + chunk,
{
    let s = pending + chunk;
    lemma_split_keeps_bytes(s);
    let (ls, rest) = split_lines(s);
    if rest.len() > PENDING_LIMIT {
        assert(ls.push(rest).drop_last() == ls);
        assert(flatten(ls.push(rest)) + Seq::<u8>::empty() =~= flatten(ls) + rest);
    }
}

/// Takes a chunk of Tailscale output: gives the lines to show and keeps
/// the unfinished rest in `pending`, as `feed_lines` says.
pub fn take_lines(pending: &mut Vec<u8>, chunk: &[u8]) -> (r: Vec<Vec<u8>>)
    ensures
        (byte_lines(r@), final(pending)@) == feed_lines(old(pending)@, chunk@),
{
    let ghost all = old(pending)@ + chunk@;
    let mut bytes: Vec<u8> = Vec::new();
    let mut k: usize = 0;
    while k < pending.len()
        invariant
            k <= pending@.len(),
            pending@ == old(pending)@,
            bytes@ == pending@.take(k as int),
        decreases pending@.len() - k,
    {
        bytes.push(pending[k]);
        k = k + 1;
        assert(bytes@ =~= pending@.take(k as int));
    }
    let mut k: usize = 0;
    while k < chunk.len()
        invariant
            k <= chunk@.len(),
            bytes@ == old(pending)@ + chunk@.take(k as int),
        decreases chunk@.len() - k,
    {
        bytes.push(chunk[k]);
        k = k + 1;
        assert(bytes@ =~= old(pending)@ + chunk@.take(k as int));
    }
    assert(bytes@ =~= all);
    let mut lines: Vec<Vec<u8>> = Vec::new();
    let mut rest: Vec<u8> = Vec::new();
    let mut i: usize = 0;
    assert(all.take(0) =~= Seq::<u8>::empty());
    assert(byte_lines(lines@) =~= Seq::<Seq<u8>>::empty());
    while i < bytes.len()
        invariant
            bytes@ == all,
            i <= all.len(),
            (byte_lines(lines@), rest@) == split_lines(all.take(i as int)),
        decreases all.len() - i,
    {
        let b = bytes[i];
        assert(all.take(i + 1).drop_last() =~= all.take(i as int));
        if b == 10u8 {
            rest.push(10u8);
            let mut done: Vec<u8> = Vec::new();
            std::mem::swap(&mut done, &mut rest);
            let ghost before = byte_lines(lines@);
            lines.push(done);
            assert(byte_lines(lines@) =~= before.push(done@));
        } else {
            rest.push(b);
        }
        i = i + 1;
    }
    assert(all.take(i as int) =~= all);
    if rest.len() > PENDING_LIMIT {
        let ghost before = byte_lines(lines@);
        let r = rest;
        lines.push(r);
        assert(byte_lines(lines@) =~= before.push(r@));
        *pending = Vec::new();
    } else {
        *pending = rest;
    }
    lines
}

/// What is left of the Tailscale output when the command ends: the
/// unfinished line, if any.
pub fn last_line(pending: Vec<u8>) -> (r: Option<Vec<u8>>)
    ensures
        match r {
            Some(l) => l@ == pending@ && pending@.len() > 0,
            None => pending@.len() == 0,
        },
{
    if pending.len() > 0 {
        Some(pending)
    } else {
        None
    }
}

} // verus!
