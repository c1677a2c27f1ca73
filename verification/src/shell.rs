//! Quoting for POSIX `sh`.
use vstd::prelude::*;
use crate::text::{chars, string_of};

verus! {

/// One character of the body of a quoted word: a single quote becomes `'\''`
/// (close, escaped quote, reopen); any other character stands for itself.
pub open spec fn quote_piece(c: char) -> Seq<char> {
    if c == '\'' {
        seq!['\'', '\\', '\'', '\'']
    } else {
        seq![c]
    }
}

/// The body of a quoted word: every character of `s` through `quote_piece`.
pub open spec fn escape_quotes(s: Seq<char>) -> Seq<char>
    decreases s.len(),
{
    if s.len() == 0 {
        seq![]
    } else {
        escape_quotes(s.drop_last()) + quote_piece(s.last())
    }
}

/// `s` as one single-quoted `sh` word.
pub open spec fn quoted(s: Seq<char>) -> Seq<char> {
    seq!['\''] + escape_quotes(s) + seq!['\'']
}

/// How POSIX `sh` reads a word made of single-quoted text and backslash
/// escapes: inside single quotes every character but `'` is literal; outside
/// them `'` opens a quoted part and a backslash takes the next character
/// (other than a newline) literally. Any other unquoted character is outside
/// this fragment of the grammar and gives `None`, as does an unclosed quote.
pub open spec fn shell_word(w: Seq<char>, in_quotes: bool) -> Option<Seq<char>>
    decreases w.len(),
{
    if w.len() == 0 {
        if in_quotes {
            None
        } else {
            Some(seq![])
        }
    } else if in_quotes {
        if w[0] == '\'' {
            shell_word(w.drop_first(), false)
        } else {
            match shell_word(w.drop_first(), true) {
                Some(r) => Some(seq![w[0]] + r),
                None => None,
            }
        }
    } else if w[0] == '\'' {
        shell_word(w.drop_first(), true)
    } else if w[0] == '\\' && w.len() >= 2 && w[1] != '\n' {
        match shell_word(w.skip(2), false) {
            Some(r) => Some(seq![w[1]] + r),
            None => None,
        }
    } else {
        None
    }
}

pub open spec fn prepend(s: Seq<char>, r: Option<Seq<char>>) -> Option<Seq<char>> {
    match r {
        Some(t) => Some(s + t),
        None => None,
    }
}

proof fn lemma_piece_read(c: char, rest: Seq<char>)
    ensures
        shell_word(quote_piece(c) + rest, true) == prepend(seq![c], shell_word(rest, true)),
{
    let tail = quote_piece(c) + rest;
    if c == '\'' {
        assert(tail[0] == '\'');
        let u = tail.drop_first();
        assert(u =~= seq!['\\', '\'', '\''] + rest);
        assert(u[0] == '\\' && u[1] == '\'' && u.len() >= 2);
        let v = u.skip(2);
        assert(v =~= seq!['\''] + rest);
        assert(v[0] == '\'');
        assert(v.drop_first() =~= rest);
        assert(shell_word(v, false) == shell_word(rest, true));
        assert(shell_word(u, false) == prepend(seq!['\''], shell_word(rest, true)));
        assert(shell_word(tail, true) == shell_word(u, false));
    } else {
        assert(tail[0] == c);
        assert(tail.drop_first() =~= rest);
    }
}

proof fn lemma_escape_read(s: Seq<char>, rest: Seq<char>)
    ensures
        shell_word(escape_quotes(s) + rest, true) == prepend(s, shell_word(rest, true)),
    decreases s.len(),
{
    if s.len() == 0 {
        assert(escape_quotes(s) + rest =~= rest);
        match shell_word(rest, true) {
            Some(t) => {
                assert(s + t =~= t);
            },
            None => {},
        }
    } else {
        let init = s.drop_last();
        let c = s.last();
        let tail = quote_piece(c) + rest;
        assert(escape_quotes(s) + rest =~= escape_quotes(init) + tail);
        lemma_escape_read(init, tail);
        lemma_piece_read(c, rest);
        match shell_word(rest, true) {
            Some(t) => {
                assert(init + (seq![c] + t) =~= s + t);
            },
            None => {},
        }
    }
}

/// Quoting round-trips through the shell: `sh` reads `quoted(s)` as exactly
/// one word whose value is `s`, whatever characters `s` holds.
pub proof fn lemma_quote_roundtrip(s: Seq<char>)
    ensures
        shell_word(quoted(s), false) == Some(s),
{
    let w = quoted(s);
    assert(w[0] == '\'');
    assert(w.drop_first() =~= escape_quotes(s) + seq!['\'']);
    lemma_escape_read(s, seq!['\'']);
    let close: Seq<char> = seq!['\''];
    assert(close.drop_first() =~= Seq::<char>::empty());
    assert(shell_word(Seq::<char>::empty(), false) == Some(Seq::<char>::empty()));
    assert(shell_word(close, true) == Some(Seq::<char>::empty()));
    assert(s + Seq::<char>::empty() =~= s);
}

/// Quotes `s` for `sh` as a single word: `'` + `s` with every `'` replaced by
/// `'\''` + `'`.
pub fn quote(s: &str) -> (r: String)
    ensures
        r@ == quoted(s@),
{
    let v = chars(s);
    let mut out: Vec<char> = Vec::new();
    out.push('\'');
    let mut i: usize = 0;
    while i < v.len()
        invariant
            i <= v.len(),
            out@ == seq!['\''] + escape_quotes(v@.take(i as int)),
        decreases v.len() - i,
    {
        let c = v[i];
        if c == '\'' {
            out.push('\'');
            out.push('\\');
            out.push('\'');
            out.push('\'');
        } else {
            out.push(c);
        }
        proof {
            let t = v@.take(i + 1);
            assert(t.drop_last() == v@.take(i as int));
            assert(t.last() == c);
        }
        i = i + 1;
    }
    out.push('\'');
    assert(v@.take(v.len() as int) == v@);
    string_of(&out)
}

/// Quotes a character vector; see `quote`.
pub fn quote_chars(v: &Vec<char>) -> (r: Vec<char>)
    ensures
        r@ == quoted(v@),
{
    let s = string_of(v);
    let q = quote(s.as_str());
    chars(q.as_str())
}

} // verus!
