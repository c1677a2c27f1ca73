//! Answers to OpenSSH's askpass questions.
use vstd::prelude::*;
use crate::text::{
    chars, contains_seq, contains_str, ends_with_str, is_suffix, to_lowercase, trim_end,
    trim_end_of, unicode_lowercase,
};
use crate::text::{char_from_ascii, string_of};
use crate::ip::hex_char;

verus! {

/// The passwords known for one server while the app is open.
#[derive(Debug)]
pub struct Credentials {
    pub login: String,
    pub sudo: String,
    pub same_password: bool,
}

impl Default for Credentials {
    fn default() -> (r: Self)
        ensures
            r.login@ == Seq::<char>::empty(),
            r.sudo@ == Seq::<char>::empty(),
            !r.same_password,
    {
        Credentials { login: String::new(), sudo: String::new(), same_password: false }
    }
}

impl Clone for Credentials {
    fn clone(&self) -> (r: Self)
        ensures
            r == *self,
    {
        Credentials {
            login: self.login.clone(),
            sudo: self.sudo.clone(),
            same_password: self.same_password,
        }
    }
}

impl Credentials {
    /// The administrator password: the login password when both are the same.
    pub fn sudo_password(&self) -> (r: &str)
        ensures
            r@ == if self.same_password {
                self.login@
            } else {
                self.sudo@
            },
    {
        if self.same_password {
            self.login.as_str()
        } else {
            self.sudo.as_str()
        }
    }
}

/// One question from the askpass helper: the prompt text and
/// `SSH_ASKPASS_PROMPT`.
#[derive(Debug)]
pub struct Request {
    pub prompt: String,
    pub kind: String,
}

/// OpenSSH's closing question when it meets an unknown host key.
pub open spec fn trust_question_long() -> Seq<char> {
    "Are you sure you want to continue connecting (yes/no/[fingerprint])?"@
}

pub open spec fn trust_question_short() -> Seq<char> {
    "Are you sure you want to continue connecting (yes/no)?"@
}

/// A prompt that asks whether to trust a new host key: it shows a fingerprint
/// and ends with OpenSSH's continue-connecting question.
pub open spec fn is_host_confirmation(prompt: Seq<char>) -> bool {
    let p = trim_end(prompt);
    contains_seq(p, "fingerprint"@) && (is_suffix(trust_question_long(), p) || is_suffix(
        trust_question_short(),
        p,
    ))
}

/// Whether the request asks to trust a new host key.
pub fn host_confirmation(request: &Request) -> (r: bool)
    ensures
        r == is_host_confirmation(request.prompt@),
{
    let p = chars(request.prompt.as_str());
    let p = trim_end_of(&p);
    contains_str(&p, "fingerprint") && (ends_with_str(
        &p,
        "Are you sure you want to continue connecting (yes/no/[fingerprint])?",
    ) || ends_with_str(&p, "Are you sure you want to continue connecting (yes/no)?"))
}

/// What the app answers to one askpass request.
#[derive(Debug, PartialEq, Eq)]
pub enum Answer {
    /// Ask the user to confirm the host key fingerprint.
    AskTrust,
    /// Reply with this login password.
    Password(String),
    /// Reply without an answer and tell the user that authentication needs
    /// attention.
    Refuse,
}

/// A plain password prompt: no prompt kind, and text ending in `password:`
/// in any letter case.
pub open spec fn is_password_prompt(prompt: Seq<char>, kind: Seq<char>) -> bool {
    kind.len() == 0 && is_suffix("password:"@, unicode_lowercase(trim_end(prompt)))
}

/// How a request is answered: host key questions always go to the user; a
/// password prompt gets the saved login password when there is one; anything
/// else is refused.
pub fn answer(request: &Request, credentials: &Credentials) -> (r: Answer)
    ensures
        is_host_confirmation(request.prompt@) ==> r == Answer::AskTrust,
        !is_host_confirmation(request.prompt@) && is_password_prompt(
            request.prompt@,
            request.kind@,
        ) && credentials.login@.len() > 0 ==> (r matches Answer::Password(p)
            && p@ == credentials.login@),
        !is_host_confirmation(request.prompt@) && !(is_password_prompt(
            request.prompt@,
            request.kind@,
        ) && credentials.login@.len() > 0) ==> r == Answer::Refuse,
{
    if host_confirmation(request) {
        return Answer::AskTrust;
    }
    let p = chars(request.prompt.as_str());
    let p = trim_end_of(&p);
    let lower = to_lowercase(&p);
    if request.kind.as_str().is_empty() && ends_with_str(&lower, "password:")
        && !credentials.login.as_str().is_empty() {
        Answer::Password(credentials.login.clone())
    } else {
        Answer::Refuse
    }
}

/// The answer an askpass helper prints, or why it has none: `None` from the
/// app means the request was cancelled or no credential is saved.
pub fn askpass_outcome(answer: Option<String>) -> (r: Result<String, String>)
    ensures
        match answer {
            Some(a) => r matches Ok(x) && x@ == a@,
            None => r matches Err(e) && e@
                == "Authentication cancelled or credentials unavailable"@,
        },
{
    match answer {
        Some(a) => Ok(a),
        None => Err(crate::text::owned("Authentication cancelled or credentials unavailable")),
    }
}

/// Bytes written as lowercase hex, two digits each.
pub open spec fn hex_bytes(b: Seq<u8>) -> Seq<char>
    decreases b.len(),
{
    if b.len() == 0 {
        Seq::empty()
    } else {
        hex_bytes(b.drop_last()) + seq![hex_char((b.last() / 16) as nat), hex_char((b.last() % 16) as nat)]
    }
}

fn hex_digit(d: u8) -> (c: char)
    requires
        d < 16,
    ensures
        c == hex_char(d as nat),
{
    if d < 10 {
        char_from_ascii(d as u32 + 48)
    } else {
        char_from_ascii(d as u32 + 87)
    }
}

/// Writes bytes as lowercase hex, two digits each.
pub fn token_hex(bytes: &Vec<u8>) -> (r: String)
    ensures
        r@ == hex_bytes(bytes@),
{
    let mut out: Vec<char> = Vec::new();
    let mut i: usize = 0;
    while i < bytes.len()
        invariant
            i <= bytes@.len(),
            out@ == hex_bytes(bytes@.take(i as int)),
        decreases bytes@.len() - i,
    {
        let b = bytes[i];
        out.push(hex_digit(b / 16));
        out.push(hex_digit(b % 16));
        assert(bytes@.take(i + 1).drop_last() == bytes@.take(i as int));
        i = i + 1;
    }
    assert(bytes@.take(i as int) == bytes@);
    string_of(&out)
}

/// Fills the buffer through `getrandom::fill`, which reads the system's
/// random source; on failure it gives the error's text. The bytes depend on
/// chance: only that the buffer keeps its length is stated.
#[verifier::external_body]
fn fill_random(buf: &mut Vec<u8>) -> (r: Result<(), String>)
    ensures
        final(buf)@.len() == old(buf)@.len(),
{
    match getrandom::fill(buf.as_mut_slice()) {
        Ok(()) => Ok(()),
        Err(e) => Err(e.to_string()),
    }
}

/// A fresh secret for the loopback askpass bridge: 32 random bytes as 64
/// lowercase hex digits, or the random source's error.
pub fn bridge_token() -> (r: Result<String, String>)
    ensures
        r matches Ok(t) ==> exists|b: Seq<u8>| b.len() == 32 && t@ == hex_bytes(b),
{
    let mut random: Vec<u8> = vec![0u8; 32];
    match fill_random(&mut random) {
        Ok(()) => {
            let t = token_hex(&random);
            assert(random@.len() == 32 && t@ == hex_bytes(random@));
            Ok(t)
        },
        Err(e) => Err(e),
    }
}

} // verus!
