//! The stand-alone command-line program's destination rules, which are
//! stricter about hosts than the library's: no IPv6, only `[user@]name`.
use vstd::prelude::*;
use crate::config::{lines, lines_of, result_view};
use crate::text::{
    chars, is_ascii_alnum, is_control, is_control_char, is_alnum, owned, string_of,
    trim_end_char, trim_end_matches,
};

verus! {

/// A host for the stand-alone program: non-empty, not starting with `-`, made
/// of ASCII letters, digits, `@`, `.`, `_` and `-`.
pub open spec fn plain_host(host: Seq<char>) -> bool {
    &&& host.len() > 0
    &&& host[0] != '-'
    &&& forall|i: int|
        0 <= i < host.len() ==> is_ascii_alnum(#[trigger] host[i]) || host[i] == '@' || host[i]
            == '.' || host[i] == '_' || host[i] == '-'
}

/// An absolute directory other than `/`, without control characters.
pub open spec fn absolute_dir(dir: Seq<char>) -> bool {
    &&& dir.len() > 0 && dir[0] == '/'
    &&& trim_end_char(dir, '/').len() > 0
    &&& forall|i: int| 0 <= i < dir.len() ==> !is_control(#[trigger] dir[i])
}

pub open spec fn host_message() -> Seq<char> {
    "Use user@hostname or an SSH config alias, without options or ports."@
}

pub open spec fn dir_message() -> Seq<char> {
    "Remote directory must be an absolute path other than /."@
}

pub open spec fn verdict(host: Seq<char>, dir: Seq<char>) -> Result<(), Seq<char>> {
    if !plain_host(host) {
        Err(host_message())
    } else if !absolute_dir(dir) {
        Err(dir_message())
    } else {
        Ok(())
    }
}

/// The stand-alone program's destination: `user@host` and an absolute
/// directory.
#[derive(Debug)]
pub struct Config {
    pub host: String,
    pub dir: String,
}

impl Config {
    /// Checks the host first, then the directory.
    pub fn validate(&self) -> (r: Result<(), String>)
        ensures
            result_view(r) == verdict(self.host@, self.dir@),
    {
        let h = chars(self.host.as_str());
        let mut ok = h.len() > 0 && h[0] != '-';
        let mut i: usize = 0;
        while ok && i < h.len()
            invariant
                i <= h.len(),
                ok ==> h@.len() > 0 && h@[0] != '-',
                ok ==> forall|j: int|
                    0 <= j < i ==> is_ascii_alnum(#[trigger] h@[j]) || h@[j] == '@' || h@[j] == '.'
                        || h@[j] == '_' || h@[j] == '-',
                !ok ==> !plain_host(h@),
            decreases h.len() - i,
        {
            let c = h[i];
            if !(is_alnum(c) || c == '@' || c == '.' || c == '_' || c == '-') {
                ok = false;
            }
            i = i + 1;
        }
        if !ok {
            return Err(owned("Use user@hostname or an SSH config alias, without options or ports."));
        }
        let d = chars(self.dir.as_str());
        let mut good = d.len() > 0 && d[0] == '/' && trim_end_matches(&d, '/').len() > 0;
        let mut k: usize = 0;
        while good && k < d.len()
            invariant
                k <= d.len(),
                good ==> d@.len() > 0 && d@[0] == '/' && trim_end_char(d@, '/').len() > 0,
                good ==> forall|j: int| 0 <= j < k ==> !is_control(#[trigger] d@[j]),
                !good ==> !absolute_dir(d@),
            decreases d.len() - k,
        {
            if is_control_char(d[k]) {
                good = false;
            }
            k = k + 1;
        }
        if !good {
            return Err(owned("Remote directory must be an absolute path other than /."));
        }
        Ok(())
    }

    /// Reads the two lines of a `.codesync` file and validates them.
    pub fn parse(content: &str) -> (r: Result<Config, String>)
        ensures
            lines(content@).len() != 2 ==> (r matches Err(e) && e@
                == crate::config::lines_error()),
            lines(content@).len() == 2 ==> match r {
                Ok(c) => c.host@ == lines(content@)[0] && c.dir@ == lines(content@)[1] && verdict(
                    c.host@,
                    c.dir@,
                ) is Ok,
                Err(e) => verdict(lines(content@)[0], lines(content@)[1]) == Err::<(), Seq<char>>(
                    e@,
                ),
            },
    {
        let c = chars(content);
        let ls = lines_of(&c);
        if ls.len() != 2 {
            return Err(owned("Invalid .codesync: expected host and directory on separate lines."));
        }
        let config = Config { host: string_of(&ls[0]), dir: string_of(&ls[1]) };
        match config.validate() {
            Ok(()) => Ok(config),
            Err(e) => Err(e),
        }
    }
}

} // verus!
