//! The remote side of the file viewer: the script that lists a directory or
//! reads a file under `~/codesync` on a server, and the reading of what it
//! prints.
use vstd::prelude::*;
use vstd::utf8::{decode_utf8, valid_utf8};
use crate::shell::{quote, quoted};
use crate::text::{
    byte_len, chars, eq_str, is_control, is_control_char, lemma_split_nonempty, owned, split,
    split_char, string_of, utf8_width, width_of,
};

verus! {

/// The most bytes a preview shows.
pub const PREVIEW_BYTES: u64 = 262144;

/// The text shown instead of a preview that is not text.
pub open spec fn binary_notice() -> Seq<char> {
    "Binary or non-UTF-8 file \u{2014} no text preview available."@
}

/// A file's text as the viewer shows it.
pub struct Preview {
    pub name: String,
    pub text: String,
    pub truncated: bool,
}

/// A request from the viewer for a listing or a preview on a server.
#[derive(Clone)]
pub struct RemoteRequest {
    pub server: u64,
    pub path: String,
    pub preview: bool,
}

/// A path as the viewer sends it to a server: backslashes become slashes
/// on Windows.
pub open spec fn remote_path_of(path: Seq<char>, windows: bool) -> Seq<char> {
    if windows {
        path.map_values(|c: char| if c == '\\' { '/' } else { c })
    } else {
        path
    }
}

pub fn remote_path(path: &str, windows: bool) -> (r: String)
    ensures
        r@ == remote_path_of(path@, windows),
{
    let cs = chars(path);
    let mut out: Vec<char> = Vec::new();
    let mut i: usize = 0;
    while i < cs.len()
        invariant
            i <= cs@.len(),
            out@ == remote_path_of(cs@.take(i as int), windows),
        decreases cs@.len() - i,
    {
        let c = cs[i];
        out.push(if windows && c == '\\' {
            '/'
        } else {
            c
        });
        i = i + 1;
        assert(cs@.take(i as int) == cs@.take(i - 1).push(c));
        assert(out@ =~= remote_path_of(cs@.take(i as int), windows));
    }
    assert(cs@.take(cs@.len() as int) == cs@);
    string_of(&out)
}

/// Whether a character makes a preview binary: U+FFFD from invalid UTF-8,
/// or a control character other than newline, carriage return and tab.
pub open spec fn binary_char(c: char) -> bool {
    c == '\u{fffd}' || (is_control(c) && c != '\n' && c != '\r' && c != '\t')
}

/// The longest prefix of `s` that fits in `limit` bytes of UTF-8.
pub open spec fn fit_prefix(s: Seq<char>, limit: nat) -> Seq<char> {
    let n = choose|n: int|
        0 <= n <= s.len() && #[trigger] byte_len(s.take(n)) <= limit && (n == s.len() || byte_len(
            s.take(n + 1),
        ) > limit);
    s.take(n)
}

/// The preview of a file read from a server: cut to `PREVIEW_BYTES` bytes at
/// a character boundary, and replaced by a notice when it is not text.
pub open spec fn preview_text(text: Seq<char>) -> Seq<char> {
    if has_binary(preview_cut(text)) {
        binary_notice()
    } else {
        preview_cut(text)
    }
}

/// `text` cut to `PREVIEW_BYTES` bytes at a character boundary.
pub open spec fn preview_cut(text: Seq<char>) -> Seq<char> {
    if byte_len(text) > PREVIEW_BYTES {
        fit_prefix(text, PREVIEW_BYTES as nat)
    } else {
        text
    }
}

/// Whether `s` has a character that makes it binary.
pub open spec fn has_binary(s: Seq<char>) -> bool {
    exists|i: int| 0 <= i < s.len() && binary_char(#[trigger] s[i])
}

proof fn lemma_byte_len_push(s: Seq<char>, c: char)
    ensures
        byte_len(s.push(c)) == byte_len(s) + utf8_width(c),
{
    assert(s.push(c).drop_last() == s);
}

/// Builds the preview of a file whose text a server sent.
pub fn remote_preview(path: &str, text: String) -> (r: Preview)
    ensures
        r.name@ == path@,
        r.truncated == (byte_len(text@) > PREVIEW_BYTES),
        r.text@ == preview_text(text@),
{
    let cs = chars(text.as_str());
    let mut kept: Vec<char> = Vec::new();
    let mut total: u64 = 0;
    let mut i: usize = 0;
    let mut binary = false;
    while i < cs.len()
        invariant
            i <= cs@.len(),
            kept@ == cs@.take(i as int),
            total as nat == byte_len(kept@),
            total <= PREVIEW_BYTES,
            binary == exists|k: int| 0 <= k < i && binary_char(#[trigger] cs@[k]),
        ensures
            i <= cs@.len(),
            kept@ == cs@.take(i as int),
            total as nat == byte_len(kept@),
            binary == exists|k: int| 0 <= k < i && binary_char(#[trigger] cs@[k]),
            i < cs@.len() ==> total + utf8_width(cs@[i as int]) > PREVIEW_BYTES,
        decreases cs@.len() - i,
    {
        let c = cs[i];
        let w = width_of(c) as u64;
        if total + w > PREVIEW_BYTES {
            break;
        }
        proof {
            lemma_byte_len_push(kept@, c);
        }
        total = total + w;
        if c == '\u{fffd}' || (is_control_char(c) && c != '\n' && c != '\r' && c != '\t') {
            binary = true;
        }
        kept.push(c);
        i = i + 1;
        assert(kept@ == cs@.take(i as int));
    }
    let truncated = i < cs.len();
    proof {
        assert(cs@ == text@);
        if truncated {
            lemma_byte_len_push(kept@, cs@[i as int]);
            assert(cs@.take(i + 1) == kept@.push(cs@[i as int]));
            lemma_prefix_bytes(cs@, i + 1);
            assert(byte_len(text@) > PREVIEW_BYTES);
            lemma_fit_prefix(cs@, PREVIEW_BYTES as nat, i as int);
        } else {
            assert(kept@ == cs@);
        }
    }
    let ghost cut = cs@.take(i as int);
    assert(binary == has_binary(cut)) by {
        if binary {
            let k = choose|k: int| 0 <= k < i && binary_char(#[trigger] cs@[k]);
            assert(cut[k] == cs@[k]);
        }
        if exists|k: int| 0 <= k < cut.len() && binary_char(#[trigger] cut[k]) {
            let k = choose|k: int| 0 <= k < cut.len() && binary_char(#[trigger] cut[k]);
            assert(cut[k] == cs@[k]);
        }
    }
    assert(cut == preview_cut(text@));
    let shown = if binary {
        owned("Binary or non-UTF-8 file \u{2014} no text preview available.")
    } else {
        string_of(&kept)
    };

    Preview { name: owned(path), text: shown, truncated }
}

/// A prefix has no more bytes than the whole.
proof fn lemma_prefix_bytes(s: Seq<char>, n: int)
    requires
        0 <= n <= s.len(),
    ensures
        byte_len(s.take(n)) <= byte_len(s),
    decreases s.len() - n,
{
    if n < s.len() {
        lemma_prefix_bytes(s, n + 1);
        lemma_byte_len_push(s.take(n), s[n]);
        assert(s.take(n + 1) == s.take(n).push(s[n]));
    } else {
        assert(s.take(n) == s);
    }
}

proof fn lemma_fit_prefix(s: Seq<char>, limit: nat, n: int)
    requires
        0 <= n < s.len(),
        byte_len(s.take(n)) <= limit,
        byte_len(s.take(n + 1)) > limit,
    ensures
        fit_prefix(s, limit) == s.take(n),
{
    let m = choose|m: int|
        0 <= m <= s.len() && #[trigger] byte_len(s.take(m)) <= limit && (m == s.len() || byte_len(
            s.take(m + 1),
        ) > limit);
    assert(0 <= m <= s.len() && byte_len(s.take(m)) <= limit && (m == s.len() || byte_len(
        s.take(m + 1),
    ) > limit));
    if m < n {
        lemma_prefix_bytes(s.take(n), m + 1);
        assert(s.take(n).take(m + 1) == s.take(m + 1));
    } else if m > n {
        lemma_prefix_bytes(s.take(m), n + 1);
        assert(s.take(m).take(n + 1) == s.take(n + 1));
    }
}

/// A relative path whose components are all plain names (`Path`'s
/// `Component::Normal`): no NUL, no leading `/`, no leading `.` component
/// and no `..` component. The empty path qualifies.
pub open spec fn plain_relative(path: Seq<char>) -> bool {
    let pieces = split_char(path, '/');
    &&& !path.contains('\0')
    &&& (path.len() == 0 || path[0] != '/')
    &&& pieces[0] != seq!['.']
    &&& forall|i: int| 0 <= i < pieces.len() ==> #[trigger] pieces[i] != seq!['.', '.']
}

pub fn is_plain_relative(path: &Vec<char>) -> (r: bool)
    ensures
        r == plain_relative(path@),
{
    let pieces = split(path, '/');
    proof {
        lemma_split_nonempty(path@, '/');
    }
    let mut i: usize = 0;
    while i < path.len()
        invariant
            i <= path@.len(),
            forall|k: int| 0 <= k < i ==> path@[k] != '\0',
        decreases path@.len() - i,
    {
        if path[i] == '\0' {
            assert(path@.contains('\0'));
            return false;
        }
        i = i + 1;
    }
    assert(!path@.contains('\0'));
    if path.len() > 0 && path[0] == '/' {
        return false;
    }
    proof {
        reveal_strlit(".");
        reveal_strlit("..");
        assert("."@ =~= seq!['.']);
        assert(".."@ =~= seq!['.', '.']);
    }
    if eq_str(&pieces[0], ".") {
        return false;
    }
    let mut k: usize = 0;
    while k < pieces.len()
        invariant
            k <= pieces@.len(),
            ".."@ == seq!['.', '.'],
            pieces@.len() == split_char(path@, '/').len(),
            forall|j: int| 0 <= j < pieces@.len() ==> #[trigger] pieces@[j]@ == split_char(path@, '/')[j],
            forall|j: int| 0 <= j < k ==> #[trigger] split_char(path@, '/')[j] != seq!['.', '.'],
        decreases pieces@.len() - k,
    {
        if eq_str(&pieces[k], "..") {
            assert(split_char(path@, '/')[k as int] == seq!['.', '.']);
            return false;
        }
        assert(split_char(path@, '/')[k as int] != seq!['.', '.']);
        k = k + 1;
    }
    true
}

pub open spec fn listing_script(q: Seq<char>) -> Seq<char> {
    "set -eu\nroot=$HOME/codesync\nmkdir -p -- \"$root\"\ncd -- \"$root\"\nif [ -n "@ + q + " ]; then cd -- "@ + q
        + "; fi\ncase \"$(pwd -P)/\" in\n    \"$(cd -- \"$root\" && pwd -P)/\"*) ;;\n    *) exit 1 ;;\nesac\nprintf 'PATH\\000'\nroot_phys=$(cd -- \"$root\" && pwd -P)\nhere=$(pwd -P)\nif [ \"$here\" = \"$root_phys\" ]; then\n    printf '\\000'\nelse\n    printf '%s\\000' \"${here#\"$root_phys\"/}\"\nfi\ncount=0\nfor entry in ./* ./.[!.]* ./..?*; do\n    [ -e \"$entry\" ] || [ -L \"$entry\" ] || continue\n    if [ \"$count\" -ge 5000 ]; then printf 'LIMIT\\000'; exit 0; fi\n    count=$((count + 1))\n    size=0\n    if [ -L \"$entry\" ]; then kind=link\n    elif [ -d \"$entry\" ]; then kind=dir\n    elif [ -f \"$entry\" ]; then kind=file; size=$(stat -c %s -- \"$entry\")\n    else kind=other\n    fi\n    printf '%s\\000%s\\000%s\\000' \"$kind\" \"$size\" \"${entry#./}\"\ndone\nprintf 'END\\000'\n"@
}

pub open spec fn preview_script(q: Seq<char>) -> Seq<char> {
    "set -eu; root=$HOME/codesync; mkdir -p -- \"$root\"; cd -- \"$root\"; test -n "@ + q + "; test -f "@ + q + "; test ! -L "@ + q + "; head -c 262145 -- "@ + q
}

pub open spec fn outside_error() -> Seq<char> {
    "Choose a location inside ~/codesync."@
}

/// The script that lists the directory `path` under `~/codesync` on a server
/// (or prints the first `PREVIEW_BYTES + 1` bytes of the file there, for a
/// preview). Paths that could leave `~/codesync` are refused.
pub fn remote_script(path: &str, preview: bool) -> (r: Result<String, String>)
    ensures
        r matches Ok(s) ==> plain_relative(path@) && s@ == if preview {
            preview_script(quoted(path@))
        } else {
            listing_script(quoted(path@))
        },
        r matches Err(e) ==> !plain_relative(path@) && e@ == outside_error(),
{
    let p = chars(path);
    if !is_plain_relative(&p) {
        return Err(owned("Choose a location inside ~/codesync."));
    }
    let q = quote(path);
    let mut out: Vec<char> = Vec::new();
    if preview {
        crate::text::push_str(&mut out, "set -eu; root=$HOME/codesync; mkdir -p -- \"$root\"; cd -- \"$root\"; test -n ");
        crate::text::push_str(&mut out, q.as_str());
        crate::text::push_str(&mut out, "; test -f ");
        crate::text::push_str(&mut out, q.as_str());
        crate::text::push_str(&mut out, "; test ! -L ");
        crate::text::push_str(&mut out, q.as_str());
        crate::text::push_str(&mut out, "; head -c 262145 -- ");
        crate::text::push_str(&mut out, q.as_str());
        return Ok(string_of(&out));
    }
    crate::text::push_str(&mut out, "set -eu\nroot=$HOME/codesync\nmkdir -p -- \"$root\"\ncd -- \"$root\"\nif [ -n ");
    crate::text::push_str(&mut out, q.as_str());
    crate::text::push_str(&mut out, " ]; then cd -- ");
    crate::text::push_str(&mut out, q.as_str());
    crate::text::push_str(&mut out, "; fi\ncase \"$(pwd -P)/\" in\n    \"$(cd -- \"$root\" && pwd -P)/\"*) ;;\n    *) exit 1 ;;\nesac\nprintf 'PATH\\000'\nroot_phys=$(cd -- \"$root\" && pwd -P)\nhere=$(pwd -P)\nif [ \"$here\" = \"$root_phys\" ]; then\n    printf '\\000'\nelse\n    printf '%s\\000' \"${here#\"$root_phys\"/}\"\nfi\ncount=0\nfor entry in ./* ./.[!.]* ./..?*; do\n    [ -e \"$entry\" ] || [ -L \"$entry\" ] || continue\n    if [ \"$count\" -ge 5000 ]; then printf 'LIMIT\\000'; exit 0; fi\n    count=$((count + 1))\n    size=0\n    if [ -L \"$entry\" ]; then kind=link\n    elif [ -d \"$entry\" ]; then kind=dir\n    elif [ -f \"$entry\" ]; then kind=file; size=$(stat -c %s -- \"$entry\")\n    else kind=other\n    fi\n    printf '%s\\000%s\\000%s\\000' \"$kind\" \"$size\" \"${entry#./}\"\ndone\nprintf 'END\\000'\n");
    Ok(string_of(&out))
}

// ---------------------------------------------------------------------------
// Reading a listing
// ---------------------------------------------------------------------------

/// What a directory entry is.
#[derive(Clone, Copy, PartialEq, Eq, Structural, Debug)]
pub enum Kind {
    Directory,
    File,
    Link,
    Other,
}

/// Listings show directories first, then files, links and other entries.
pub open spec fn kind_rank(k: Kind) -> int {
    match k {
        Kind::Directory => 0,
        Kind::File => 1,
        Kind::Link => 2,
        Kind::Other => 3,
    }
}

fn rank_of(k: Kind) -> (r: u8)
    ensures
        r as int == kind_rank(k),
{
    match k {
        Kind::Directory => 0,
        Kind::File => 1,
        Kind::Link => 2,
        Kind::Other => 3,
    }
}

/// One entry of a directory listing.
pub struct Entry {
    pub name: String,
    pub kind: Kind,
    pub size: u64,
}

pub type EntryView = (Seq<char>, Kind, u64);

impl View for Entry {
    type V = EntryView;

    open spec fn view(&self) -> EntryView {
        (self.name@, self.kind, self.size)
    }
}

/// A directory listing: the directory relative to the root, its entries in
/// listing order, and whether the entry limit cut it short.
pub struct Listing {
    pub relative: String,
    pub entries: Vec<Entry>,
    pub limited: bool,
}

pub open spec fn entry_views(v: Seq<Entry>) -> Seq<EntryView> {
    v.map_values(|e: Entry| e@)
}

/// `a` is listed before `b`: by kind, then by name in code point order.
pub open spec fn entry_before(a: EntryView, b: EntryView) -> bool {
    kind_rank(a.1) < kind_rank(b.1) || (kind_rank(a.1) == kind_rank(b.1) && crate::order::lex_lt(
        a.0,
        b.0,
        false,
    ))
}

/// Inserts `e` after every entry of `s` not listed after it.
pub open spec fn insert_entry(s: Seq<EntryView>, e: EntryView) -> Seq<EntryView>
    decreases s.len(),
{
    if s.len() == 0 {
        seq![e]
    } else if entry_before(e, s[0]) {
        seq![e] + s
    } else {
        seq![s[0]] + insert_entry(s.drop_first(), e)
    }
}

/// The entries in listing order; entries that tie keep their order (the
/// stable sort of `sort_by`).
pub open spec fn sort_entries(s: Seq<EntryView>) -> Seq<EntryView>
    decreases s.len(),
{
    if s.len() == 0 {
        seq![]
    } else {
        insert_entry(sort_entries(s.drop_last()), s.last())
    }
}

proof fn lemma_insert_entry(s: Seq<EntryView>, e: EntryView, j: int)
    requires
        0 <= j <= s.len(),
        forall|i: int| 0 <= i < j ==> !entry_before(e, #[trigger] s[i]),
        j == s.len() || entry_before(e, s[j]),
    ensures
        insert_entry(s, e) == s.insert(j, e),
    decreases s.len(),
{
    if s.len() == 0 {
        assert(s.insert(j, e) =~= seq![e]);
    } else if j == 0 {
        assert(s.insert(0, e) =~= seq![e] + s);
    } else {
        let t = s.drop_first();
        assert forall|i: int| 0 <= i < j - 1 implies !entry_before(e, #[trigger] t[i]) by {
            assert(t[i] == s[i + 1]);
        }
        if j < s.len() {
            assert(t[j - 1] == s[j]);
        }
        lemma_insert_entry(t, e, j - 1);
        assert(seq![s[0]] + t.insert(j - 1, e) =~= s.insert(j, e));
    }
}

fn before(a: &Entry, b: &Entry) -> (r: bool)
    ensures
        r == entry_before(a@, b@),
{
    let ra = rank_of(a.kind);
    let rb = rank_of(b.kind);
    if ra != rb {
        return ra < rb;
    }
    crate::order::less(&chars(a.name.as_str()), &chars(b.name.as_str()), false)
}

fn copy_entry(e: &Entry) -> (r: Entry)
    ensures
        r@ == e@,
{
    Entry { name: e.name.clone(), kind: e.kind, size: e.size }
}

/// Puts entries in listing order.
fn sort_listing(entries: &Vec<Entry>) -> (r: Vec<Entry>)
    ensures
        entry_views(r@) == sort_entries(entry_views(entries@)),
{
    let ghost all = entry_views(entries@);
    let mut out: Vec<Entry> = Vec::new();
    let mut n: usize = 0;
    assert(all.take(0) =~= Seq::<EntryView>::empty());
    while n < entries.len()
        invariant
            n <= entries@.len(),
            all == entry_views(entries@),
            entry_views(out@) == sort_entries(all.take(n as int)),
        decreases entries@.len() - n,
    {
        let e = copy_entry(&entries[n]);
        assert(all[n as int] == e@);
        let mut j: usize = 0;
        while j < out.len() && !before(&e, &out[j])
            invariant
                j <= out@.len(),
                forall|i: int| 0 <= i < j ==> !entry_before(e@, #[trigger] entry_views(out@)[i]),
            decreases out@.len() - j,
        {
            j = j + 1;
        }
        proof {
            lemma_insert_entry(entry_views(out@), e@, j as int);
            assert(all.take(n + 1).drop_last() == all.take(n as int));
            assert(all.take(n + 1).last() == e@);
        }
        let ghost ev = e@;
        let ghost prev = entry_views(out@);
        out.insert(j, e);
        assert(entry_views(out@) =~= prev.insert(j as int, ev));
        n = n + 1;
    }
    assert(all.take(all.len() as int) == all);
    out
}

/// The kind named by a listing token.
pub open spec fn kind_of(token: Seq<char>) -> Option<Kind> {
    if token == "dir"@ {
        Some(Kind::Directory)
    } else if token == "file"@ {
        Some(Kind::File)
    } else if token == "link"@ {
        Some(Kind::Link)
    } else if token == "other"@ {
        Some(Kind::Other)
    } else {
        None
    }
}

/// A file name the viewer accepts from a server: one non-empty component,
/// not `.` or `..`, decoded without loss.
pub open spec fn name_ok(name: Seq<char>) -> bool {
    &&& name.len() > 0
    &&& name != "."@
    &&& name != ".."@
    &&& !name.contains('/')
    &&& !name.contains('\u{fffd}')
}

/// Windows cannot hold the name (checked on Windows hosts only).
pub open spec fn windows_refuses(windows: bool, name: Seq<char>) -> bool {
    windows && crate::platform::windows_paths_verdict(seq![name]) is Err
}

pub open spec fn incomplete_error() -> Seq<char> {
    "Incomplete remote listing. Refresh to try again."@
}

/// Reads the entries that start at part `j`: a kind, a size and a name each,
/// up to `END` or `LIMIT`.
pub open spec fn read_entries(parts: Seq<Seq<char>>, j: int, acc: Seq<EntryView>, windows: bool) -> Result<(Seq<EntryView>, bool), Seq<char>>
    decreases parts.len() - j,
{
    if j < 0 || j >= parts.len() {
        Err(incomplete_error())
    } else if parts[j] == "END"@ {
        Ok((acc, false))
    } else if parts[j] == "LIMIT"@ {
        Ok((acc, true))
    } else {
        match kind_of(parts[j]) {
            None => Err(incomplete_error()),
            Some(k) => {
                if j + 1 >= parts.len() || crate::text::parse_unsigned(parts[j + 1], u64::MAX as nat) is None {
                    Err("Invalid file size"@)
                } else if j + 2 >= parts.len() {
                    Err("Missing filename"@)
                } else if !name_ok(parts[j + 2]) {
                    Err("Remote filenames must be valid UTF-8."@)
                } else if windows_refuses(windows, parts[j + 2]) {
                    Err(crate::platform::windows_paths_verdict(seq![parts[j + 2]])->Err_0)
                } else {
                    let size = crate::text::parse_unsigned(parts[j + 1], u64::MAX as nat)->Some_0;
                    read_entries(parts, j + 3, acc.push((parts[j + 2], k, size as u64)), windows)
                }
            },
        }
    }
}

/// `s` without one trailing newline.
pub open spec fn strip_newline(s: Seq<char>) -> Seq<char> {
    if s.len() > 0 && s.last() == '\n' {
        s.drop_last()
    } else {
        s
    }
}

/// What a server's listing output says: the directory, its entries in
/// listing order and whether the listing was cut short; or the error.
pub open spec fn listing_of(output: Seq<char>, windows: bool) -> Result<(Seq<char>, Seq<EntryView>, bool), Seq<char>> {
    let parts = split_char(output, '\0');
    if parts[0] != "PATH"@ {
        Err("Cannot read remote directory listing."@)
    } else if parts.len() < 2 {
        Err("Missing remote path"@)
    } else if windows_refuses(windows, parts[1]) {
        Err(crate::platform::windows_paths_verdict(seq![parts[1]])->Err_0)
    } else if strip_newline(parts[1]).contains('\u{fffd}') || !plain_relative(strip_newline(parts[1])) {
        Err("Invalid remote directory."@)
    } else {
        match read_entries(parts, 2, seq![], windows) {
            Ok((es, limited)) => Ok((strip_newline(parts[1]), sort_entries(es), limited)),
            Err(e) => Err(e),
        }
    }
}

fn has(v: &Vec<char>, c: char) -> (r: bool)
    ensures
        r == v@.contains(c),
{
    crate::text::has_char(v, c)
}

/// Checks a name for Windows when `windows` is set.
fn windows_check(windows: bool, name: &Vec<char>) -> (r: Result<(), String>)
    ensures
        r is Ok == !windows_refuses(windows, name@),
        r matches Err(e) ==> e@ == crate::platform::windows_paths_verdict(seq![name@])->Err_0,
{
    if !windows {
        return Ok(());
    }
    let mut list: Vec<Vec<char>> = Vec::new();
    list.push(copy_chars(name));
    assert(crate::platform::deep(list@) =~= seq![name@]);
    crate::platform::validate_path_list(&list)
}

fn copy_chars(v: &Vec<char>) -> (r: Vec<char>)
    ensures
        r@ == v@,
{
    crate::text::slice(v, 0, v.len())
}

/// Reads a directory listing that the remote script printed.
pub fn remote_listing(output: &str, windows: bool) -> (r: Result<Listing, String>)
    ensures
        match r {
            Ok(l) => listing_of(output@, windows) == Ok::<(Seq<char>, Seq<EntryView>, bool), Seq<char>>(
                (l.relative@, entry_views(l.entries@), l.limited),
            ),
            Err(e) => listing_of(output@, windows) == Err::<(Seq<char>, Seq<EntryView>, bool), Seq<char>>(e@),
        },
{
    proof {
        reveal_strlit("PATH");
        reveal_strlit("END");
        reveal_strlit("LIMIT");
        reveal_strlit("dir");
        reveal_strlit("file");
        reveal_strlit("link");
        reveal_strlit("other");
        reveal_strlit(".");
        reveal_strlit("..");
    }
    let text = chars(output);
    let parts = split(&text, '\0');
    let ghost ps = split_char(output@, '\0');
    proof {
        lemma_split_nonempty(output@, '\0');
    }
    if !eq_str(&parts[0], "PATH") {
        return Err(owned("Cannot read remote directory listing."));
    }
    if parts.len() < 2 {
        return Err(owned("Missing remote path"));
    }
    match windows_check(windows, &parts[1]) {
        Err(e) => return Err(e),
        Ok(()) => {},
    }
    let raw = &parts[1];
    let root = if raw.len() > 0 && raw[raw.len() - 1] == '\n' {
        crate::text::slice(raw, 0, raw.len() - 1)
    } else {
        copy_chars(raw)
    };
    assert(root@ == strip_newline(ps[1]));
    if has(&root, '\u{fffd}') || !is_plain_relative(&root) {
        return Err(owned("Invalid remote directory."));
    }
    let mut entries: Vec<Entry> = Vec::new();
    let mut j: usize = 2;
    assert(entry_views(entries@) =~= Seq::<EntryView>::empty());
    assert(ps[0] == "PATH"@);
    assert(listing_of(output@, windows) == match read_entries(ps, 2, seq![], windows) {
        Ok((es, limited)) => Ok((root@, sort_entries(es), limited)),
        Err(e) => Err(e),
    });
    while j < parts.len()
        invariant
            2 <= j,
            listing_of(output@, windows) == match read_entries(ps, 2, seq![], windows) {
                Ok((es, limited)) => Ok((root@, sort_entries(es), limited)),
                Err(e) => Err(e),
            },
            parts@.len() == ps.len(),
            forall|k: int| 0 <= k < parts@.len() ==> #[trigger] parts@[k]@ == ps[k],
            read_entries(ps, 2, seq![], windows) == read_entries(ps, j as int, entry_views(entries@), windows),
        decreases parts@.len() - j,
    {
        proof {
            reveal_strlit("END");
            reveal_strlit("LIMIT");
            reveal_strlit("dir");
            reveal_strlit("file");
            reveal_strlit("link");
            reveal_strlit("other");
            reveal_strlit(".");
            reveal_strlit("..");
        }
        let token = &parts[j];
        let ghost acc = entry_views(entries@);
        if eq_str(token, "END") || eq_str(token, "LIMIT") {
            let limited = eq_str(token, "LIMIT");
            assert(ps[j as int] == token@);
            assert(read_entries(ps, j as int, acc, windows) == Ok::<
                (Seq<EntryView>, bool),
                Seq<char>,
            >((acc, limited)));
            let sorted = sort_listing(&entries);
            return Ok(Listing { relative: string_of(&root), entries: sorted, limited });
        }
        let kind = if eq_str(token, "dir") {
            Kind::Directory
        } else if eq_str(token, "file") {
            Kind::File
        } else if eq_str(token, "link") {
            Kind::Link
        } else if eq_str(token, "other") {
            Kind::Other
        } else {
            return Err(owned("Incomplete remote listing. Refresh to try again."));
        };
        assert(kind_of(ps[j as int]) == Some(kind));
        if j + 1 >= parts.len() {
            return Err(owned("Invalid file size"));
        }
        let size = match crate::text::parse_unsigned_of(&parts[j + 1], u64::MAX) {
            Some(v) => v,
            None => {
                return Err(owned("Invalid file size"));
            },
        };
        if j + 2 >= parts.len() {
            return Err(owned("Missing filename"));
        }
        let name = &parts[j + 2];
        if name.len() == 0 || eq_str(name, ".") || eq_str(name, "..") || has(name, '/') || has(
            name,
            '\u{fffd}',
        ) {
            return Err(owned("Remote filenames must be valid UTF-8."));
        }
        match windows_check(windows, name) {
            Err(e) => return Err(e),
            Ok(()) => {},
        }
        let e = Entry { name: string_of(name), kind, size };
        entries.push(e);
        assert(entry_views(entries@) =~= acc.push((ps[j + 2], kind, size)));
        j = j + 3;
    }
    Err(owned("Incomplete remote listing. Refresh to try again."))
}

// ---------------------------------------------------------------------------
// Local folders
// ---------------------------------------------------------------------------

/// A local listing: the entries read from a directory, put in listing order.
pub fn local_listing(relative: String, entries: Vec<Entry>, limited: bool) -> (r: Listing)
    ensures
        r.relative@ == relative@,
        entry_views(r.entries@) == sort_entries(entry_views(entries@)),
        r.limited == limited,
{
    let sorted = sort_listing(&entries);
    Listing { relative, entries: sorted, limited }
}

/// Whether a UTF-8 error in `bytes` is only an unfinished character at the
/// end (`Utf8Error::error_len` is `None`).
pub uninterp spec fn utf8_incomplete(bytes: Seq<u8>) -> bool;

/// The longest prefix of `bytes` that is valid UTF-8.
pub open spec fn valid_prefix_len(bytes: Seq<u8>) -> int {
    choose|n: int|
        0 <= n <= bytes.len() && valid_utf8(#[trigger] bytes.take(n)) && forall|m: int|
            n < m <= bytes.len() ==> !valid_utf8(#[trigger] bytes.take(m))
}

/// Decodes bytes with `std::str::from_utf8`: the characters when the bytes
/// are valid UTF-8; otherwise the length of the longest valid prefix
/// (`valid_up_to`) and whether the error is an unfinished character at the
/// end (`error_len` is `None`, named `utf8_incomplete`).
#[verifier::external_body]
fn utf8_text(bytes: &[u8]) -> (r: Result<Vec<char>, (usize, bool)>)
    ensures
        r is Ok <==> valid_utf8(bytes@),
        r matches Ok(cs) ==> cs@ == decode_utf8(bytes@),
        r matches Err((n, incomplete)) ==> {
            &&& n <= bytes@.len()
            &&& valid_utf8(bytes@.take(n as int))
            &&& forall|m: int| n < m <= bytes@.len() ==> !valid_utf8(#[trigger] bytes@.take(m))
            &&& incomplete == utf8_incomplete(bytes@)
        },
{
    match std::str::from_utf8(bytes) {
        Ok(text) => Ok(text.chars().collect()),
        Err(e) => Err((e.valid_up_to(), e.error_len().is_none())),
    }
}

/// A control character other than newline, carriage return and tab.
pub open spec fn stray_control(c: char) -> bool {
    is_control(c) && c != '\n' && c != '\r' && c != '\t'
}

/// The text of the first bytes of a local file: the bytes as UTF-8; when the
/// file was cut short and only an unfinished character at the end spoils
/// them, the text before that character; otherwise none.
pub open spec fn local_text(cut: Seq<u8>, truncated: bool) -> Option<Seq<char>> {
    if valid_utf8(cut) {
        Some(decode_utf8(cut))
    } else if truncated && utf8_incomplete(cut) {
        Some(decode_utf8(cut.take(valid_prefix_len(cut))))
    } else {
        None
    }
}

/// What the viewer shows for that text: the text, or the notice when there
/// is none or it holds a stray control character.
pub open spec fn local_shown(text: Option<Seq<char>>) -> Seq<char> {
    match text {
        Some(t) => if exists|i: int| 0 <= i < t.len() && stray_control(#[trigger] t[i]) {
            binary_notice()
        } else {
            t
        },
        None => binary_notice(),
    }
}

/// Builds the preview of a local file from its first bytes (at most one
/// more than `PREVIEW_BYTES` are needed).
pub fn local_preview(name: &str, bytes: &[u8]) -> (r: Preview)
    ensures
        r.name@ == name@,
        r.truncated == (bytes@.len() > PREVIEW_BYTES),
        r.text@ == local_shown(
            local_text(
                bytes@.take(if bytes@.len() > PREVIEW_BYTES { PREVIEW_BYTES as int } else { bytes@.len() as int }),
                bytes@.len() > PREVIEW_BYTES,
            ),
        ),
{
    let truncated = bytes.len() as u64 > PREVIEW_BYTES;
    let n: usize = if truncated { PREVIEW_BYTES as usize } else { bytes.len() };
    let cut = prefix_bytes(bytes, n);
    let text: Option<Vec<char>> = match utf8_text(cut.as_slice()) {
        Ok(cs) => Some(cs),
        Err((k, incomplete)) => {
            if truncated && incomplete {
                let head = prefix_bytes(cut.as_slice(), k);
                proof {
                    let c = cut@;
                    assert(head@ == c.take(k as int));
                    assert(0 <= k <= c.len() && valid_utf8(c.take(k as int)));
                    assert(valid_prefix_len(c) == k) by {
                        let m = valid_prefix_len(c);
                        assert(0 <= m <= c.len() && valid_utf8(c.take(m)) && forall|j: int|
                            m < j <= c.len() ==> !valid_utf8(#[trigger] c.take(j)));
                        if m < k {
                        } else if m > k {
                        }
                    }
                }
                match utf8_text(head.as_slice()) {
                    Ok(cs) => Some(cs),
                    Err(_) => None,
                }
            } else {
                None
            }
        },
    };
    let mut stray = false;
    let shown = match text {
        Some(cs) => {
            let mut i: usize = 0;
            while i < cs.len()
                invariant
                    i <= cs@.len(),
                    stray == exists|k: int| 0 <= k < i && stray_control(#[trigger] cs@[k]),
                decreases cs@.len() - i,
            {
                let c = cs[i];
                if is_control_char(c) && c != '\n' && c != '\r' && c != '\t' {
                    stray = true;
                }
                i = i + 1;
            }
            if stray {
                owned("Binary or non-UTF-8 file \u{2014} no text preview available.")
            } else {
                string_of(&cs)
            }
        },
        None => owned("Binary or non-UTF-8 file \u{2014} no text preview available."),
    };
    Preview { name: owned(name), text: shown, truncated }
}

/// The first `n` bytes.
fn prefix_bytes(bytes: &[u8], n: usize) -> (r: Vec<u8>)
    requires
        n <= bytes@.len(),
    ensures
        r@ == bytes@.take(n as int),
{
    let mut out: Vec<u8> = Vec::new();
    let mut i: usize = 0;
    while i < n
        invariant
            i <= n <= bytes@.len(),
            out@ == bytes@.take(i as int),
        decreases n - i,
    {
        out.push(bytes[i]);
        i = i + 1;
        assert(out@ =~= bytes@.take(i as int));
    }
    out
}

} // verus!
