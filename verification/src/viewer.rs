//! The read-only folder viewer: which directory it shows, what it has asked
//! for, and what it does with a listing, a preview or a click.
//!
//! Reading a local folder happens outside the library: the viewer hands out
//! a `LocalRequest` and takes the result back; a server is asked through a
//! `RemoteRequest` in the same way.
use vstd::prelude::*;
use crate::browser::{Entry, Kind, Listing, Preview, RemoteRequest};
use crate::text::{chars, owned, string_of};

verus! {

/// The most entries a local listing holds before it is cut short.
pub const MAX_ENTRIES: usize = 10000;

/// A local read the viewer waits for: a listing or a preview of `relative`.
pub struct LocalRequest {
    pub relative: String,
    pub preview: bool,
}

/// The viewer of one folder, local or on a server.
pub struct Browser {
    pub remote: Option<u64>,
    pub pending: Option<RemoteRequest>,
    pub waiting: bool,
    pub root: String,
    pub relative: String,
    pub entries: Vec<Entry>,
    pub local: Option<LocalRequest>,
    pub listing: bool,
    pub loading_preview: bool,
    pub preview: Option<Preview>,
    pub show_hidden: bool,
    pub limited: bool,
    pub error: Option<String>,
}

/// `name` inside the directory `dir` (both relative to the root).
pub open spec fn join_path(dir: Seq<char>, name: Seq<char>) -> Seq<char> {
    if dir.len() == 0 {
        name
    } else {
        dir + seq!['/'] + name
    }
}

/// The directory that holds `path`: everything before its last `/`, or the
/// root when there is none.
pub open spec fn parent_of(path: Seq<char>) -> Seq<char>
    decreases path.len(),
{
    if path.len() == 0 {
        path
    } else if path.last() == '/' {
        path.drop_last()
    } else {
        parent_of(path.drop_last())
    }
}

/// The heading above the entries.
pub open spec fn heading_of(remote: bool, relative: Seq<char>) -> Seq<char> {
    if remote && relative.len() != 0 {
        relative
    } else if relative.len() == 0 {
        seq!['/']
    } else {
        seq!['/'] + relative
    }
}

/// Whether an entry is shown: hidden (dot) files only on request.
pub open spec fn shown(show_hidden: bool, name: Seq<char>) -> bool {
    show_hidden || !(name.len() > 0 && name[0] == '.')
}

/// The message for a click on a link or a special file.
pub open spec fn not_opened() -> Seq<char> {
    "Links and special files are listed but not opened in the viewer."@
}

impl Browser {
    /// The viewer is reading or waiting for something.
    pub open spec fn busy(&self) -> bool {
        self.listing || self.waiting
    }

    /// After a request for `relative` (a listing, or a preview): what
    /// `load` and `preview_file` leave behind.
    pub open spec fn requested(&self, old: Browser, relative: Seq<char>, preview: bool) -> bool {
        &&& self.remote == old.remote
        &&& self.root == old.root
        &&& self.relative == old.relative
        &&& self.entries == old.entries
        &&& self.show_hidden == old.show_hidden
        &&& self.limited == old.limited
        &&& self.preview is None
        &&& self.error is None
        &&& match old.remote {
            Some(server) => {
                &&& self.pending matches Some(req) && req.server == server && req.path@
                    == relative && req.preview == preview
                &&& self.waiting
                &&& local_view(self.local) == local_view(old.local)
                &&& self.listing == old.listing
                &&& self.loading_preview == old.loading_preview
            },
            None => {
                &&& self.local matches Some(req) && req.relative@ == relative && req.preview
                    == preview
                &&& request_view(self.pending) == request_view(old.pending)
                &&& self.waiting == old.waiting
                &&& if preview {
                    self.loading_preview && self.listing == old.listing
                } else {
                    self.listing && !self.loading_preview
                }
            },
        }
    }
}

/// What a local request asks for.
pub open spec fn local_view(r: Option<LocalRequest>) -> Option<(Seq<char>, bool)> {
    match r {
        Some(q) => Some((q.relative@, q.preview)),
        None => None,
    }
}

/// What a remote request asks for.
pub open spec fn request_view(r: Option<RemoteRequest>) -> Option<(u64, Seq<char>, bool)> {
    match r {
        Some(q) => Some((q.server, q.path@, q.preview)),
        None => None,
    }
}

fn copy_request(r: &Option<RemoteRequest>) -> (c: Option<RemoteRequest>)
    ensures
        request_view(c) == request_view(*r),
{
    match r {
        Some(q) => Some(RemoteRequest { server: q.server, path: q.path.clone(), preview: q.preview }),
        None => None,
    }
}

/// Joins a directory and a name with `/`.
pub fn join(dir: &str, name: &str) -> (r: String)
    ensures
        r@ == join_path(dir@, name@),
{
    let d = chars(dir);
    let n = chars(name);
    if d.len() == 0 {
        return string_of(&n);
    }
    let mut out = d;
    out.push('/');
    let mut i: usize = 0;
    let ghost start = out@;
    while i < n.len()
        invariant
            i <= n@.len(),
            out@ == start + n@.take(i as int),
        decreases n@.len() - i,
    {
        out.push(n[i]);
        i = i + 1;
        assert(out@ =~= start + n@.take(i as int));
    }
    assert(n@.take(n@.len() as int) == n@);
    assert(d@ == dir@ && n@ == name@);
    string_of(&out)
}

proof fn lemma_parent(path: Seq<char>, k: int)
    requires
        0 <= k <= path.len(),
        forall|i: int| k <= i < path.len() ==> path[i] != '/',
    ensures
        parent_of(path) == parent_of(path.take(k)),
    decreases path.len() - k,
{
    if k < path.len() {
        assert(path.drop_last().take(k) == path.take(k));
        lemma_parent(path.drop_last(), k);
    } else {
        assert(path.take(k) == path);
    }
}

/// The directory that holds `path`.
pub fn parent(path: &str) -> (r: String)
    ensures
        r@ == parent_of(path@),
{
    let cs = chars(path);
    let mut k: usize = cs.len();
    while k > 0 && cs[k - 1] != '/'
        invariant
            k <= cs@.len(),
            forall|i: int| k <= i < cs@.len() ==> cs@[i] != '/',
        decreases k,
    {
        k = k - 1;
    }
    proof {
        lemma_parent(cs@, k as int);
        if k > 0 {
            assert(cs@.take(k as int).last() == '/');
            assert(cs@.take(k as int).drop_last() == cs@.take(k - 1));
        } else {
            assert(cs@.take(0) =~= Seq::<char>::empty());
        }
    }
    if k == 0 {
        String::new()
    } else {
        string_of(&crate::text::slice(&cs, 0, k - 1))
    }
}

impl Browser {
    /// A viewer of a local folder; it starts by asking for the folder's top.
    pub fn new(root: String) -> (b: Browser)
        ensures
            b.root@ == root@,
            b.remote is None,
            b.pending is None,
            !b.waiting,
            b.relative@.len() == 0,
            b.entries@.len() == 0,
            b.local matches Some(req) && req.relative@.len() == 0 && !req.preview,
            b.listing,
            !b.loading_preview,
            b.preview is None,
            !b.show_hidden,
            !b.limited,
            b.error is None,
    {
        Browser {
            remote: None,
            pending: None,
            waiting: false,
            root,
            relative: String::new(),
            entries: Vec::new(),
            local: Some(LocalRequest { relative: String::new(), preview: false }),
            listing: true,
            loading_preview: false,
            preview: None,
            show_hidden: false,
            limited: false,
            error: None,
        }
    }

    /// A viewer of `~/codesync` on a server; it starts by asking the server
    /// for the folder's top.
    pub fn remote(server: u64) -> (b: Browser)
        ensures
            b.root@ == "~/codesync"@,
            b.remote == Some(server),
            b.pending matches Some(req) && req.server == server && req.path@.len() == 0
                && !req.preview,
            b.waiting,
            b.relative@.len() == 0,
            b.entries@.len() == 0,
            b.local is None,
            !b.listing,
            !b.loading_preview,
            b.preview is None,
            !b.show_hidden,
            !b.limited,
            b.error is None,
    {
        Browser {
            remote: Some(server),
            pending: Some(RemoteRequest { server, path: String::new(), preview: false }),
            waiting: true,
            root: owned("~/codesync"),
            relative: String::new(),
            entries: Vec::new(),
            local: None,
            listing: false,
            loading_preview: false,
            preview: None,
            show_hidden: false,
            limited: false,
            error: None,
        }
    }

    /// Hands out the request for the server, once.
    pub fn take_request(&mut self) -> (r: Option<RemoteRequest>)
        ensures
            request_view(r) == request_view(old(self).pending),
            final(self).pending is None,
            final(self).remote == old(self).remote,
            final(self).waiting == old(self).waiting,
            final(self).relative == old(self).relative,
            final(self).entries == old(self).entries,
            local_view(final(self).local) == local_view(old(self).local),
            final(self).listing == old(self).listing,
            final(self).loading_preview == old(self).loading_preview,
            final(self).preview == old(self).preview,
            final(self).error == old(self).error,
    {
        let r = copy_request(&self.pending);
        self.pending = None;
        r
    }

    /// Hands out the local read, once.
    pub fn take_local_request(&mut self) -> (r: Option<LocalRequest>)
        ensures
            local_view(r) == local_view(old(self).local),
            final(self).local is None,
            request_view(final(self).pending) == request_view(old(self).pending),
            final(self).remote == old(self).remote,
            final(self).waiting == old(self).waiting,
            final(self).relative == old(self).relative,
            final(self).entries == old(self).entries,
            final(self).listing == old(self).listing,
            final(self).loading_preview == old(self).loading_preview,
            final(self).preview == old(self).preview,
            final(self).error == old(self).error,
    {
        let r = match &self.local {
            Some(q) => Some(LocalRequest { relative: q.relative.clone(), preview: q.preview }),
            None => None,
        };
        self.local = None;
        r
    }

    /// A listing from `server`; a listing from another server is dropped.
    pub fn receive_listing(&mut self, server: u64, listing: Listing)
        ensures
            old(self).remote == Some(server) ==> {
                &&& final(self).relative == listing.relative
                &&& final(self).entries == listing.entries
                &&& final(self).limited == listing.limited
                &&& !final(self).waiting
            },
            old(self).remote != Some(server) ==> *final(self) == *old(self),
            final(self).remote == old(self).remote,
            final(self).preview == old(self).preview,
            final(self).error == old(self).error,
            request_view(final(self).pending) == request_view(old(self).pending),
    {
        if self.remote == Some(server) {
            self.relative = listing.relative;
            self.entries = listing.entries;
            self.limited = listing.limited;
            self.waiting = false;
        }
    }

    /// A preview from `server`; one from another server is dropped.
    pub fn receive_preview(&mut self, server: u64, preview: Preview)
        ensures
            old(self).remote == Some(server) ==> {
                &&& final(self).preview == Some(preview)
                &&& !final(self).waiting
            },
            old(self).remote != Some(server) ==> *final(self) == *old(self),
            final(self).remote == old(self).remote,
            final(self).relative == old(self).relative,
            final(self).entries == old(self).entries,
            final(self).error == old(self).error,
    {
        if self.remote == Some(server) {
            self.preview = Some(preview);
            self.waiting = false;
        }
    }

    /// The server's answer has ended: if the viewer still waits, it stops
    /// waiting and shows `error`, if any.
    pub fn finish_remote(&mut self, error: Option<String>)
        ensures
            (old(self).remote is Some && old(self).waiting) ==> {
                &&& !final(self).waiting
                &&& final(self).error == error
            },
            !(old(self).remote is Some && old(self).waiting) ==> *final(self) == *old(self),
            final(self).remote == old(self).remote,
            final(self).relative == old(self).relative,
            final(self).entries == old(self).entries,
            final(self).preview == old(self).preview,
    {
        if self.remote.is_some() && self.waiting {
            self.waiting = false;
            self.error = error;
        }
    }

    /// A local listing has been read (or could not be).
    pub fn finish_listing(&mut self, result: Result<Listing, String>)
        ensures
            !final(self).listing,
            match result {
                Ok(l) => {
                    &&& final(self).relative == l.relative
                    &&& final(self).entries == l.entries
                    &&& final(self).limited == l.limited
                    &&& final(self).error == old(self).error
                },
                Err(e) => {
                    &&& final(self).error == Some(e)
                    &&& final(self).relative == old(self).relative
                    &&& final(self).entries == old(self).entries
                    &&& final(self).limited == old(self).limited
                },
            },
            final(self).remote == old(self).remote,
            final(self).preview == old(self).preview,
            final(self).waiting == old(self).waiting,
            final(self).loading_preview == old(self).loading_preview,
    {
        self.listing = false;
        match result {
            Ok(l) => {
                self.relative = l.relative;
                self.entries = l.entries;
                self.limited = l.limited;
            },
            Err(e) => {
                self.error = Some(e);
            },
        }
    }

    /// A local preview has been read (or could not be).
    pub fn finish_preview(&mut self, result: Result<Preview, String>)
        ensures
            !final(self).loading_preview,
            match result {
                Ok(p) => final(self).preview == Some(p) && final(self).error == old(self).error,
                Err(e) => final(self).error == Some(e) && final(self).preview == old(self).preview,
            },
            final(self).remote == old(self).remote,
            final(self).relative == old(self).relative,
            final(self).entries == old(self).entries,
            final(self).listing == old(self).listing,
            final(self).waiting == old(self).waiting,
    {
        self.loading_preview = false;
        match result {
            Ok(p) => {
                self.preview = Some(p);
            },
            Err(e) => {
                self.error = Some(e);
            },
        }
    }

    fn request(&mut self, relative: String, preview: bool)
        ensures
            final(self).requested(*old(self), relative@, preview),
    {
        match self.remote {
            Some(server) => {
                self.pending = Some(RemoteRequest { server, path: relative, preview });
                self.waiting = true;
            },
            None => {
                self.local = Some(LocalRequest { relative, preview });
                if preview {
                    self.loading_preview = true;
                } else {
                    self.listing = true;
                    self.loading_preview = false;
                }
            },
        }
        self.preview = None;
        self.error = None;
    }

    /// Asks for the listing of `relative`.
    pub fn load(&mut self, relative: String)
        ensures
            final(self).requested(*old(self), relative@, false),
    {
        self.request(relative, false);
    }

    /// Asks for the preview of the file `relative`.
    pub fn preview_file(&mut self, relative: String)
        ensures
            final(self).requested(*old(self), relative@, true),
    {
        self.request(relative, true);
    }

    /// The heading: the directory shown, from the root.
    pub fn heading(&self) -> (r: String)
        ensures
            r@ == heading_of(self.remote is Some, self.relative@),
    {
        proof {
            reveal_strlit("/");
        }
        let rel = chars(self.relative.as_str());
        if self.remote.is_some() && rel.len() != 0 {
            return self.relative.clone();
        }
        if rel.len() == 0 {
            return owned("/");
        }
        let mut out: Vec<char> = Vec::new();
        out.push('/');
        let mut i: usize = 0;
        while i < rel.len()
            invariant
                i <= rel@.len(),
                out@ == seq!['/'] + rel@.take(i as int),
            decreases rel@.len() - i,
        {
            out.push(rel[i]);
            i = i + 1;
            assert(out@ =~= seq!['/'] + rel@.take(i as int));
        }
        assert(rel@.take(rel@.len() as int) == rel@);
        proof {
            reveal_strlit("/");
        }
        string_of(&out)
    }

    /// "Up" is offered when nothing is loading and the viewer is below the
    /// root.
    pub fn can_go_up(&self) -> (r: bool)
        ensures
            r == (!self.busy() && self.relative@.len() != 0),
    {
        !self.listing && !self.waiting && chars(self.relative.as_str()).len() != 0
    }

    /// Goes to the parent directory, when "Up" is offered.
    pub fn go_up(&mut self)
        ensures
            if !old(self).busy() && old(self).relative@.len() != 0 {
                final(self).requested(*old(self), parent_of(old(self).relative@), false)
            } else {
                *final(self) == *old(self)
            },
    {
        if self.can_go_up() {
            let p = parent(self.relative.as_str());
            self.load(p);
        }
    }

    /// Reads the directory again, when nothing is loading.
    pub fn refresh(&mut self)
        ensures
            if !old(self).busy() {
                final(self).requested(*old(self), old(self).relative@, false)
            } else {
                *final(self) == *old(self)
            },
    {
        if !self.listing && !self.waiting {
            let r = self.relative.clone();
            self.load(r);
        }
    }

    /// The indices of the entries shown, in listing order.
    pub fn visible(&self) -> (r: Vec<usize>)
        ensures
            forall|k: int| 0 <= k < r@.len() ==> #[trigger] r@[k] < self.entries@.len(),
            forall|k: int, l: int| 0 <= k < l < r@.len() ==> #[trigger] r@[k] < #[trigger] r@[l],
            forall|i: int|
                0 <= i < self.entries@.len() ==> (shown(
                    self.show_hidden,
                    #[trigger] self.entries@[i].name@,
                ) <==> r@.contains(i as usize)),
    {
        let mut out: Vec<usize> = Vec::new();
        let mut i: usize = 0;
        while i < self.entries.len()
            invariant
                i <= self.entries@.len(),
                forall|k: int| 0 <= k < out@.len() ==> #[trigger] out@[k] < i,
                forall|k: int, l: int| 0 <= k < l < out@.len() ==> #[trigger] out@[k] < #[trigger] out@[l],
                forall|j: int|
                    0 <= j < i ==> (shown(self.show_hidden, #[trigger] self.entries@[j].name@)
                        <==> out@.contains(j as usize)),
            decreases self.entries@.len() - i,
        {
            let name = chars(self.entries[i].name.as_str());
            let hidden = name.len() > 0 && name[0] == '.';
            let ghost before = out@;
            assert(hidden == (self.entries@[i as int].name@.len() > 0
                && self.entries@[i as int].name@[0] == '.'));
            if self.show_hidden || !hidden {
                out.push(i);
            }
            assert forall|j: int|
                0 <= j < i + 1 implies (shown(self.show_hidden, #[trigger] self.entries@[j].name@)
                <==> out@.contains(j as usize)) by {
                if out@.contains(j as usize) {
                    let k = choose|k: int| 0 <= k < out@.len() && out@[k] == j as usize;
                    if k < before.len() {
                        assert(before[k] == j as usize);
                        assert(before.contains(j as usize));
                    }
                }
                if j < i && before.contains(j as usize) {
                    let k = choose|k: int| 0 <= k < before.len() && before[k] == j as usize;
                    assert(out@[k] == j as usize);
                }
                if j == i && shown(self.show_hidden, self.entries@[j].name@) {
                    assert(out@[out@.len() - 1] == j as usize);
                }
                if j == i && before.contains(j as usize) {
                    let k = choose|k: int| 0 <= k < before.len() && before[k] == j as usize;
                    assert(before[k] < i);
                }
            }
            i = i + 1;
        }
        out
    }

    /// A click on the entry at `index`: a directory opens, a file is
    /// previewed, anything else is refused with a message. Clicks while
    /// something loads do nothing.
    pub fn select(&mut self, index: usize)
        requires
            index < old(self).entries@.len(),
        ensures
            ({
                let e = old(self).entries@[index as int];
                let path = join_path(old(self).relative@, e.name@);
                if old(self).busy() {
                    *final(self) == *old(self)
                } else if e.kind == Kind::Directory {
                    final(self).requested(*old(self), path, false)
                } else if e.kind == Kind::File {
                    final(self).requested(*old(self), path, true)
                } else {
                    &&& final(self).error matches Some(m) && m@ == not_opened()
                    &&& final(self).remote == old(self).remote
                    &&& final(self).relative == old(self).relative
                    &&& final(self).entries == old(self).entries
                    &&& final(self).preview == old(self).preview
                    &&& request_view(final(self).pending) == request_view(old(self).pending)
                    &&& local_view(final(self).local) == local_view(old(self).local)
                    &&& final(self).listing == old(self).listing
                    &&& final(self).waiting == old(self).waiting
                }
            }),
    {
        if self.listing || self.waiting {
            return;
        }
        let path = join(self.relative.as_str(), self.entries[index].name.as_str());
        match self.entries[index].kind {
            Kind::Directory => self.load(path),
            Kind::File => self.preview_file(path),
            _ => {
                self.error = Some(
                    owned("Links and special files are listed but not opened in the viewer."),
                );
            },
        }
    }
}

} // verus!
