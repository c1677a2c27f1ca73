//! The Home screen's bookkeeping: which links a selection shows, removing a
//! folder or server, new links and editors, the task for a link, and the
//! status lines of a network scan.
use vstd::prelude::*;
use crate::auth::Credentials;
use crate::commands::{Action, Task};
use crate::store::{folder_by_id, server_by_id, Data, Folder, Link, NetworkSettings, Server};
use crate::text::{chars, decimal, decimal_of, push_str, string_of};

verus! {

/// A folder or a server picked on Home.
#[derive(Clone, Copy, PartialEq, Eq, Structural, Debug)]
pub enum Selection {
    Folder(u64),
    Server(u64),
}

/// A link belongs to the selection.
pub open spec fn link_in(l: Link, s: Selection) -> bool {
    match s {
        Selection::Folder(id) => l.folder == id,
        Selection::Server(id) => l.server == id,
    }
}

/// The links of `ls` that belong to `s`, in order.
pub open spec fn links_in(ls: Seq<Link>, s: Selection) -> Seq<Link>
    decreases ls.len(),
{
    if ls.len() == 0 {
        seq![]
    } else if link_in(ls.last(), s) {
        links_in(ls.drop_last(), s).push(ls.last())
    } else {
        links_in(ls.drop_last(), s)
    }
}

/// The links shown for a folder or a server.
pub fn visible_links(data: &Data, selection: Selection) -> (r: Vec<Link>)
    ensures
        r@ == links_in(data.links@, selection),
{
    let mut r: Vec<Link> = Vec::new();
    let mut i: usize = 0;
    while i < data.links.len()
        invariant
            i <= data.links@.len(),
            r@ == links_in(data.links@.take(i as int), selection),
        decreases data.links@.len() - i,
    {
        assert(data.links@.take(i + 1).drop_last() == data.links@.take(i as int));
        assert(data.links@.take(i + 1).last() == data.links@[i as int]);
        let l = &data.links[i];
        let keep = match selection {
            Selection::Folder(id) => l.folder == id,
            Selection::Server(id) => l.server == id,
        };
        if keep {
            r.push(l.clone());
        }
        i = i + 1;
    }
    assert(data.links@.take(data.links@.len() as int) == data.links@);
    r
}

/// The links of `ls` that do not belong to `s`, in order.
pub open spec fn links_outside(ls: Seq<Link>, s: Selection) -> Seq<Link>
    decreases ls.len(),
{
    if ls.len() == 0 {
        seq![]
    } else if link_in(ls.last(), s) {
        links_outside(ls.drop_last(), s)
    } else {
        links_outside(ls.drop_last(), s).push(ls.last())
    }
}

pub open spec fn folders_without(fs: Seq<Folder>, id: u64) -> Seq<Folder>
    decreases fs.len(),
{
    if fs.len() == 0 {
        seq![]
    } else if fs.last().id == id {
        folders_without(fs.drop_last(), id)
    } else {
        folders_without(fs.drop_last(), id).push(fs.last())
    }
}

pub open spec fn servers_without(ss: Seq<Server>, id: u64) -> Seq<Server>
    decreases ss.len(),
{
    if ss.len() == 0 {
        seq![]
    } else if ss.last().id == id {
        servers_without(ss.drop_last(), id)
    } else {
        servers_without(ss.drop_last(), id).push(ss.last())
    }
}

proof fn lemma_links_outside(ls: Seq<Link>, item: Selection)
    ensures
        forall|i: int|
            0 <= i < links_outside(ls, item).len() ==> !link_in(
                #[trigger] links_outside(ls, item)[i],
                item,
            ),
    decreases ls.len(),
{
    if ls.len() > 0 {
        lemma_links_outside(ls.drop_last(), item);
        let prev = links_outside(ls.drop_last(), item);
        if !link_in(ls.last(), item) {
            assert forall|i: int| 0 <= i < prev.len() + 1 implies !link_in(
                #[trigger] prev.push(ls.last())[i],
                item,
            ) by {
                if i < prev.len() {
                    assert(prev.push(ls.last())[i] == prev[i]);
                }
            }
        }
    }
}

proof fn lemma_folders_without(fs: Seq<Folder>, id: u64)
    ensures
        forall|i: int|
            0 <= i < folders_without(fs, id).len() ==> (#[trigger] folders_without(fs, id)[i]).id
                != id,
    decreases fs.len(),
{
    if fs.len() > 0 {
        lemma_folders_without(fs.drop_last(), id);
        let prev = folders_without(fs.drop_last(), id);
        if fs.last().id != id {
            assert forall|i: int| 0 <= i < prev.len() + 1 implies (#[trigger] prev.push(
                fs.last(),
            )[i]).id != id by {
                if i < prev.len() {
                    assert(prev.push(fs.last())[i] == prev[i]);
                }
            }
        }
    }
}

proof fn lemma_servers_without(ss: Seq<Server>, id: u64)
    ensures
        forall|i: int|
            0 <= i < servers_without(ss, id).len() ==> (#[trigger] servers_without(ss, id)[i]).id
                != id,
    decreases ss.len(),
{
    if ss.len() > 0 {
        lemma_servers_without(ss.drop_last(), id);
        let prev = servers_without(ss.drop_last(), id);
        if ss.last().id != id {
            assert forall|i: int| 0 <= i < prev.len() + 1 implies (#[trigger] prev.push(
                ss.last(),
            )[i]).id != id by {
                if i < prev.len() {
                    assert(prev.push(ss.last())[i] == prev[i]);
                }
            }
        }
    }
}

/// After a removal nothing refers to the removed folder or server: no link
/// of the selection and no folder (or server) with its id is left.
pub proof fn lemma_removal_leaves_nothing(ls: Seq<Link>, fs: Seq<Folder>, ss: Seq<Server>, item: Selection)
    ensures
        forall|i: int|
            0 <= i < links_outside(ls, item).len() ==> !link_in(
                #[trigger] links_outside(ls, item)[i],
                item,
            ),
        item matches Selection::Folder(id) ==> forall|i: int|
            0 <= i < folders_without(fs, id).len() ==> (#[trigger] folders_without(fs, id)[i]).id
                != id,
        item matches Selection::Server(id) ==> forall|i: int|
            0 <= i < servers_without(ss, id).len() ==> (#[trigger] servers_without(ss, id)[i]).id
                != id,
{
    lemma_links_outside(ls, item);
    match item {
        Selection::Folder(id) => lemma_folders_without(fs, id),
        Selection::Server(id) => lemma_servers_without(ss, id),
    }
}

/// The data without a folder or server and without its links; the files
/// stay where they are.
pub fn remove_item(data: &Data, item: Selection) -> (r: Data)
    ensures
        r.links@ == links_outside(data.links@, item),
        match item {
            Selection::Folder(id) => r.folders@ == folders_without(data.folders@, id) && r.servers@
                == data.servers@,
            Selection::Server(id) => r.servers@ == servers_without(data.servers@, id) && r.folders@
                == data.folders@,
        },
{
    let mut links: Vec<Link> = Vec::new();
    let mut i: usize = 0;
    while i < data.links.len()
        invariant
            i <= data.links@.len(),
            links@ == links_outside(data.links@.take(i as int), item),
        decreases data.links@.len() - i,
    {
        assert(data.links@.take(i + 1).drop_last() == data.links@.take(i as int));
        assert(data.links@.take(i + 1).last() == data.links@[i as int]);
        let l = &data.links[i];
        let inside = match item {
            Selection::Folder(id) => l.folder == id,
            Selection::Server(id) => l.server == id,
        };
        if !inside {
            links.push(l.clone());
        }
        i = i + 1;
    }
    assert(data.links@.take(data.links@.len() as int) == data.links@);
    let mut folders: Vec<Folder> = Vec::new();
    let mut servers: Vec<Server> = Vec::new();
    match item {
        Selection::Folder(id) => {
            let mut k: usize = 0;
            while k < data.folders.len()
                invariant
                    k <= data.folders@.len(),
                    folders@ == folders_without(data.folders@.take(k as int), id),
                decreases data.folders@.len() - k,
            {
                assert(data.folders@.take(k + 1).drop_last() == data.folders@.take(k as int));
                assert(data.folders@.take(k + 1).last() == data.folders@[k as int]);
                if data.folders[k].id != id {
                    folders.push(data.folders[k].clone());
                }
                k = k + 1;
            }
            assert(data.folders@.take(data.folders@.len() as int) == data.folders@);
            let mut k: usize = 0;
            while k < data.servers.len()
                invariant
                    k <= data.servers@.len(),
                    servers@ == data.servers@.take(k as int),
                decreases data.servers@.len() - k,
            {
                servers.push(data.servers[k].clone());
                k = k + 1;
                assert(servers@ =~= data.servers@.take(k as int));
            }
            assert(data.servers@.take(data.servers@.len() as int) == data.servers@);
        },
        Selection::Server(id) => {
            let mut k: usize = 0;
            while k < data.servers.len()
                invariant
                    k <= data.servers@.len(),
                    servers@ == servers_without(data.servers@.take(k as int), id),
                decreases data.servers@.len() - k,
            {
                assert(data.servers@.take(k + 1).drop_last() == data.servers@.take(k as int));
                assert(data.servers@.take(k + 1).last() == data.servers@[k as int]);
                if data.servers[k].id != id {
                    servers.push(data.servers[k].clone());
                }
                k = k + 1;
            }
            assert(data.servers@.take(data.servers@.len() as int) == data.servers@);
            let mut k: usize = 0;
            while k < data.folders.len()
                invariant
                    k <= data.folders@.len(),
                    folders@ == data.folders@.take(k as int),
                decreases data.folders@.len() - k,
            {
                folders.push(data.folders[k].clone());
                k = k + 1;
                assert(folders@ =~= data.folders@.take(k as int));
            }
            assert(data.folders@.take(data.folders@.len() as int) == data.folders@);
        },
    }
    Data { servers, folders, links }
}

/// A new, empty link for the selection: to the selected folder or server,
/// and to the first of the other kind (0 when there is none).
pub fn new_link(data: &Data, selection: Selection) -> (r: Link)
    ensures
        r.id >= data.least_next_id(),
        r.folder == match selection {
            Selection::Folder(id) => id,
            _ => if data.folders@.len() > 0 { data.folders@[0].id } else { 0 },
        },
        r.server == match selection {
            Selection::Server(id) => id,
            _ => if data.servers@.len() > 0 { data.servers@[0].id } else { 0 },
        },
        r.remote@.len() == 0,
{
    let folder = match selection {
        Selection::Folder(id) => id,
        _ => if data.folders.len() > 0 {
            data.folders[0].id
        } else {
            0
        },
    };
    let server = match selection {
        Selection::Server(id) => id,
        _ => if data.servers.len() > 0 {
            data.servers[0].id
        } else {
            0
        },
    };
    Link { id: data.next_id(), folder, server, remote: String::new() }
}

/// The server a server editor opens with: a copy of the saved server, or a
/// new one (port 22, default connection settings) with a fresh id.
pub fn server_for_editor(data: &Data, id: Option<u64>) -> (r: Server)
    ensures
        match id {
            Some(i) if server_by_id(data.servers@, i) is Some => r == server_by_id(data.servers@, i)->Some_0,
            _ => r.id >= data.least_next_id() && r.name@.len() == 0 && r.host@.len() == 0
                && r.user@.len() == 0 && r.port == 22,
        },
{
    if let Some(i) = id {
        if let Some(k) = crate::store::server_index(&data.servers, i) {
            return data.servers[k].clone();
        }
    }
    Server {
        id: data.next_id(),
        name: String::new(),
        host: String::new(),
        user: String::new(),
        port: 22,
        network: NetworkSettings::default(),
    }
}

/// The task that `action` runs for `link`: its server, its folder's path
/// and the remote directory; none when the server or folder is gone or the
/// remote directory is not acceptable.
pub fn task_for_link(data: &Data, link: &Link, action: Action, credentials: Credentials) -> (r: Option<Task>)
    ensures
        match r {
            Some(t) => {
                &&& server_by_id(data.servers@, link.server) == Some(t.server)
                &&& folder_by_id(data.folders@, link.folder) matches Some(f) && t.local == f.path
                    && crate::store::remote_directory_of(link.remote@, f.path@) == Ok::<Seq<char>, Seq<char>>(t.remote@)
                &&& t.action == action
                &&& t.credentials == credentials
            },
            None => server_by_id(data.servers@, link.server) is None || folder_by_id(data.folders@, link.folder) is None
                || crate::store::remote_directory_of(link.remote@, folder_by_id(data.folders@, link.folder)->Some_0.path@) is Err,
        },
{
    let s = match crate::store::server_index(&data.servers, link.server) {
        Some(k) => k,
        None => return None,
    };
    let f = match crate::store::folder_index(&data.folders, link.folder) {
        Some(k) => k,
        None => return None,
    };
    let local = data.folders[f].path.clone();
    let remote = match crate::store::remote_directory(link.remote.as_str(), local.as_str()) {
        Ok(d) => d,
        Err(_) => return None,
    };
    Some(Task { server: data.servers[s].clone(), credentials, local, remote, action })
}

/// Saves the Tailscale address a job verified for server `id`. Whether
/// anything changed (and so needs saving).
pub fn record_tailscale(data: &mut Data, id: u64, host: String, port: u16) -> (changed: bool)
    ensures
        final(data).folders@ == old(data).folders@,
        final(data).links@ == old(data).links@,
        final(data).servers@.len() == old(data).servers@.len(),
        changed == exists|i: int|
            0 <= i < old(data).servers@.len() && old(data).servers@[i].id == id && (old(data).servers@[i].network.tailscale_host@ != host@
                || old(data).servers@[i].network.tailscale_port != port)
                && forall|j: int| 0 <= j < i ==> old(data).servers@[j].id != id,
        forall|i: int|
            0 <= i < old(data).servers@.len() ==> {
                let o = #[trigger] old(data).servers@[i];
                let n = final(data).servers@[i];
                if o.id == id && forall|j: int| 0 <= j < i ==> old(data).servers@[j].id != id {
                    n.network.tailscale_host@ == host@ && n.network.tailscale_port == port && n.id == o.id
                        && n.host == o.host && n.user == o.user && n.port == o.port && n.name == o.name
                        && n.network.mode == o.network.mode && n.network.public_host == o.network.public_host
                        && n.network.public_port == o.network.public_port
                } else {
                    n == o
                }
            },
{
    let mut i: usize = 0;
    while i < data.servers.len()
        invariant
            i <= data.servers@.len(),
            data.servers@ == old(data).servers@,
            data.folders@ == old(data).folders@,
            data.links@ == old(data).links@,
            forall|j: int| 0 <= j < i ==> old(data).servers@[j].id != id,
        decreases data.servers@.len() - i,
    {
        if data.servers[i].id == id {
            let same = crate::text::eq(&chars(data.servers[i].network.tailscale_host.as_str()), &chars(host.as_str()))
                && data.servers[i].network.tailscale_port == port;
            if same {
                return false;
            }
            let mut server = data.servers[i].clone();
            server.network.tailscale_host = host;
            server.network.tailscale_port = port;
            data.servers.set(i, server);
            return true;
        }
        i = i + 1;
    }
    false
}

/// The status line while a scan runs.
pub fn scan_progress(done: usize, total: usize, found: usize) -> (r: String)
    ensures
        r@ == "Scanning: "@ + decimal(done as nat) + "/"@ + decimal(total as nat) + " addresses; "@
            + decimal(found as nat) + " SSH hosts found"@,
{
    let mut out = chars("Scanning: ");
    crate::text::push_all(&mut out, &decimal_of(done as u64));
    push_str(&mut out, "/");
    crate::text::push_all(&mut out, &decimal_of(total as u64));
    push_str(&mut out, " addresses; ");
    crate::text::push_all(&mut out, &decimal_of(found as u64));
    push_str(&mut out, " SSH hosts found");
    string_of(&out)
}

/// The status line when a scan ends.
pub fn scan_finished(cancelled: bool, found: usize) -> (r: String)
    ensures
        r@ == (if cancelled { "Scan stopped"@ } else { "Scan complete"@ }) + ": "@ + decimal(found as nat)
            + " SSH hosts found"@,
{
    let mut out = if cancelled {
        chars("Scan stopped")
    } else {
        chars("Scan complete")
    };
    push_str(&mut out, ": ");
    crate::text::push_all(&mut out, &decimal_of(found as u64));
    push_str(&mut out, " SSH hosts found");
    string_of(&out)
}

proof fn lemma_push_keeps<T>(before: Seq<T>, x: T, y: T)
    requires
        before.contains(y),
    ensures
        before.push(x).contains(y),
{
    let i = choose|i: int| 0 <= i < before.len() && before[i] == y;
    assert(before.push(x)[i] == y);
}

/// Records a sign-in link, replacing the earlier one with the same label.
pub fn add_login(logins: &mut Vec<(String, String)>, label: String, url: String)
    ensures
        final(logins)@.len() >= 1,
        final(logins)@.last().0@ == label@ && final(logins)@.last().1@ == url@,
        forall|i: int| 0 <= i < final(logins)@.len() - 1 ==> (#[trigger] final(logins)@[i]).0@ != label@,
        forall|i: int| 0 <= i < old(logins)@.len() && (#[trigger] old(logins)@[i]).0@ != label@ ==> final(logins)@.contains(old(logins)@[i]),
{
    let mut kept: Vec<(String, String)> = Vec::new();
    let mut i: usize = 0;
    let l = chars(label.as_str());
    while i < logins.len()
        invariant
            i <= logins@.len(),
            l@ == label@,
            forall|k: int| 0 <= k < kept@.len() ==> (#[trigger] kept@[k]).0@ != label@,
            forall|k: int| 0 <= k < i && (#[trigger] logins@[k]).0@ != label@ ==> kept@.contains(logins@[k]),
        decreases logins@.len() - i,
    {
        let ghost prev = kept@;
        let pushed = !crate::text::eq(&chars(logins[i].0.as_str()), &l);
        if pushed {
            let entry = (logins[i].0.clone(), logins[i].1.clone());
            assert(entry == logins@[i as int]);
            kept.push(entry);
            assert(kept@ == prev.push(logins@[i as int]));
        }
        i = i + 1;
        assert forall|k: int| 0 <= k < i && (#[trigger] logins@[k]).0@ != label@ implies kept@.contains(logins@[k]) by {
            if k == i - 1 {
                assert(kept@[kept@.len() - 1] == logins@[k]);
            } else if pushed {
                lemma_push_keeps(prev, logins@[i - 1], logins@[k]);
            }
        }
    }
    let ghost prev = kept@;
    let ghost lv = label@;
    let entry = (label, url);
    let ghost e = entry;
    kept.push(entry);
    assert(kept@ == prev.push(e));
    assert forall|k: int| 0 <= k < old(logins)@.len() && (#[trigger] old(logins)@[k]).0@ != lv implies kept@.contains(old(logins)@[k]) by {
        lemma_push_keeps(prev, e, old(logins)@[k]);
    }
    *logins = kept;
}


// ---------------------------------------------------------------------------
// Starting a sync from Home
// ---------------------------------------------------------------------------

/// What a task is about: its server's id, the local folder, the remote
/// directory and the action.
pub type TaskView = (u64, Seq<char>, Seq<char>, Action);

/// The task `task_for_link` builds for a link, as a view; none when the
/// server or folder is gone or the remote directory is refused.
pub open spec fn link_task(data: Data, l: Link, action: Action) -> Option<TaskView> {
    match server_by_id(data.servers@, l.server) {
        None => None,
        Some(s) => match folder_by_id(data.folders@, l.folder) {
            None => None,
            Some(f) => match crate::store::remote_directory_of(l.remote@, f.path@) {
                Err(_) => None,
                Ok(remote) => Some((s.id, f.path@, remote, action)),
            },
        },
    }
}

pub open spec fn task_view(t: Task) -> TaskView {
    (t.server.id, t.local@, t.remote@, t.action)
}

pub open spec fn some_task(o: Option<TaskView>) -> Seq<TaskView> {
    match o {
        Some(t) => seq![t],
        None => seq![],
    }
}

/// The first link to server `id`.
pub open spec fn first_link_to(ls: Seq<Link>, id: u64) -> Option<Link>
    decreases ls.len(),
{
    if ls.len() == 0 {
        None
    } else if ls[0].server == id {
        Some(ls[0])
    } else {
        first_link_to(ls.drop_first(), id)
    }
}

/// A connection test for each server of the batch, in saved order: the
/// task of its first link.
pub open spec fn test_tasks(data: Data, ss: Seq<Server>, ls: Seq<Link>) -> Seq<TaskView>
    decreases ss.len(),
{
    if ss.len() == 0 {
        seq![]
    } else {
        test_tasks(data, ss.drop_last(), ls) + match first_link_to(ls, ss.last().id) {
            Some(l) => some_task(link_task(data, l, Action::Test)),
            None => seq![],
        }
    }
}

/// A sync task for each link of the batch, in batch order.
pub open spec fn sync_tasks(data: Data, ls: Seq<Link>) -> Seq<TaskView>
    decreases ls.len(),
{
    if ls.len() == 0 {
        seq![]
    } else {
        sync_tasks(data, ls.drop_last()) + some_task(link_task(data, ls.last(), Action::Sync))
    }
}

/// The passwords kept for server `id`: the first entry for it.
pub open spec fn credentials_for(cs: Seq<(u64, Credentials)>, id: u64) -> Option<Credentials>
    decreases cs.len(),
{
    if cs.len() == 0 {
        None
    } else if cs[0].0 == id {
        Some(cs[0].1)
    } else {
        credentials_for(cs.drop_first(), id)
    }
}

/// `c` is what a task for server `id` gets: the kept passwords, or none.
pub open spec fn given_credentials(cs: Seq<(u64, Credentials)>, id: u64, c: Credentials) -> bool {
    match credentials_for(cs, id) {
        Some(k) => c == k,
        None => c.login@.len() == 0 && c.sudo@.len() == 0 && !c.same_password,
    }
}

fn credentials_lookup(cs: &Vec<(u64, Credentials)>, id: u64) -> (r: Credentials)
    ensures
        given_credentials(cs@, id, r),
{
    let mut i: usize = 0;
    assert(cs@.skip(0) == cs@);
    while i < cs.len()
        invariant
            i <= cs@.len(),
            credentials_for(cs@, id) == credentials_for(cs@.skip(i as int), id),
        decreases cs@.len() - i,
    {
        assert(cs@.skip(i as int)[0] == cs@[i as int]);
        if cs[i].0 == id {
            return cs[i].1.clone();
        }
        assert(cs@.skip(i as int).drop_first() == cs@.skip(i + 1));
        i = i + 1;
    }
    Credentials::default()
}

proof fn lemma_server_by_id_has(ss: Seq<Server>, id: u64)
    ensures
        server_by_id(ss, id) matches Some(s) ==> s.id == id,
    decreases ss.len(),
{
    if ss.len() > 0 && ss[0].id != id {
        lemma_server_by_id_has(ss.drop_first(), id);
    }
}

fn first_link_index(ls: &Vec<Link>, id: u64) -> (r: Option<usize>)
    ensures
        match r {
            Some(i) => i < ls@.len() && first_link_to(ls@, id) == Some(ls@[i as int]),
            None => first_link_to(ls@, id) is None,
        },
{
    let mut i: usize = 0;
    assert(ls@.skip(0) == ls@);
    while i < ls.len()
        invariant
            i <= ls@.len(),
            first_link_to(ls@, id) == first_link_to(ls@.skip(i as int), id),
        decreases ls@.len() - i,
    {
        assert(ls@.skip(i as int)[0] == ls@[i as int]);
        if ls[i].server == id {
            return Some(i);
        }
        assert(ls@.skip(i as int).drop_first() == ls@.skip(i + 1));
        i = i + 1;
    }
    None
}

proof fn lemma_link_task(data: Data, l: Link, action: Action, t: Option<Task>, credentials: Credentials)
    requires
        match t {
            Some(t) => {
                &&& server_by_id(data.servers@, l.server) == Some(t.server)
                &&& folder_by_id(data.folders@, l.folder) matches Some(f) && t.local == f.path
                    && crate::store::remote_directory_of(l.remote@, f.path@) == Ok::<Seq<char>, Seq<char>>(t.remote@)
                &&& t.action == action
                &&& t.credentials == credentials
            },
            None => server_by_id(data.servers@, l.server) is None || folder_by_id(data.folders@, l.folder) is None
                || crate::store::remote_directory_of(l.remote@, folder_by_id(data.folders@, l.folder)->Some_0.path@) is Err,
        },
    ensures
        some_task(link_task(data, l, action)) == match t {
            Some(t) => seq![task_view(t)],
            None => Seq::<TaskView>::empty(),
        },
{
}

/// The tasks of a Home sync, from the batch that `share_links` returned:
/// first a connection test per server (through its first link), then a sync
/// per link; links whose server or folder is gone are skipped. Each task
/// gets the passwords kept for its server (`credentials`), or none.
pub fn batch_tasks(data: &Data, links: &Vec<Link>, credentials: &Vec<(u64, Credentials)>) -> (r: Vec<Task>)
    ensures
        r@.map_values(|t: Task| task_view(t)) == test_tasks(*data, data.servers@, links@) + sync_tasks(
            *data,
            links@,
        ),
        forall|k: int| 0 <= k < r@.len() ==> given_credentials(credentials@, (#[trigger] r@[k]).server.id, r@[k].credentials),
        forall|k: int| 0 <= k < r@.len() ==> server_by_id(data.servers@, (#[trigger] r@[k]).server.id) == Some(r@[k].server),
{
    let mut tasks: Vec<Task> = Vec::new();
    let mut i: usize = 0;
    while i < data.servers.len()
        invariant
            i <= data.servers@.len(),
            tasks@.map_values(|t: Task| task_view(t)) == test_tasks(*data, data.servers@.take(i as int), links@),
            forall|k: int| 0 <= k < tasks@.len() ==> given_credentials(credentials@, (#[trigger] tasks@[k]).server.id, tasks@[k].credentials),
            forall|k: int| 0 <= k < tasks@.len() ==> server_by_id(data.servers@, (#[trigger] tasks@[k]).server.id) == Some(tasks@[k].server),
        decreases data.servers@.len() - i,
    {
        let id = data.servers[i].id;
        let ghost before = tasks@;
        assert(data.servers@.take(i + 1).drop_last() == data.servers@.take(i as int));
        assert(data.servers@.take(i + 1).last() == data.servers@[i as int]);
        match first_link_index(links, id) {
            Some(j) => {
                let c = credentials_lookup(credentials, links[j].server);
                let t = task_for_link(data, &links[j], Action::Test, c);
                proof {
                    lemma_link_task(*data, links@[j as int], Action::Test, t, c);
                }
                match t {
                    Some(t) => {
                        proof {
                            lemma_server_by_id_has(data.servers@, links@[j as int].server);
                        }
                        let ghost tv = task_view(t);
                        tasks.push(t);
                        assert(tasks@.map_values(|t: Task| task_view(t)) =~= before.map_values(|t: Task| task_view(t)).push(tv));
                    },
                    None => {},
                }
            },
            None => {},
        }
        assert(tasks@.map_values(|t: Task| task_view(t)) =~= test_tasks(*data, data.servers@.take(i + 1), links@));
        i = i + 1;
    }
    assert(data.servers@.take(i as int) == data.servers@);
    let ghost tests = tasks@.map_values(|t: Task| task_view(t));
    let mut j: usize = 0;
    while j < links.len()
        invariant
            j <= links@.len(),
            tests == test_tasks(*data, data.servers@, links@),
            tasks@.map_values(|t: Task| task_view(t)) == tests + sync_tasks(*data, links@.take(j as int)),
            forall|k: int| 0 <= k < tasks@.len() ==> given_credentials(credentials@, (#[trigger] tasks@[k]).server.id, tasks@[k].credentials),
            forall|k: int| 0 <= k < tasks@.len() ==> server_by_id(data.servers@, (#[trigger] tasks@[k]).server.id) == Some(tasks@[k].server),
        decreases links@.len() - j,
    {
        let ghost before = tasks@;
        assert(links@.take(j + 1).drop_last() == links@.take(j as int));
        assert(links@.take(j + 1).last() == links@[j as int]);
        let c = credentials_lookup(credentials, links[j].server);
        let t = task_for_link(data, &links[j], Action::Sync, c);
        proof {
            lemma_link_task(*data, links@[j as int], Action::Sync, t, c);
        }
        match t {
            Some(t) => {
                proof {
                    lemma_server_by_id_has(data.servers@, links@[j as int].server);
                }
                let ghost tv = task_view(t);
                tasks.push(t);
                assert(tasks@.map_values(|t: Task| task_view(t)) =~= before.map_values(|t: Task| task_view(t)).push(tv));
            },
            None => {},
        }
        assert(tasks@.map_values(|t: Task| task_view(t)) =~= tests + sync_tasks(*data, links@.take(j + 1)));
        j = j + 1;
    }
    assert(links@.take(j as int) == links@);
    tasks
}

/// The line under the Home lists.
pub fn transfers_line(folders: u64, servers: u64) -> (r: String)
    requires
        folders * servers <= u64::MAX,
    ensures
        r@ == decimal(folders as nat) + " folders \u{d7} "@ + decimal(servers as nat) + " servers = "@
            + decimal((folders * servers) as nat) + " transfers"@,
{
    let mut out = decimal_of(folders);
    push_str(&mut out, " folders \u{d7} ");
    crate::text::push_all(&mut out, &decimal_of(servers));
    push_str(&mut out, " servers = ");
    crate::text::push_all(&mut out, &decimal_of(folders * servers));
    push_str(&mut out, " transfers");
    string_of(&out)
}

/// How a host found by a network scan is listed: the saved server with
/// that address and port (its name), or `SSH host <n>` for the `n`-th host.
pub open spec fn discovered_server(ss: Seq<Server>, address: Seq<char>, port: u16) -> Option<Server>
    decreases ss.len(),
{
    if ss.len() == 0 {
        None
    } else if ss[0].host@ == address && ss[0].port == port {
        Some(ss[0])
    } else {
        discovered_server(ss.drop_first(), address, port)
    }
}

/// The label of the `index`-th discovered host and the saved server it is,
/// if any.
pub fn discovered_label(data: &Data, address: &str, port: u16, index: usize) -> (r: (String, Option<u64>))
    requires
        index < usize::MAX,
    ensures
        match discovered_server(data.servers@, address@, port) {
            Some(s) => r.0@ == s.name@ && r.1 == Some(s.id),
            None => r.0@ == "SSH host "@ + decimal((index + 1) as nat) && r.1 is None,
        },
{
    let want = chars(address);
    let mut i: usize = 0;
    assert(data.servers@.skip(0) == data.servers@);
    while i < data.servers.len()
        invariant
            i <= data.servers@.len(),
            want@ == address@,
            discovered_server(data.servers@, address@, port) == discovered_server(data.servers@.skip(i as int), address@, port),
        decreases data.servers@.len() - i,
    {
        assert(data.servers@.skip(i as int)[0] == data.servers@[i as int]);
        if crate::text::eq(&chars(data.servers[i].host.as_str()), &want) && data.servers[i].port == port {
            return (data.servers[i].name.clone(), Some(data.servers[i].id));
        }
        assert(data.servers@.skip(i as int).drop_first() == data.servers@.skip(i + 1));
        i = i + 1;
    }
    let mut out = chars("SSH host ");
    crate::text::push_all(&mut out, &decimal_of((index + 1) as u64));
    (string_of(&out), None)
}

/// The status bar's counts.
pub fn counts_line(data: &Data) -> (r: String)
    ensures
        r@ == decimal(data.servers@.len()) + " servers | "@ + decimal(data.folders@.len())
            + " folders | "@ + decimal(data.links@.len()) + " links"@,
{
    let mut out = decimal_of(data.servers.len() as u64);
    push_str(&mut out, " servers | ");
    crate::text::push_all(&mut out, &decimal_of(data.folders.len() as u64));
    push_str(&mut out, " folders | ");
    crate::text::push_all(&mut out, &decimal_of(data.links.len() as u64));
    push_str(&mut out, " links");
    string_of(&out)
}

/// Whether this host's SSH status is read again: never while a job runs,
/// else when it was never read or was read more than 15 seconds ago.
pub fn host_status_due(job_running: bool, since_read_ms: Option<u64>) -> (r: bool)
    ensures
        r == (!job_running && match since_read_ms {
            None => true,
            Some(ms) => ms > 15000,
        }),
{
    if job_running {
        return false;
    }
    match since_read_ms {
        None => true,
        Some(ms) => ms > 15000,
    }
}

/// The caption of a sign-in button.
pub fn sign_in_caption(label: &str) -> (r: String)
    ensures
        r@ == "Sign in to Tailscale - "@ + label@,
{
    let mut out = chars("Sign in to Tailscale - ");
    push_str(&mut out, label);
    string_of(&out)
}

/// What the activity log shows: its text, or a placeholder while empty.
pub fn activity_text(text: &str) -> (r: &str)
    ensures
        r@ == if text@.len() == 0 { "No operations yet."@ } else { text@ },
{
    if text.is_empty() {
        "No operations yet."
    } else {
        text
    }
}

/// The title of a job on one server, by its action.
pub fn server_job_title(action: &Action) -> (r: &'static str)
    ensures
        r@ == match action {
            Action::Setup => "Setting up server"@,
            Action::Tailscale => "Setting up Tailscale"@,
            _ => "Testing connection"@,
        },
{
    match action {
        Action::Setup => "Setting up server",
        Action::Tailscale => "Setting up Tailscale",
        _ => "Testing connection",
    }
}

/// The job that turns incoming SSH on this host on or off: one task for
/// "This host" at `localhost:22`, run from the temporary directory, and the
/// job's title.
pub fn host_connections_job(enabled: bool, temp_dir: String) -> (r: (Task, &'static str))
    ensures
        r.0.server.id == 0,
        r.0.server.name@ == "This host"@,
        r.0.server.host@ == "localhost"@,
        r.0.server.user@ == Seq::<char>::empty(),
        r.0.server.port == 22,
        r.0.server.network.mode == crate::store::ConnectionMode::Automatic,
        r.0.server.network.public_host@ == Seq::<char>::empty(),
        r.0.server.network.public_port == 22,
        r.0.server.network.tailscale_host@ == Seq::<char>::empty(),
        r.0.server.network.tailscale_port == 22,
        r.0.credentials.login@ == Seq::<char>::empty(),
        r.0.credentials.sudo@ == Seq::<char>::empty(),
        !r.0.credentials.same_password,
        r.0.local@ == temp_dir@,
        r.0.remote@ == Seq::<char>::empty(),
        if enabled {
            r.0.action is PrepareHost && r.1@ == "Enabling incoming SSH"@
        } else {
            r.0.action is DisableHost && r.1@ == "Disabling incoming SSH"@
        },
{
    let server = Server {
        id: 0,
        name: crate::text::owned("This host"),
        host: crate::text::owned("localhost"),
        user: String::new(),
        port: 22,
        network: NetworkSettings::default(),
    };
    let task = Task {
        server,
        credentials: Credentials::default(),
        local: temp_dir,
        remote: String::new(),
        action: if enabled {
            Action::PrepareHost
        } else {
            Action::DisableHost
        },
    };
    (task, if enabled {
        "Enabling incoming SSH"
    } else {
        "Disabling incoming SSH"
    })
}

/// How a link is named under a selection: by the other side's name (the
/// server's for a folder, the folder's for a server), or "Missing item"
/// when that side is gone.
pub open spec fn link_label_of(data: Data, link: Link, selection: Selection) -> Seq<char> {
    match selection {
        Selection::Folder(_) => match server_by_id(data.servers@, link.server) {
            Some(s) => s.name@,
            None => "Missing item"@,
        },
        Selection::Server(_) => match folder_by_id(data.folders@, link.folder) {
            Some(f) => f.name@,
            None => "Missing item"@,
        },
    }
}

/// The name a link is shown with under a selection.
pub fn link_label(data: &Data, link: &Link, selection: Selection) -> (r: String)
    ensures
        r@ == link_label_of(*data, *link, selection),
{
    match selection {
        Selection::Folder(_) => match crate::store::server_index(&data.servers, link.server) {
            Some(k) => data.servers[k].name.clone(),
            None => crate::text::owned("Missing item"),
        },
        Selection::Server(_) => match crate::store::folder_index(&data.folders, link.folder) {
            Some(k) => data.folders[k].name.clone(),
            None => crate::text::owned("Missing item"),
        },
    }
}

/// A link can be added once there is a folder and a server.
pub fn can_add_link(data: &Data) -> (r: bool)
    ensures
        r == (data.folders@.len() > 0 && data.servers@.len() > 0),
{
    data.folders.len() > 0 && data.servers.len() > 0
}

/// The links without the one with this id, in order.
pub open spec fn without_link(ls: Seq<Link>, id: u64) -> Seq<Link>
    decreases ls.len(),
{
    if ls.len() == 0 {
        seq![]
    } else if ls.last().id == id {
        without_link(ls.drop_last(), id)
    } else {
        without_link(ls.drop_last(), id).push(ls.last())
    }
}

/// Removes a link; its folder, server and files stay.
pub fn unlink(data: &mut Data, id: u64)
    ensures
        final(data).folders == old(data).folders,
        final(data).servers == old(data).servers,
        final(data).links@ == without_link(old(data).links@, id),
{
    let mut kept: Vec<Link> = Vec::new();
    let mut i: usize = 0;
    while i < data.links.len()
        invariant
            i <= data.links@.len(),
            data.links == old(data).links,
            data.folders == old(data).folders,
            data.servers == old(data).servers,
            kept@ == without_link(data.links@.take(i as int), id),
        decreases data.links@.len() - i,
    {
        assert(data.links@.take(i + 1).drop_last() == data.links@.take(i as int));
        if data.links[i].id != id {
            kept.push(data.links[i].clone());
        }
        i = i + 1;
    }
    assert(data.links@.take(i as int) == data.links@);
    data.links = kept;
}

} // verus!
