//! What the settings dialogs do when the user saves: the folder editor, the
//! server editor and the link editor.
use vstd::prelude::*;
use crate::config::result_view;
use crate::config::Config;
use crate::store::{
    file_name, file_name_of, folder_by_path, link_verdict, link_views, Data, Folder, Link, Server,
};
use crate::text::{chars, owned, path_join, slice, string_of, trim, trim_of};

verus! {

/// The index of the first id equal to `id`.
pub open spec fn first_with(ids: Seq<u64>, id: u64) -> Option<int>
    decreases ids.len(),
{
    if ids.len() == 0 {
        None
    } else if ids[0] == id {
        Some(0)
    } else {
        match first_with(ids.drop_first(), id) {
            Some(i) => Some(i + 1),
            None => None,
        }
    }
}

proof fn lemma_first_with(ids: Seq<u64>, id: u64, i: int)
    requires
        0 <= i <= ids.len(),
        forall|k: int| 0 <= k < i ==> ids[k] != id,
        i < ids.len() ==> ids[i] == id,
    ensures
        first_with(ids, id) == if i < ids.len() {
            Some(i)
        } else {
            None::<int>
        },
    decreases i,
{
    if i > 0 {
        let t = ids.drop_first();
        assert forall|k: int| 0 <= k < i - 1 implies t[k] != id by {
            assert(t[k] == ids[k + 1]);
        }
        if i < ids.len() {
            assert(t[i - 1] == ids[i]);
        }
        lemma_first_with(t, id, i - 1);
    }
}

pub open spec fn server_ids(ss: Seq<Server>) -> Seq<u64> {
    ss.map_values(|s: Server| s.id)
}

pub open spec fn folder_ids(fs: Seq<Folder>) -> Seq<u64> {
    fs.map_values(|f: Folder| f.id)
}

pub open spec fn link_ids(ls: Seq<Link>) -> Seq<u64> {
    ls.map_values(|l: Link| l.id)
}

/// `s` in place of the first server with its id, or appended.
pub open spec fn upsert_server(ss: Seq<Server>, s: Server) -> Seq<Server> {
    match first_with(server_ids(ss), s.id) {
        Some(i) => ss.update(i, s),
        None => ss.push(s),
    }
}

/// `l` in place of the first link with its id, or appended.
pub open spec fn upsert_link(ls: Seq<Link>, l: Link) -> Seq<Link> {
    match first_with(link_ids(ls), l.id) {
        Some(i) => ls.update(i, l),
        None => ls.push(l),
    }
}

/// A typed directory: blanks around it dropped, and `~/rest` read as `rest`
/// under `home` (an absolute `rest` stands for itself, as `Path::join`
/// does).
pub open spec fn expanded_path(typed: Seq<char>, home: Seq<char>) -> Seq<char> {
    let t = trim(typed);
    if t.len() >= 2 && t[0] == '~' && t[1] == '/' {
        let rest = t.skip(2);
        if rest.len() > 0 && rest[0] == '/' {
            rest
        } else {
            path_join(home, rest)
        }
    } else {
        t
    }
}

/// Expands a typed directory; `home` is `$HOME`, empty when unset.
pub fn expand_path(typed: &str, home: &str) -> (r: String)
    ensures
        r@ == expanded_path(typed@, home@),
{
    let t = trim_of(&chars(typed));
    if t.len() >= 2 && t[0] == '~' && t[1] == '/' {
        let rest = slice(&t, 2, t.len());
        assert(rest@ == t@.skip(2));
        if rest.len() > 0 && rest[0] == '/' {
            return string_of(&rest);
        }
        return crate::text::join_path(home, &rest);
    }
    string_of(&t)
}

pub open spec fn folder_form_error() -> Seq<char> {
    "Enter a name and an existing local directory."@
}

pub open spec fn duplicate_folder_error() -> Seq<char> {
    "That directory is already in the folder list."@
}

/// Another folder than `id` already has the directory `path`.
pub open spec fn path_taken(fs: Seq<Folder>, id: u64, path: Seq<char>) -> bool {
    exists|i: int| 0 <= i < fs.len() && (#[trigger] fs[i]).id != id && fs[i].path@ == path
}

/// Saves the folder editor of folder `id`: `directory` is the typed
/// directory resolved to an existing directory (none when it does not
/// exist or is not a directory). The name must not be blank and no other
/// folder may have that directory. Returns the data to save, with the first
/// folder of that id renamed and moved; the data itself is unchanged.
pub fn edit_folder(data: &Data, id: u64, name: &str, directory: Option<String>) -> (r: Result<Data, String>)
    ensures
        match directory {
            None => r matches Err(e) && e@ == folder_form_error(),
            Some(wanted) => if trim(name@).len() == 0 {
                r matches Err(e) && e@ == folder_form_error()
            } else if path_taken(data.folders@, id, wanted@) {
                r matches Err(e) && e@ == duplicate_folder_error()
            } else {
                r matches Ok(nd) && {
                    &&& nd.servers@ == data.servers@
                    &&& nd.links@ == data.links@
                    &&& nd.folders@.len() == data.folders@.len()
                    &&& match first_with(folder_ids(data.folders@), id) {
                        None => nd.folders@ == data.folders@,
                        Some(i) => {
                            &&& nd.folders@[i].id == id
                            &&& nd.folders@[i].name@ == trim(name@)
                            &&& nd.folders@[i].path@ == wanted@
                            &&& forall|k: int|
                                0 <= k < data.folders@.len() && k != i ==> nd.folders@[k]
                                    == data.folders@[k]
                        },
                    }
                }
            },
        },
{
    let ghost given = directory;
    if directory.is_none() {
        return Err(owned("Enter a name and an existing local directory."));
    }
    let dir = directory.unwrap();
    assert(given == Some(dir));
    let trimmed = trim_of(&chars(name));
    if trimmed.len() == 0 {
        return Err(owned("Enter a name and an existing local directory."));
    }
    let want = chars(dir.as_str());
    let mut i: usize = 0;
    while i < data.folders.len()
        invariant
            i <= data.folders@.len(),
            want@ == dir@,
            given == Some(dir),
            directory == given,
            trim(name@).len() != 0,
            forall|k: int|
                0 <= k < i ==> !((#[trigger] data.folders@[k]).id != id && data.folders@[k].path@
                    == dir@),
        decreases data.folders@.len() - i,
    {
        if data.folders[i].id != id && crate::text::eq(&chars(data.folders[i].path.as_str()), &want) {
            assert(path_taken(data.folders@, id, dir@)) by {
                assert(data.folders@[i as int].id != id && data.folders@[i as int].path@ == dir@);
            }
            return Err(owned("That directory is already in the folder list."));
        }
        i = i + 1;
    }
    let mut nd = data.clone();
    let mut j: usize = 0;
    while j < nd.folders.len() && nd.folders[j].id != id
        invariant
            j <= nd.folders@.len(),
            nd.folders@ == data.folders@,
            forall|k: int| 0 <= k < j ==> folder_ids(data.folders@)[k] != id,
        decreases nd.folders@.len() - j,
    {
        j = j + 1;
    }
    proof {
        lemma_first_with(folder_ids(data.folders@), id, j as int);
    }
    if j < nd.folders.len() {
        let f = Folder { id, name: string_of(&trimmed), path: dir };
        nd.folders.set(j, f);
    }
    Ok(nd)
}

/// Saves the server editor: the name, the addresses and the user lose the
/// blanks around them (the editor keeps the trimmed form either way), the
/// server is checked with `validate`, and when it passes it replaces the
/// saved server with its id or is added.
pub fn edit_server(data: &mut Data, server: &mut Server) -> (r: Result<(), String>)
    ensures
        final(server).id == old(server).id,
        final(server).name@ == trim(old(server).name@),
        final(server).host@ == trim(old(server).host@),
        final(server).user@ == trim(old(server).user@),
        final(server).port == old(server).port,
        final(server).network.mode == old(server).network.mode,
        final(server).network.public_host@ == trim(old(server).network.public_host@),
        final(server).network.public_port == old(server).network.public_port,
        final(server).network.tailscale_host@ == trim(old(server).network.tailscale_host@),
        final(server).network.tailscale_port == old(server).network.tailscale_port,
        result_view(r) == final(server).verdict(),
        r is Ok ==> final(data).servers@ == upsert_server(old(data).servers@, *final(server)),
        r is Err ==> final(data).servers@ == old(data).servers@,
        final(data).folders@ == old(data).folders@,
        final(data).links@ == old(data).links@,
{
    server.name = string_of(&trim_of(&chars(server.name.as_str())));
    server.host = string_of(&trim_of(&chars(server.host.as_str())));
    server.network.public_host = string_of(&trim_of(&chars(server.network.public_host.as_str())));
    server.network.tailscale_host = string_of(
        &trim_of(&chars(server.network.tailscale_host.as_str())),
    );
    server.user = string_of(&trim_of(&chars(server.user.as_str())));
    let verdict = server.validate();
    match verdict {
        Err(e) => Err(e),
        Ok(()) => {
            let copy = server.clone();
            let mut j: usize = 0;
            while j < data.servers.len() && data.servers[j].id != copy.id
                invariant
                    j <= data.servers@.len(),
                    forall|k: int| 0 <= k < j ==> server_ids(data.servers@)[k] != copy.id,
                decreases data.servers@.len() - j,
            {
                j = j + 1;
            }
            proof {
                lemma_first_with(server_ids(data.servers@), copy.id, j as int);
            }
            if j < data.servers.len() {
                data.servers.set(j, copy);
            } else {
                data.servers.push(copy);
            }
            Ok(())
        },
    }
}

/// Saves the link editor: the remote directory loses the blanks around it
/// (the editor keeps the trimmed form either way), the link is checked with
/// `validate_link`, and when it passes it replaces the saved link with its
/// id or is added.
pub fn edit_link(data: &mut Data, link: &mut Link) -> (r: Result<(), String>)
    ensures
        final(link).id == old(link).id,
        final(link).folder == old(link).folder,
        final(link).server == old(link).server,
        final(link).remote@ == trim(old(link).remote@),
        result_view(r) == link_verdict(
            old(data).folders@,
            old(data).servers@,
            link_views(old(data).links@),
            final(link)@,
        ),
        r is Ok ==> final(data).links@ == upsert_link(old(data).links@, *final(link)),
        r is Err ==> final(data).links@ == old(data).links@,
        final(data).folders@ == old(data).folders@,
        final(data).servers@ == old(data).servers@,
{
    link.remote = string_of(&trim_of(&chars(link.remote.as_str())));
    let verdict = data.validate_link(link);
    match verdict {
        Err(e) => Err(e),
        Ok(()) => {
            let copy = link.clone();
            let mut j: usize = 0;
            while j < data.links.len() && data.links[j].id != copy.id
                invariant
                    j <= data.links@.len(),
                    forall|k: int| 0 <= k < j ==> link_ids(data.links@)[k] != copy.id,
                decreases data.links@.len() - j,
            {
                j = j + 1;
            }
            proof {
                lemma_first_with(link_ids(data.links@), copy.id, j as int);
            }
            if j < data.links.len() {
                data.links.set(j, copy);
            } else {
                data.links.push(copy);
            }
            Ok(())
        },
    }
}

/// The directory typed in "Add local folder": blanks around it dropped, and
/// `~/rest` read under `home` when `$HOME` is set (kept as typed otherwise).
pub open spec fn new_folder_path(typed: Seq<char>, home: Option<Seq<char>>) -> Seq<char> {
    match home {
        Some(h) => expanded_path(typed, h),
        None => trim(typed),
    }
}

/// Expands the directory typed in "Add local folder".
pub fn expand_new_folder(typed: &str, home: Option<String>) -> (r: String)
    ensures
        r@ == new_folder_path(typed@, match home {
            Some(h) => Some(h@),
            None => None,
        }),
{
    match home {
        Some(h) => expand_path(typed, h.as_str()),
        None => string_of(&trim_of(&chars(typed))),
    }
}

/// The name of a new folder: the typed name without blanks around it, or
/// the directory's own name when none was typed.
pub open spec fn new_folder_name(typed: Seq<char>, path: Seq<char>) -> Seq<char> {
    if trim(typed).len() == 0 {
        match file_name_of(path) {
            Some(n) => n,
            None => seq![],
        }
    } else {
        trim(typed)
    }
}

pub open spec fn missing_directory_error() -> Seq<char> {
    "Choose an existing local directory."@
}

pub open spec fn not_directory_error() -> Seq<char> {
    "The local path must be a directory."@
}

/// "Add folder": `resolved` is the typed directory resolved on disk (none
/// when it does not exist), `is_dir` whether it is a directory, and `config`
/// its `.codesync` file when one could be read. The folder is imported as
/// `import_folder` does and its id returned.
pub fn add_folder(
    data: &mut Data,
    typed_name: &str,
    resolved: Option<String>,
    is_dir: bool,
    config: Option<Config>,
) -> (r: Result<u64, String>)
    ensures
        match resolved {
            None => r matches Err(e) && e@ == missing_directory_error() && final(data).servers@
                == old(data).servers@ && final(data).folders@ == old(data).folders@
                && final(data).links@ == old(data).links@,
            Some(p) => if !is_dir {
                r matches Err(e) && e@ == not_directory_error() && final(data).servers@
                    == old(data).servers@ && final(data).folders@ == old(data).folders@
                    && final(data).links@ == old(data).links@
            } else {
                r matches Ok(id) && match folder_by_path(old(data).folders@, p@) {
                    Some(f) => id == f.id && final(data).servers@ == old(data).servers@
                        && final(data).folders@ == old(data).folders@ && final(data).links@
                        == old(data).links@,
                    None => {
                        &&& id >= old(data).least_next_id()
                        &&& final(data).folders@.len() == old(data).folders@.len() + 1
                        &&& final(data).folders@.last().id == id
                        &&& final(data).folders@.take(old(data).folders@.len() as int) == old(data).folders@
                        &&& final(data).folders@.last().name@ == new_folder_name(typed_name@, p@)
                        &&& final(data).folders@.last().path@ == p@
                        &&& match config {
                            None => {
                                &&& final(data).servers@ == old(data).servers@
                                &&& final(data).links@ == old(data).links@
                            },
                            Some(c) => {
                                let (user, host) = crate::store::split_destination(c.host@);
                                &&& crate::store::servers_imported(
                                    old(data).servers@,
                                    final(data).servers@,
                                    final(data).folders@,
                                    old(data).links@,
                                    user,
                                    host,
                                )
                                &&& crate::store::links_imported(
                                    old(data).links@,
                                    final(data).links@,
                                    final(data).folders@,
                                    final(data).servers@,
                                    id,
                                    crate::store::import_server_id(
                                        old(data).servers@,
                                        final(data).servers@,
                                        user,
                                        host,
                                    ),
                                    c.dir@,
                                )
                            },
                        }
                    },
                }
            },
        },
{
    let path = match resolved {
        None => return Err(owned("Choose an existing local directory.")),
        Some(p) => p,
    };
    if !is_dir {
        return Err(owned("The local path must be a directory."));
    }
    let trimmed = trim_of(&chars(typed_name));
    let name = if trimmed.len() == 0 {
        match file_name(path.as_str()) {
            Some(n) => n,
            None => String::new(),
        }
    } else {
        string_of(&trimmed)
    };
    Ok(data.import_folder(name, path, config))
}

/// What the server editor starts once the server is saved: Tailscale setup
/// before server setup before a connection test, or nothing.
pub fn after_server_saved(tailscale: bool, setup: bool, test: bool) -> (r: Option<crate::commands::Action>)
    ensures
        tailscale ==> r == Some(crate::commands::Action::Tailscale),
        !tailscale && setup ==> r == Some(crate::commands::Action::Setup),
        !tailscale && !setup && test ==> r == Some(crate::commands::Action::Test),
        !tailscale && !setup && !test ==> r is None,
{
    if tailscale {
        Some(crate::commands::Action::Tailscale)
    } else if setup {
        Some(crate::commands::Action::Setup)
    } else if test {
        Some(crate::commands::Action::Test)
    } else {
        None
    }
}

/// How a connection choice is named.
pub fn mode_label(mode: crate::store::ConnectionMode) -> (r: &'static str)
    ensures
        r@ == match mode {
            crate::store::ConnectionMode::Automatic => "Automatic"@,
            crate::store::ConnectionMode::LocalOnly => "Local only"@,
            crate::store::ConnectionMode::RemoteOnly => "Remote only"@,
        },
{
    match mode {
        crate::store::ConnectionMode::Automatic => "Automatic",
        crate::store::ConnectionMode::LocalOnly => "Local only",
        crate::store::ConnectionMode::RemoteOnly => "Remote only",
    }
}

/// What the link editor shows for its folder: the folder's name, or an
/// invitation to choose one.
pub fn folder_choice(data: &Data, id: u64) -> (r: String)
    ensures
        r@ == match crate::store::folder_by_id(data.folders@, id) {
            Some(f) => f.name@,
            None => "Choose folder"@,
        },
{
    match crate::store::folder_index(&data.folders, id) {
        Some(k) => data.folders[k].name.clone(),
        None => owned("Choose folder"),
    }
}

/// What the link editor shows for its server.
pub fn server_choice(data: &Data, id: u64) -> (r: String)
    ensures
        r@ == match crate::store::server_by_id(data.servers@, id) {
            Some(s) => s.name@,
            None => "Choose server"@,
        },
{
    match crate::store::server_index(&data.servers, id) {
        Some(k) => data.servers[k].name.clone(),
        None => owned("Choose server"),
    }
}

/// The host password question, naming what it authorizes.
pub fn host_password_text(purpose: &str) -> (r: String)
    ensures
        r@ == "Enter this host's sudo password to authorize "@ + purpose@
            + ". It is used only for this step and is not saved."@,
{
    let mut out = chars("Enter this host's sudo password to authorize ");
    crate::text::push_str(&mut out, purpose);
    crate::text::push_str(&mut out, ". It is used only for this step and is not saved.");
    string_of(&out)
}

} // verus!
