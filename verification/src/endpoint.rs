//! Choosing the address a job uses for a server: each configured address is
//! tried in turn against the server's saved SSH identity, and a verified
//! connection from the local network may be upgraded to the server's
//! Tailscale address.
//!
//! The search is a state machine: the caller runs what an action asks for
//! (ssh, a look at the saved identities) and hands back what happened.
use vstd::prelude::*;
use crate::commands::{
    adopt_peer, adopted, checking_text, endpoint_failure, first_contact_args, first_contact_option,
    listening_port, require_identity, ssh_args, ssh_options, strs,
};
use crate::store::{ConnectionMode, Server};
use crate::tailscale::{
    address_of, peer_address, peer_address_of, running, tailscale_address, tailscale_membership,
    tailscale_running, TailscaleStatus,
};
use crate::text::{chars, eq_str, owned};

verus! {

/// Where the search stands.
pub enum Phase {
    /// About to try the address with this index.
    Next(usize),
    /// Waiting for the connection test of that address.
    Probing(usize),
    /// Waiting to learn whether its identity is now saved.
    Identity(usize),
    /// Waiting for the server's own Tailscale status.
    Status(usize),
    /// Waiting for the port the server's SSH listens on, for this address.
    Port(usize, String),
    /// Waiting for the connection test of the Tailscale address and port.
    Preferred(usize, String, u16),
    /// Finished.
    Over,
}

/// What happened since the last action.
pub enum Event {
    /// Go on (after `Continue`, or to start).
    Resume,
    /// ssh finished: its output, or why it failed.
    Ran(Result<String, String>),
    /// Whether the server's identity is saved now.
    IdentitySaved(bool),
    /// The server's Tailscale status, when it could be read.
    Status(Option<TailscaleStatus>),
}

/// What to tell the user or the app along the way.
pub enum Notice {
    Line(String),
    /// The server is reachable over Tailscale at this address and port.
    TailscaleReady { server: u64, host: String, port: u16 },
}

/// What the caller does next.
pub enum Action {
    /// Run `ssh` with these arguments and report `Ran`.
    Ssh(Vec<String>),
    /// Run `ssh` with these arguments and report the server's status as
    /// `Status`.
    ReadStatus(Vec<String>),
    /// Report `IdentitySaved` for this server.
    CheckIdentity(Server),
    /// Report `Resume`.
    Continue,
    /// The search is over: the server to use (with the chosen address), or
    /// why there is none.
    Finish(Result<Server, String>),
    /// Nothing: the event did not fit the search's state.
    Idle,
}

/// One step's notices and next action.
pub struct Step {
    pub notices: Vec<Notice>,
    pub action: Action,
}

/// The search for one server.
pub struct EndpointSearch {
    /// The server, with a Tailscale peer address adopted when one was found.
    pub server: Server,
    /// The addresses to try, in order: host, port and label.
    pub endpoints: Vec<(String, u16, String)>,
    /// Whether the server's identity was saved before the search.
    pub known: bool,
    /// This device's Tailscale status, when it runs and may be used.
    pub local: Option<TailscaleStatus>,
    pub windows: bool,
    pub known_hosts: Option<String>,
    pub phase: Phase,
}

pub open spec fn stopped() -> Seq<char> {
    "Stopped."@
}

pub open spec fn remote_only_error() -> Seq<char> {
    "Remote only needs a public address or completed Tailscale setup. Edit the server's connection settings."@
}

pub open spec fn not_saved_error() -> Seq<char> {
    "The server's SSH identity was not saved. Check ~/.ssh permissions and retry Test connection."@
}

pub open spec fn no_address_error() -> Seq<char> {
    "No configured address connected with the saved SSH identity and credentials. No files were transferred. Check the server's addresses, credentials, and network access."@
}

pub open spec fn fallback_line() -> Seq<char> {
    "Tailscale SSH is unavailable or its identity did not match; keeping the verified fallback connection.\n"@
}

pub open spec fn tailscale_used_line() -> Seq<char> {
    "Using Tailscale; server identity verified.\n"@
}

pub open spec fn port_script() -> Seq<char> {
    "printf '%s' \"${SSH_CONNECTION##* }\""@
}

pub open spec fn status_script() -> Seq<char> {
    "tailscale status --json"@
}

/// `c` is `s` at another address.
pub open spec fn moved_to(c: Server, s: Server, host: Seq<char>, port: u16) -> bool {
    &&& c.id == s.id
    &&& c.name == s.name
    &&& c.user == s.user
    &&& c.network == s.network
    &&& c.host@ == host
    &&& c.port == port
}

/// ssh's arguments to run `script` on `server`; at first contact the host
/// key may be asked about and no connection is shared.
pub open spec fn ssh_line(
    server: Server,
    windows: bool,
    known_hosts: Option<Seq<char>>,
    first_contact: bool,
    script: Seq<char>,
) -> Seq<Seq<char>> {
    let opts = ssh_options(server, windows, known_hosts);
    (if first_contact {
        opts.map_values(|a: Seq<char>| first_contact_option(a))
    } else {
        opts
    }) + seq![server.destination_of(), script]
}

pub open spec fn opt_str(s: Option<String>) -> Option<Seq<char>> {
    match s {
        Some(x) => Some(x@),
        None => None,
    }
}

/// The notice lines of a step, as text (`TailscaleReady` as its host).
pub open spec fn notice_view(n: Notice) -> (bool, Seq<char>, u64, u16) {
    match n {
        Notice::Line(l) => (false, l@, 0, 0),
        Notice::TailscaleReady { server, host, port } => (true, host@, server, port),
    }
}

pub open spec fn notices_view(v: Seq<Notice>) -> Seq<(bool, Seq<char>, u64, u16)> {
    v.map_values(|n: Notice| notice_view(n))
}

pub open spec fn line(s: Seq<char>) -> (bool, Seq<char>, u64, u16) {
    (false, s, 0, 0)
}

pub open spec fn ready(server: u64, host: Seq<char>, port: u16) -> (bool, Seq<char>, u64, u16) {
    (true, host, server, port)
}

/// The Tailscale address the server reports, when this device sees it as a
/// peer.
pub open spec fn peer_host(local: TailscaleStatus, remote: Option<TailscaleStatus>) -> Option<Seq<char>> {
    match remote {
        Some(st) => match address_of(st) {
            Ok(h) => if peer_address_of(local, h) is Some {
                Some(h)
            } else {
                None
            },
            Err(_) => None,
        },
        None => None,
    }
}

/// The port in an ssh output, when the command worked.
pub open spec fn port_of(r: Result<String, String>) -> Option<u16> {
    match r {
        Ok(text) => {
            let p = crate::text::parse_unsigned(crate::text::trim(text@), 65535);
            match p {
                Some(v) => if v != 0 {
                    Some(v as u16)
                } else {
                    None
                },
                None => None,
            }
        },
        Err(_) => None,
    }
}

impl EndpointSearch {
    pub open spec fn host_at(&self, i: int) -> Seq<char> {
        self.endpoints@[i].0@
    }

    pub open spec fn port_at(&self, i: int) -> u16 {
        self.endpoints@[i].1
    }

    pub open spec fn label_at(&self, i: int) -> Seq<char> {
        self.endpoints@[i].2@
    }

    /// The search is consistent: the phase points at an address.
    pub open spec fn wf(&self) -> bool {
        match self.phase {
            Phase::Next(i) => i <= self.endpoints@.len(),
            Phase::Probing(i) => i < self.endpoints@.len(),
            Phase::Identity(i) => i < self.endpoints@.len(),
            Phase::Status(i) => i < self.endpoints@.len() && self.local is Some,
            Phase::Port(i, _) => i < self.endpoints@.len() && self.local is Some,
            Phase::Preferred(i, _, _) => i < self.endpoints@.len() && self.local is Some,
            Phase::Over => true,
        }
    }

    /// The parts that never change during the search.
    pub open spec fn same_search(&self, other: EndpointSearch) -> bool {
        &&& self.server == other.server
        &&& self.endpoints == other.endpoints
        &&& self.known == other.known
        &&& self.local == other.local
        &&& self.windows == other.windows
        &&& self.known_hosts == other.known_hosts
    }

    /// Ending with the verified address `i`: unless stopped, the notices
    /// get the "Using ..." line and the search returns that address.
    pub open spec fn ends_with_address(&self, i: int, cancelled: bool, before: Seq<(bool, Seq<char>, u64, u16)>, r: Step) -> bool {
        &&& if cancelled {
            &&& notices_view(r.notices@) == before
            &&& (r.action matches Action::Finish(Err(e)) && e@ == stopped())
        } else {
            &&& notices_view(r.notices@) == before.push(
                line("Using "@ + self.label_at(i) + "; server identity verified.\n"@),
            )
            &&& r.action matches Action::Finish(Ok(c)) && moved_to(
                c,
                self.server,
                self.host_at(i),
                self.port_at(i),
            )
        }
    }
}

/// The addresses of a server as owned values.
fn endpoint_copies(server: &Server) -> (r: Vec<(String, u16, String)>)
    ensures
        r@.len() == server.endpoint_list().len(),
        forall|k: int|
            0 <= k < r@.len() ==> ((#[trigger] r@[k]).0@, r@[k].1, r@[k].2@)
                == server.endpoint_list()[k],
{
    let list = server.endpoints();
    assert(list@.len() == server.endpoint_list().len());
    let mut out: Vec<(String, u16, String)> = Vec::new();
    let mut i: usize = 0;
    while i < list.len()
        invariant
            i <= list@.len(),
            list@.len() == server.endpoint_list().len(),
            list@.map_values(|e: (&str, u16, &str)| (e.0@, e.1, e.2@)) == server.endpoint_list(),
            out@.len() == i,
            forall|k: int|
                0 <= k < i ==> ((#[trigger] out@[k]).0@, out@[k].1, out@[k].2@)
                    == server.endpoint_list()[k],
        decreases list@.len() - i,
    {
        let (h, p, l) = list[i];
        assert(server.endpoint_list()[i as int] == (h@, p, l@));
        out.push((owned(h), p, owned(l)));
        i = i + 1;
    }
    out
}

pub(crate) fn moved(server: &Server, host: &String, port: u16) -> (c: Server)
    ensures
        moved_to(c, *server, host@, port),
{
    let mut c = server.clone();
    c.host = host.clone();
    c.port = port;
    c
}

/// ssh's arguments to run `script` on `server`.
pub fn ssh_call(server: &Server, windows: bool, known_hosts: &Option<String>, first_contact: bool, script: &str) -> (r: Vec<String>)
    ensures
        strs(r@) == ssh_line(*server, windows, opt_str(*known_hosts), first_contact, script@),
{
    let kh: Option<&str> = match known_hosts {
        Some(p) => Some(p.as_str()),
        None => None,
    };
    let base = ssh_args(server, windows, kh);
    assert(strs(base@) == ssh_options(*server, windows, opt_str(*known_hosts)));
    let mut args = if first_contact {
        first_contact_args(&base)
    } else {
        base
    };
    let ghost head = strs(args@);
    args.push(server.destination());
    args.push(owned(script));
    assert(strs(args@) =~= head + seq![server.destination_of(), script@]);
    args
}

/// This device's Tailscale status as the search uses it: only when it runs
/// and the server is not local only.
pub open spec fn usable_local(server: Server, local: Option<TailscaleStatus>) -> Option<TailscaleStatus> {
    if server.network.mode != ConnectionMode::LocalOnly && (local matches Some(st) && running(st)) {
        local
    } else {
        None
    }
}

/// The peer address the server adopts: one that this device's Tailscale
/// knows for it, when it has no Tailscale address of its own.
pub open spec fn start_peer(server: Server, local: Option<TailscaleStatus>) -> Option<Seq<char>> {
    match usable_local(server, local) {
        Some(st) => if server.network.tailscale_host@.len() == 0 {
            peer_address_of(st, server.host@)
        } else {
            None
        },
        None => None,
    }
}

/// The Tailscale address the search starts with: the adopted peer's, or the
/// server's own.
pub open spec fn start_tailscale_host(server: Server, local: Option<TailscaleStatus>) -> Seq<char> {
    match start_peer(server, local) {
        Some(a) => a,
        None => server.network.tailscale_host@,
    }
}

/// The server has an address to try once the peer is adopted: a Tailscale
/// address unless it is local only, its local / primary address unless it
/// is remote only, or a public address unless it is local only.
pub open spec fn has_addresses(server: Server, local: Option<TailscaleStatus>) -> bool {
    let n = server.network;
    ||| (n.mode != ConnectionMode::LocalOnly && start_tailscale_host(server, local).len() > 0)
    ||| n.mode != ConnectionMode::RemoteOnly
    ||| (n.mode != ConnectionMode::LocalOnly && n.public_host@.len() > 0)
}

/// What `EndpointSearch::new` gives for these arguments: the identity check
/// for a sync first, then a search over the addresses of the server with
/// the peer adopted, refused exactly when there are none.
pub open spec fn search_started(
    server: Server,
    sync: bool,
    known: bool,
    local: Option<TailscaleStatus>,
    windows: bool,
    known_hosts: Option<String>,
    r: Result<EndpointSearch, String>,
) -> bool {
    match r {
        Ok(s) => {
            &&& known || !sync
            &&& s.known == known
            &&& s.windows == windows
            &&& s.known_hosts == known_hosts
            &&& s.phase == Phase::Next(0)
            &&& s.wf()
            &&& s.local == usable_local(server, local)
            &&& adopted(server, s.server, start_peer(server, local))
            &&& has_addresses(server, local)
            &&& s.endpoints@.len() == s.server.endpoint_list().len()
            &&& forall|k: int|
                0 <= k < s.endpoints@.len() ==> ((#[trigger] s.endpoints@[k]).0@, s.endpoints@[k].1, s.endpoints@[k].2@)
                    == s.server.endpoint_list()[k]
            &&& s.endpoints@.len() > 0
        },
        Err(e) => {
            ||| (!known && sync && e@ == "Confirm this server's identity first: select the server and use Test connection. Check its fingerprint against the intended server."@)
            ||| ((known || !sync) && !has_addresses(server, local) && e@ == remote_only_error())
        },
    }
}

impl EndpointSearch {
    /// Starts the search for `server`: a sync needs its identity saved
    /// first; a server without a Tailscale address adopts the peer that this
    /// device's running Tailscale (`local`, unless the server is local
    /// only) knows for it; a server with no address to try is refused.
    pub fn new(
        server: Server,
        sync: bool,
        known: bool,
        local: Option<TailscaleStatus>,
        windows: bool,
        known_hosts: Option<String>,
    ) -> (r: Result<EndpointSearch, String>)
        ensures
            search_started(server, sync, known, local, windows, known_hosts, r),
    {
        match require_identity(known, sync) {
            Err(e) => return Err(e),
            Ok(()) => {},
        }
        let local_tailnet = if server.network.mode != ConnectionMode::LocalOnly {
            match local {
                Some(st) => if tailscale_running(&st) {
                    Some(st)
                } else {
                    None
                },
                None => None,
            }
        } else {
            None
        };
        let mut server = server;
        let empty = chars(server.network.tailscale_host.as_str()).len() == 0;
        if empty {
            match &local_tailnet {
                Some(st) => {
                    let peer = peer_address(st, server.host.as_str());
                    adopt_peer(&mut server, peer);
                },
                None => {},
            }
        }
        let endpoints = endpoint_copies(&server);
        if endpoints.len() == 0 {
            return Err(owned("Remote only needs a public address or completed Tailscale setup. Edit the server's connection settings."));
        }
        Ok(EndpointSearch { server, endpoints, known, local: local_tailnet, windows, known_hosts, phase: Phase::Next(0) })
    }

    fn finish_with(&mut self, i: usize, cancelled: bool, notices: Vec<Notice>) -> (r: Step)
        requires
            i < old(self).endpoints@.len(),
        ensures
            final(self).same_search(*old(self)),
            final(self).phase == Phase::Over,
            final(self).ends_with_address(i as int, cancelled, notices_view(notices@), r),
    {
        self.phase = Phase::Over;
        let mut notices = notices;
        if cancelled {
            return Step { notices, action: Action::Finish(Err(owned("Stopped."))) };
        }
        let (h, p, l) = (&self.endpoints[i].0, self.endpoints[i].1, &self.endpoints[i].2);
        let ghost before = notices_view(notices@);
        notices.push(Notice::Line(crate::commands::using_message(l.as_str())));
        assert(notices_view(notices@) =~= before.push(
            line("Using "@ + self.label_at(i as int) + "; server identity verified.\n"@),
        ));
        let c = moved(&self.server, h, p);
        Step { notices, action: Action::Finish(Ok(c)) }
    }

    /// One step of the search: `cancelled` is whether the user asked to
    /// stop, `event` what the last action came to. See the outcome
    /// functions for each state.
    pub fn step(&mut self, cancelled: bool, event: Event) -> (r: Step)
        requires
            old(self).wf(),
        ensures
            search_step(*old(self), *final(self), cancelled, event, r),
    {
        match (&self.phase, event) {
            (Phase::Next(i), _) => {
                let i = *i;
                self.on_next(i, cancelled)
            },
            (Phase::Probing(i), Event::Ran(res)) => {
                let i = *i;
                self.on_probed(i, cancelled, res)
            },
            (Phase::Identity(i), Event::IdentitySaved(saved)) => {
                let i = *i;
                self.on_identity(i, cancelled, saved)
            },
            (Phase::Status(i), Event::Status(remote)) => {
                let i = *i;
                self.on_status(i, cancelled, remote)
            },
            (Phase::Port(i, h), Event::Ran(res)) => {
                let (i, h) = (*i, h.clone());
                self.on_port(i, h, cancelled, res)
            },
            (Phase::Preferred(i, h, p), Event::Ran(res)) => {
                let (i, h, p) = (*i, h.clone(), *p);
                self.on_preferred(i, h, p, cancelled, res)
            },
            _ => Step { notices: Vec::new(), action: Action::Idle },
        }
    }

    fn on_next(&mut self, i: usize, cancelled: bool) -> (r: Step)
        requires
            i <= old(self).endpoints@.len(),
        ensures
            final(self).wf(),
            final(self).same_search(*old(self)),
            next_outcome(*old(self), *final(self), i, cancelled, r),
    {
        let ghost s0 = *self;
        self.phase = Phase::Over;
        if i >= self.endpoints.len() {
            return Step {
                notices: Vec::new(),
                action: Action::Finish(Err(owned("No configured address connected with the saved SSH identity and credentials. No files were transferred. Check the server's addresses, credentials, and network access."))),
            };
        }
        if cancelled {
            return Step { notices: Vec::new(), action: Action::Finish(Err(owned("Stopped."))) };
        }
        let c = moved(&self.server, &self.endpoints[i].0, self.endpoints[i].1);
        let args = ssh_call(&c, self.windows, &self.known_hosts, !self.known, "true");
        assert(moved_to(c, s0.server, s0.host_at(i as int), s0.port_at(i as int)));
        let mut notices: Vec<Notice> = Vec::new();
        notices.push(Notice::Line(crate::commands::checking_message(self.endpoints[i].2.as_str())));
        assert(notices_view(notices@) =~= seq![line(checking_text(self.label_at(i as int)))]);
        self.phase = Phase::Probing(i);
        Step { notices, action: Action::Ssh(args) }
    }

    fn on_probed(&mut self, i: usize, cancelled: bool, res: Result<String, String>) -> (r: Step)
        requires
            i < old(self).endpoints@.len(),
        ensures
            final(self).wf(),
            final(self).same_search(*old(self)),
            probed_outcome(*old(self), *final(self), i, cancelled, res, r),
    {
        self.phase = Phase::Over;
        match res {
            Ok(_) => {
                let c = moved(&self.server, &self.endpoints[i].0, self.endpoints[i].1);
                self.phase = Phase::Identity(i);
                Step { notices: Vec::new(), action: Action::CheckIdentity(c) }
            },
            Err(reason) => {
                if cancelled {
                    return Step { notices: Vec::new(), action: Action::Finish(Err(owned("Stopped."))) };
                }
                match endpoint_failure(self.known, self.endpoints[i].2.as_str(), reason.as_str()) {
                    Err(e) => Step { notices: Vec::new(), action: Action::Finish(Err(e)) },
                    Ok(l) => {
                        let mut notices: Vec<Notice> = Vec::new();
                        notices.push(Notice::Line(l));
                        assert(notices_view(notices@) =~= seq![
                            line(self.label_at(i as int) + ": "@ + reason@ + "\n"@),
                        ]);
                        let n = self.endpoints.len();
                        assert(i < n);
                        self.phase = Phase::Next(i + 1);
                        Step { notices, action: Action::Continue }
                    },
                }
            },
        }
    }

    fn on_identity(&mut self, i: usize, cancelled: bool, saved: bool) -> (r: Step)
        requires
            i < old(self).endpoints@.len(),
        ensures
            final(self).wf(),
            final(self).same_search(*old(self)),
            identity_outcome(*old(self), *final(self), i, cancelled, saved, r),
    {
        let ghost s0 = *self;
        self.phase = Phase::Over;
        proof {
            reveal_strlit("Tailscale");
        }
        if !saved {
            return Step {
                notices: Vec::new(),
                action: Action::Finish(Err(owned("The server's SSH identity was not saved. Check ~/.ssh permissions and retry Test connection."))),
            };
        }
        if eq_str(&chars(self.endpoints[i].2.as_str()), "Tailscale") {
            let mut notices: Vec<Notice> = Vec::new();
            notices.push(Notice::TailscaleReady {
                server: self.server.id,
                host: self.endpoints[i].0.clone(),
                port: self.endpoints[i].1,
            });
            assert(notices_view(notices@) =~= seq![
                ready(self.server.id, self.host_at(i as int), self.port_at(i as int)),
            ]);
            return self.finish_with(i, cancelled, notices);
        }
        if self.local.is_some() {
            let c = moved(&self.server, &self.endpoints[i].0, self.endpoints[i].1);
            let args = ssh_call(&c, self.windows, &self.known_hosts, false, "tailscale status --json");
            assert(moved_to(c, s0.server, s0.host_at(i as int), s0.port_at(i as int)));
            self.phase = Phase::Status(i);
            return Step { notices: Vec::new(), action: Action::ReadStatus(args) };
        }
        let none: Vec<Notice> = Vec::new();
        assert(notices_view(none@) =~= Seq::<(bool, Seq<char>, u64, u16)>::empty());
        self.finish_with(i, cancelled, none)
    }

    fn on_status(&mut self, i: usize, cancelled: bool, remote: Option<TailscaleStatus>) -> (r: Step)
        requires
            i < old(self).endpoints@.len(),
            old(self).local is Some,
        ensures
            final(self).wf(),
            final(self).same_search(*old(self)),
            status_outcome(*old(self), *final(self), i, cancelled, remote, r),
    {
        let ghost s0 = *self;
        self.phase = Phase::Over;
        let found: Option<String> = match &remote {
            Some(st) => match tailscale_address(st) {
                Ok(h) => {
                    let member = match &self.local {
                        Some(l) => tailscale_membership(l, h.as_str()),
                        None => false,
                    };
                    if member {
                        Some(h)
                    } else {
                        None
                    }
                },
                Err(_) => None,
            },
            None => None,
        };
        match found {
            Some(h) => {
                let c = moved(&self.server, &self.endpoints[i].0, self.endpoints[i].1);
                let args = ssh_call(&c, self.windows, &self.known_hosts, false, "printf '%s' \"${SSH_CONNECTION##* }\"");
                assert(moved_to(c, s0.server, s0.host_at(i as int), s0.port_at(i as int)));
                self.phase = Phase::Port(i, h);
                Step { notices: Vec::new(), action: Action::Ssh(args) }
            },
            None => {
                let none: Vec<Notice> = Vec::new();
                assert(notices_view(none@) =~= Seq::<(bool, Seq<char>, u64, u16)>::empty());
                self.finish_with(i, cancelled, none)
            },
        }
    }

    fn on_port(&mut self, i: usize, h: String, cancelled: bool, res: Result<String, String>) -> (r: Step)
        requires
            i < old(self).endpoints@.len(),
            old(self).local is Some,
        ensures
            final(self).wf(),
            final(self).same_search(*old(self)),
            port_outcome(*old(self), *final(self), i, h@, cancelled, res, r),
    {
        let ghost s0 = *self;
        self.phase = Phase::Over;
        let port: Option<u16> = match &res {
            Ok(text) => listening_port(text.as_str()),
            Err(_) => None,
        };
        match port {
            Some(p) => {
                let c = moved(&self.server, &h, p);
                let args = ssh_call(&c, self.windows, &self.known_hosts, false, "true");
                assert(moved_to(c, s0.server, h@, p));
                self.phase = Phase::Preferred(i, h, p);
                Step { notices: Vec::new(), action: Action::Ssh(args) }
            },
            None => {
                let none: Vec<Notice> = Vec::new();
                assert(notices_view(none@) =~= Seq::<(bool, Seq<char>, u64, u16)>::empty());
                self.finish_with(i, cancelled, none)
            },
        }
    }

    fn on_preferred(&mut self, i: usize, h: String, p: u16, cancelled: bool, res: Result<String, String>) -> (r: Step)
        requires
            i < old(self).endpoints@.len(),
        ensures
            final(self).wf(),
            final(self).same_search(*old(self)),
            preferred_outcome(*old(self), *final(self), i, h@, p, cancelled, res, r),
    {
        self.phase = Phase::Over;
        if res.is_ok() {
            let c = moved(&self.server, &h, p);
            let mut notices: Vec<Notice> = Vec::new();
            notices.push(Notice::TailscaleReady { server: self.server.id, host: h, port: p });
            notices.push(Notice::Line(owned("Using Tailscale; server identity verified.\n")));
            assert(notices_view(notices@) =~= seq![
                ready(self.server.id, c.host@, p),
                line(tailscale_used_line()),
            ]);
            return Step { notices, action: Action::Finish(Ok(c)) };
        }
        let mut notices: Vec<Notice> = Vec::new();
        notices.push(Notice::Line(owned("Tailscale SSH is unavailable or its identity did not match; keeping the verified fallback connection.\n")));
        assert(notices_view(notices@) =~= seq![line(fallback_line())]);
        self.finish_with(i, cancelled, notices)
    }
}

/// One step of the search, as `EndpointSearch::step` takes it: `s` before,
/// `f` after, `r` what it says.
pub open spec fn search_step(s: EndpointSearch, f: EndpointSearch, cancelled: bool, event: Event, r: Step) -> bool {
    f.wf() && f.same_search(s) && match (s.phase, event) {
        (Phase::Next(i), _) => next_outcome(s, f, i, cancelled, r),
        (Phase::Probing(i), Event::Ran(res)) => probed_outcome(
            s,
            f,
            i,
            cancelled,
            res,
            r,
        ),
        (Phase::Identity(i), Event::IdentitySaved(saved)) => identity_outcome(
            s,
            f,
            i,
            cancelled,
            saved,
            r,
        ),
        (Phase::Status(i), Event::Status(remote)) => status_outcome(
            s,
            f,
            i,
            cancelled,
            remote,
            r,
        ),
        (Phase::Port(i, h), Event::Ran(res)) => port_outcome(
            s,
            f,
            i,
            h@,
            cancelled,
            res,
            r,
        ),
        (Phase::Preferred(i, h, p), Event::Ran(res)) => preferred_outcome(
            s,
            f,
            i,
            h@,
            p,
            cancelled,
            res,
            r,
        ),
        _ => f.phase == s.phase && r.notices@.len() == 0
            && r.action is Idle,
    }
}

/// From `Next(i)`: past the last address the search fails; when stopped it
/// ends; otherwise the address is announced and tested (at first contact
/// with the host-key question allowed).
pub open spec fn next_outcome(s: EndpointSearch, f: EndpointSearch, i: usize, cancelled: bool, r: Step) -> bool {
    if i >= s.endpoints@.len() {
        f.phase == Phase::Over && r.notices@.len() == 0 && (r.action matches Action::Finish(Err(e))
            && e@ == no_address_error())
    } else if cancelled {
        f.phase == Phase::Over && r.notices@.len() == 0 && (r.action matches Action::Finish(Err(e))
            && e@ == stopped())
    } else {
        &&& f.phase == Phase::Probing(i)
        &&& notices_view(r.notices@) == seq![line(checking_text(s.label_at(i as int)))]
        &&& r.action matches Action::Ssh(args) && exists|c: Server|
            #[trigger] moved_to(c, s.server, s.host_at(i as int), s.port_at(i as int)) && strs(args@)
                == ssh_line(c, s.windows, opt_str(s.known_hosts), !s.known, "true"@)
    }
}

/// At first contact (no identity saved yet) only one address is tried: if
/// it fails, the search ends with that failure instead of trying the next.
/// With an identity saved, a failed address is reported and the next one
/// follows.
pub proof fn lemma_first_contact_tries_once(
    s: EndpointSearch,
    f: EndpointSearch,
    cancelled: bool,
    reason: String,
    r: Step,
)
    requires
        s.phase is Probing,
        search_step(s, f, cancelled, Event::Ran(Err(reason)), r),
    ensures
        !s.known || cancelled ==> f.phase == Phase::Over && r.action is Finish,
        s.known && !cancelled ==> f.phase == Phase::Next((s.phase->Probing_0 + 1) as usize)
            && r.action is Continue,
{
}

/// After testing address `i`: success asks whether its identity is saved;
/// a failure ends the search when stopped or at first contact, and
/// otherwise is reported before the next address.
pub open spec fn probed_outcome(
    s: EndpointSearch,
    f: EndpointSearch,
    i: usize,
    cancelled: bool,
    res: Result<String, String>,
    r: Step,
) -> bool {
    match res {
        Ok(_) => {
            &&& f.phase == Phase::Identity(i)
            &&& r.notices@.len() == 0
            &&& r.action matches Action::CheckIdentity(c) && moved_to(
                c,
                s.server,
                s.host_at(i as int),
                s.port_at(i as int),
            )
        },
        Err(reason) => if cancelled {
            f.phase == Phase::Over && r.notices@.len() == 0 && (r.action matches Action::Finish(
                Err(e),
            ) && e@ == stopped())
        } else if !s.known {
            f.phase == Phase::Over && r.notices@.len() == 0 && (r.action matches Action::Finish(
                Err(e),
            ) && e@ == "Initial server connection failed: "@ + reason@
                + " Select Local only or Remote only to choose where to confirm its fingerprint."@)
        } else {
            &&& f.phase == Phase::Next((i + 1) as usize)
            &&& notices_view(r.notices@) == seq![line(s.label_at(i as int) + ": "@ + reason@ + "\n"@)]
            &&& r.action is Continue
        },
    }
}

/// Once address `i` connected: its identity must be saved; a Tailscale
/// address is reported ready and used; with this device on Tailscale the
/// server is asked for its own Tailscale status; otherwise the address is
/// used.
pub open spec fn identity_outcome(
    s: EndpointSearch,
    f: EndpointSearch,
    i: usize,
    cancelled: bool,
    saved: bool,
    r: Step,
) -> bool {
    if !saved {
        f.phase == Phase::Over && r.notices@.len() == 0 && (r.action matches Action::Finish(Err(e))
            && e@ == not_saved_error())
    } else if s.label_at(i as int) == "Tailscale"@ {
        &&& f.phase == Phase::Over
        &&& s.ends_with_address(
            i as int,
            cancelled,
            seq![ready(s.server.id, s.host_at(i as int), s.port_at(i as int))],
            r,
        )
    } else if s.local is Some {
        &&& f.phase == Phase::Status(i)
        &&& r.notices@.len() == 0
        &&& r.action matches Action::ReadStatus(args) && exists|c: Server|
            #[trigger] moved_to(c, s.server, s.host_at(i as int), s.port_at(i as int)) && strs(args@)
                == ssh_line(c, s.windows, opt_str(s.known_hosts), false, status_script())
    } else {
        &&& f.phase == Phase::Over
        &&& s.ends_with_address(i as int, cancelled, seq![], r)
    }
}

/// With the server's status: when the server reports a Tailscale address
/// that this device sees as a peer, the port its SSH listens on is asked
/// for; otherwise address `i` is used.
pub open spec fn status_outcome(
    s: EndpointSearch,
    f: EndpointSearch,
    i: usize,
    cancelled: bool,
    remote: Option<TailscaleStatus>,
    r: Step,
) -> bool {
    match peer_host(s.local->Some_0, remote) {
        Some(h) => {
            &&& f.phase matches Phase::Port(j, fh) && j == i && fh@ == h
            &&& r.notices@.len() == 0
            &&& r.action matches Action::Ssh(args) && exists|c: Server|
                #[trigger] moved_to(c, s.server, s.host_at(i as int), s.port_at(i as int)) && strs(
                    args@,
                ) == ssh_line(c, s.windows, opt_str(s.known_hosts), false, port_script())
        },
        None => {
            &&& f.phase == Phase::Over
            &&& s.ends_with_address(i as int, cancelled, seq![], r)
        },
    }
}

/// With the port: the Tailscale address at that port is tested; without
/// one, address `i` is used.
pub open spec fn port_outcome(
    s: EndpointSearch,
    f: EndpointSearch,
    i: usize,
    h: Seq<char>,
    cancelled: bool,
    res: Result<String, String>,
    r: Step,
) -> bool {
    match port_of(res) {
        Some(p) => {
            &&& f.phase matches Phase::Preferred(j, fh, fp) && j == i && fh@ == h && fp == p
            &&& r.notices@.len() == 0
            &&& r.action matches Action::Ssh(args) && exists|c: Server|
                #[trigger] moved_to(c, s.server, h, p) && strs(args@) == ssh_line(
                    c,
                    s.windows,
                    opt_str(s.known_hosts),
                    false,
                    "true"@,
                )
        },
        None => {
            &&& f.phase == Phase::Over
            &&& s.ends_with_address(i as int, cancelled, seq![], r)
        },
    }
}

/// After testing the Tailscale address: on success it is reported ready
/// and used; otherwise the fallback is noted and address `i` is used.
pub open spec fn preferred_outcome(
    s: EndpointSearch,
    f: EndpointSearch,
    i: usize,
    h: Seq<char>,
    p: u16,
    cancelled: bool,
    res: Result<String, String>,
    r: Step,
) -> bool {
    if res is Ok {
        &&& f.phase == Phase::Over
        &&& notices_view(r.notices@) == seq![ready(s.server.id, h, p), line(tailscale_used_line())]
        &&& r.action matches Action::Finish(Ok(c)) && moved_to(c, s.server, h, p)
    } else {
        &&& f.phase == Phase::Over
        &&& s.ends_with_address(i as int, cancelled, seq![line(fallback_line())], r)
    }
}

/// What the exit status of `ssh-keygen -F <alias>` says of a server's saved
/// identity: 0 found, 1 not found, anything else (or no status) an error.
pub fn identity_status(code: Option<i32>) -> (r: Result<bool, String>)
    ensures
        match code {
            Some(0) => r == Ok::<bool, String>(true),
            Some(1) => r == Ok::<bool, String>(false),
            _ => r matches Err(e) && e@ == "Cannot read the saved SSH server identities."@,
        },
{
    match code {
        Some(0) => Ok(true),
        Some(1) => Ok(false),
        _ => Err(owned("Cannot read the saved SSH server identities.")),
    }
}

} // verus!
