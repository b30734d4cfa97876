//! The orchestrator: watches local ssh connections, keeps a master per host, scans remote
//! listeners, assigns and forwards local ports, and remembers the assignments.
//!
//! Every message changes the state of the worker and gives the effects that follow from it.
use vstd::prelude::*;
use crate::control;
use crate::control::{Master, MasterRef};
use crate::discover;
use crate::discover::{ConnKey, LocalConn, Resolved};
use crate::host;
use crate::host::{AppW, Effect, HostW, MState, Teardown};
use crate::maps;
use crate::maps::SortedMap;
use crate::ports;
use crate::remote;
use crate::remote::RemoteApp;
use crate::state;
use crate::state::State;
use crate::text;
use crate::types;
use crate::types::{Cmd, Ev, FwdView, HostView, Tier};
use crate::util;

verus! {

/// How the worker is set up.
#[derive(Debug, Clone, Copy)]
pub struct Options {
    /// How long to wait between two scans of a host, in nanoseconds.
    pub interval: u64,
    /// Whether apps are forwarded without being asked for.
    pub auto: bool,
}

/// The time at which a message is handled.
#[derive(Debug, Clone, Copy)]
pub struct Clock {
    /// Nanoseconds on a clock that never goes back.
    pub mono: u64,
    /// Seconds since the Unix epoch.
    pub unix: u64,
}

/// What ssh made of a destination, if it could make anything of it.
pub struct Answer(pub Option<Resolved>);

impl View for Answer {
    type V = Option<discover::ResolvedModel>;

    open spec fn view(&self) -> Option<discover::ResolvedModel> {
        resolved_model(self.0)
    }
}

/// The model of what ssh made of a destination.
pub open spec fn resolved_model(r: Option<Resolved>) -> Option<discover::ResolvedModel> {
    match r {
        Some(r) => Some(r@),
        None => None,
    }
}

/// What the worker is told.
#[allow(inconsistent_fields)]
pub enum WMsg {
    /// A command of the user.
    Cmd(Cmd),
    /// What ssh made of a destination with its options.
    Learned { key: ConnKey, result: Option<Resolved> },
    /// The connections that there are now.
    Tick { conns: Vec<LocalConn> },
    /// How the way to a master has ended.
    MasterDone { key: String, result: Result<Master, String> },
    /// What a scan has found.
    ScanDone { key: String, result: Result<Vec<RemoteApp>, String> },
    /// Whether the master of a host lives.
    AliveChecked { key: String, alive: bool },
    /// Which of the ports that were tried are free, and which one the kernel hands out.
    Picked { key: String, rport: u16, free: Vec<u16>, ephemeral: Option<u16> },
    /// Who uses a local port, if it is not free.
    PortChecked { key: String, rport: u16, lport: u16, user: Option<String> },
    /// How a request for a forward has ended.
    FwdDone { key: String, rport: u16, lport: u16, pin: bool, result: Result<(), String> },
}

/// The model of a [`WMsg`].
#[allow(inconsistent_fields)]
pub enum WMsgModel {
    Cmd(types::CmdModel),
    Learned { key: (Seq<char>, Seq<Seq<char>>), result: Option<discover::ResolvedModel> },
    Tick { conns: Seq<discover::ConnModel> },
    MasterDone { key: Seq<char>, result: Result<control::LinkModel, Seq<char>> },
    ScanDone { key: Seq<char>, result: Result<Seq<remote::RemoteModel>, Seq<char>> },
    AliveChecked { key: Seq<char>, alive: bool },
    Picked { key: Seq<char>, rport: u16, free: Seq<u16>, ephemeral: Option<u16> },
    PortChecked { key: Seq<char>, rport: u16, lport: u16, user: Option<Seq<char>> },
    FwdDone { key: Seq<char>, rport: u16, lport: u16, pin: bool, result: Result<(), Seq<char>> },
}

/// What a scan has found.
pub open spec fn scan_result(result: Result<Vec<RemoteApp>, String>) -> Result<
    Seq<remote::RemoteModel>,
    Seq<char>,
> {
    match result {
        Ok(found) => Ok(remote::models(found@)),
        Err(e) => Err(e@),
    }
}

/// How a request for a forward has ended.
pub open spec fn fwd_result(result: Result<(), String>) -> Result<(), Seq<char>> {
    match result {
        Ok(_) => Ok(()),
        Err(e) => Err(e@),
    }
}

impl View for WMsg {
    type V = WMsgModel;

    open spec fn view(&self) -> WMsgModel {
        match *self {
            WMsg::Cmd(cmd) => WMsgModel::Cmd(cmd@),
            WMsg::Learned { key, result } => WMsgModel::Learned {
                key: key@,
                result: resolved_model(result),
            },
            WMsg::Tick { conns } => WMsgModel::Tick { conns: discover::conn_models(conns@) },
            WMsg::MasterDone { key, result } => WMsgModel::MasterDone {
                key: key@,
                result: host::master_result(result),
            },
            WMsg::ScanDone { key, result } => WMsgModel::ScanDone {
                key: key@,
                result: scan_result(result),
            },
            WMsg::AliveChecked { key, alive } => WMsgModel::AliveChecked { key: key@, alive },
            WMsg::Picked { key, rport, free, ephemeral } => WMsgModel::Picked {
                key: key@,
                rport,
                free: free@,
                ephemeral,
            },
            WMsg::PortChecked { key, rport, lport, user } => WMsgModel::PortChecked {
                key: key@,
                rport,
                lport,
                user: types::opt_text(user),
            },
            WMsg::FwdDone { key, rport, lport, pin, result } => WMsgModel::FwdDone {
                key: key@,
                rport,
                lport,
                pin,
                result: fwd_result(result),
            },
        }
    }
}

/// The worker.
pub struct Worker {
    hosts: SortedMap<String, HostW>,
    memory: State,
    auto: bool,
    interval: u64,
    /// What ssh made of each destination, so that it is not asked on every tick.
    answers: SortedMap<ConnKey, Answer>,
}

/// The model of a [`Worker`].
#[verifier::ext_equal]
pub struct WorkerModel {
    pub hosts: Map<Seq<char>, host::HostWModel>,
    pub memory: state::StateModel,
    pub auto: bool,
    pub interval: u64,
    pub answers: Map<(Seq<char>, Seq<Seq<char>>), Option<discover::ResolvedModel>>,
}

impl View for Worker {
    type V = WorkerModel;

    closed spec fn view(&self) -> WorkerModel {
        WorkerModel {
            hosts: self.hosts@,
            memory: self.memory@,
            auto: self.auto,
            interval: self.interval,
            answers: self.answers@,
        }
    }
}

/// The local ports that live forwards claim, on any host.
pub open spec fn claimed(hosts: Map<Seq<char>, host::HostWModel>) -> Set<u16> {
    Set::new(
        |p: u16|
            exists|key: Seq<char>|
                hosts.contains_key(key) && host::claims(#[trigger] hosts[key]).contains(p),
    )
}

/// An app that is forwarded without being asked for.
pub open spec fn eligible(app: host::AppWModel) -> bool {
    app.shown.tier == Tier::App && !app.shown.muted && app.shown.status is Off
}

/// A list of one port, or of none.
pub open spec fn port_list(p: Option<u16>) -> Seq<u16> {
    match p {
        Some(p) => seq![p],
        None => Seq::empty(),
    }
}

impl WorkerModel {
    /// Whether the host is known and has the app.
    pub open spec fn has_app(self, key: Seq<char>, rport: u16) -> bool {
        self.hosts.contains_key(key) && self.hosts[key].apps.contains_key(rport)
    }

    /// The worker with one host replaced.
    pub open spec fn with_host(self, key: Seq<char>, h: host::HostWModel) -> WorkerModel {
        WorkerModel { hosts: self.hosts.insert(key, h), ..self }
    }

    /// The worker with one app replaced.
    pub open spec fn with_app(self, key: Seq<char>, rport: u16, app: host::AppWModel) -> WorkerModel {
        let h = self.hosts[key];
        self.with_host(key, host::HostWModel { apps: h.apps.insert(rport, app), ..h })
    }

    /// The local ports to prefer for an app: the one it has, the remembered one, the same as on the
    /// remote.
    pub open spec fn prefs(self, key: Seq<char>, rport: u16) -> Seq<u16> {
        port_list(self.hosts[key].apps[rport].shown.lport) + port_list(
            self.memory.entry(key, rport).local_port,
        ) + seq![rport]
    }

    /// The request for a local port for an app.
    pub open spec fn pick(self, key: Seq<char>, rport: u16) -> host::EffectModel {
        host::EffectModel::PickPort {
            key,
            rport,
            tries: ports::candidates(self.prefs(key, rport), claimed(self.hosts)),
        }
    }

    /// The requests for local ports for the eligible apps among those on `rports`.
    pub open spec fn picks(self, key: Seq<char>, rports: Seq<u16>) -> Seq<host::EffectModel>
        decreases rports.len(),
    {
        if rports.len() == 0 {
            Seq::empty()
        } else {
            let before = self.picks(key, rports.drop_last());
            if eligible(self.hosts[key].apps[rports.last()]) {
                before.push(self.pick(key, rports.last()))
            } else {
                before
            }
        }
    }

    /// The requests for local ports that go out for a host without being asked for: none unless
    /// auto-forwarding is on, the host is connected, and it is not paused.
    pub open spec fn auto_picks(self, key: Seq<char>) -> Seq<host::EffectModel> {
        if self.auto && self.hosts.contains_key(key) && self.hosts[key].master is Ready
            && !self.memory.paused.contains(key) {
            self.picks(key, maps::ordered_keys::<u16, host::AppWModel>(self.hosts[key].apps))
        } else {
            Seq::empty()
        }
    }
}

impl Worker {
    /// The local ports claimed by live forwards, on any host.
    fn used_lports(&self) -> (r: Vec<u16>)
        ensures
            r@.to_set() == claimed(self@.hosts),
    {
        let keys = self.hosts.keys();
        let ghost ks = maps::views(keys@);
        let mut out: Vec<u16> = Vec::new();
        assert(out@.to_set() =~= Set::<u16>::empty());
        for i in 0..keys.len()
            invariant
                ks == maps::views(keys@),
                ks.to_set() == self@.hosts.dom(),
                forall|p: u16| #[trigger]
                    out@.to_set().contains(p) <==> exists|j: int|
                        0 <= j < i && host::claims(self@.hosts[#[trigger] ks[j]]).contains(p),
        {
            let ghost before = out@.to_set();
            assert(ks.to_set().contains(ks[i as int]));
            match self.hosts.get(&keys[i]) {
                Some(h) => {
                    h.claim(&mut out);
                    assert(h@ == self@.hosts[ks[i as int]]);
                },
                None => {},
            }
            assert forall|p: u16| #[trigger] out@.to_set().contains(p) <==> exists|j: int|
                0 <= j < i + 1 && host::claims(self@.hosts[#[trigger] ks[j]]).contains(p) by {
                assert(out@.to_set().contains(p) <==> before.contains(p) || host::claims(
                    self@.hosts[ks[i as int]],
                ).contains(p));
            }
        }
        assert forall|p: u16| #[trigger] out@.to_set().contains(p) <==> claimed(
            self@.hosts,
        ).contains(p) by {
            if claimed(self@.hosts).contains(p) {
                let key = choose|key: Seq<char>|
                    self@.hosts.contains_key(key) && host::claims(#[trigger] self@.hosts[key]).contains(
                        p,
                    );
                assert(ks.to_set().contains(key));
                let j = choose|j: int| 0 <= j < ks.len() && ks[j] == key;
                assert(host::claims(self@.hosts[ks[j]]).contains(p));
            }
            if out@.to_set().contains(p) {
                let j = choose|j: int|
                    0 <= j < ks.len() && host::claims(self@.hosts[#[trigger] ks[j]]).contains(p);
                assert(ks.to_set().contains(ks[j]));
            }
        }
        assert(out@.to_set() =~= claimed(self@.hosts));
        out
    }
}

/// An app whose forward to `lport` is under way.
pub open spec fn pending(app: host::AppWModel, lport: u16) -> host::AppWModel {
    host::AppWModel {
        shown: types::AppModel {
            status: types::FwdModel::Pending,
            lport: Some(lport),
            ..app.shown
        },
        ..app
    }
}

/// An app whose forward failed.
pub open spec fn failed(app: host::AppWModel, err: Seq<char>) -> host::AppWModel {
    host::AppWModel {
        shown: types::AppModel { status: types::FwdModel::Error(err), ..app.shown },
        ..app
    }
}

/// The forward command failed because the local port could not be bound.
pub open spec fn bindish(err: Seq<char>) -> bool {
    text::contains_text(err, "bind"@) || text::contains_text(err, "address"@)
        || text::contains_text(err, "listen"@)
}

impl WorkerModel {
    /// Whether forwards may be started on the host: it is connected and not paused.
    pub open spec fn open(self, key: Seq<char>) -> bool {
        self.hosts.contains_key(key) && self.hosts[key].master is Ready
            && !self.memory.paused.contains(key)
    }

    /// The worker and the effects once a local port can be picked for an idle app: the forward is
    /// requested, or there is no port for it.
    pub open spec fn start_forward(
        self,
        key: Seq<char>,
        rport: u16,
        free: Seq<u16>,
        ephemeral: Option<u16>,
    ) -> (WorkerModel, Seq<host::EffectModel>) {
        let app = self.hosts[key].apps[rport];
        if !self.open(key) || !self.has_app(key, rport) || !(app.shown.status is Off)
            || app.shown.muted {
            (self, Seq::empty())
        } else {
            match ports::picked(self.prefs(key, rport), claimed(self.hosts), free, ephemeral) {
                None => (
                    self.with_app(key, rport, failed(app, "no free local port"@)),
                    Seq::empty(),
                ),
                Some(lport) => (
                    self.with_app(key, rport, pending(app, lport)),
                    seq![
                        host::EffectModel::Forward {
                            key,
                            rport,
                            lport,
                            pin: app.shown.pinned,
                            first: None,
                            command: self.hosts[key].master->Ready_0.r.mux(
                                "forward"@,
                                lport,
                                rport,
                            ),
                        },
                    ],
                ),
            }
        }
    }

    /// The worker and the effects once a request for a forward has ended. One that was superseded
    /// meanwhile is cancelled. Success is remembered. A local port that got stolen before it could
    /// be bound is replaced once by a fresh one.
    pub open spec fn fwd_done(
        self,
        key: Seq<char>,
        rport: u16,
        lport: u16,
        pin: bool,
        result: Result<(), Seq<char>>,
        unix: u64,
    ) -> (WorkerModel, Seq<host::EffectModel>) {
        if !self.hosts.contains_key(key) {
            (self, Seq::empty())
        } else {
            let h = self.hosts[key];
            let app = h.apps[rport];
            if !h.apps.contains_key(rport) || app.shown.lport != Some(lport)
                || self.memory.paused.contains(key) {
                (
                    self,
                    if result is Ok && h.master is Ready {
                        seq![
                            host::EffectModel::Run(
                                h.master->Ready_0.r.mux("cancel"@, lport, rport),
                            ),
                        ]
                    } else {
                        Seq::empty()
                    },
                )
            } else {
                match result {
                    Ok(_) => {
                        let active = host::AppWModel {
                            shown: types::AppModel {
                                status: types::FwdModel::Active,
                                pinned: pin,
                                ..app.shown
                            },
                            retried_new_port: false,
                        };
                        let entry = state::AssignmentModel {
                            local_port: Some(lport),
                            process: app.shown.process,
                            pinned: pin,
                            updated_at: unix,
                            ..self.memory.entry(key, rport)
                        };
                        (
                            WorkerModel {
                                memory: self.memory.with(key, rport, entry),
                                ..self.with_app(key, rport, active)
                            },
                            seq![host::EffectModel::Save],
                        )
                    },
                    Err(err) => if bindish(err) && !app.retried_new_port {
                        let idle = host::AppWModel {
                            shown: types::AppModel {
                                status: types::FwdModel::Off,
                                lport: None,
                                ..app.shown
                            },
                            retried_new_port: true,
                        };
                        let w = self.with_app(key, rport, idle);
                        (w, w.auto_picks(key))
                    } else {
                        (self.with_app(key, rport, failed(app, err)), Seq::empty())
                    },
                }
            }
        }
    }
}

fn bindish_of(err: &str) -> (r: bool)
    ensures
        r == bindish(err@),
{
    let cs = text::chars_of(err);
    text::has_text(cs.as_slice(), "bind") || text::has_text(cs.as_slice(), "address")
        || text::has_text(cs.as_slice(), "listen")
}

impl Worker {
    /// An app of a host.
    fn app(&self, key: &String, rport: u16) -> (r: Option<&AppW>)
        ensures
            r is Some <==> self@.has_app(key@, rport),
            r matches Some(app) ==> app@ == self@.hosts[key@].apps[rport],
    {
        match self.hosts.get(key) {
            Some(h) => h.apps.get(&rport),
            None => None,
        }
    }

    /// An app of a host, to be changed.
    fn app_mut(&mut self, key: &String, rport: u16) -> (r: Option<&mut AppW>)
        ensures
            r is Some <==> old(self)@.has_app(key@, rport),
            r is None ==> final(self)@ == old(self)@,
            r matches Some(app) ==> {
                &&& (*app)@ == old(self)@.hosts[key@].apps[rport]
                &&& final(self)@ == old(self)@.with_app(key@, rport, (*final(app))@)
            },
    {
        let ghost w = self@;
        match self.hosts.get_mut(key) {
            Some(h) => {
                let ghost before = h@;
                assert(w.hosts.insert(key@, before) =~= w.hosts);
                h.apps.get_mut(&rport)
            },
            None => None,
        }
    }

    /// The live master of a host, to be addressed.
    fn link(&self, key: &String) -> (r: Option<MasterRef>)
        ensures
            r is Some <==> self@.hosts.contains_key(key@) && self@.hosts[key@].master is Ready,
            r matches Some(m) ==> m@ == self@.hosts[key@].master->Ready_0.r,
    {
        match self.hosts.get(key) {
            Some(h) => match &h.master {
                MState::Ready(m) => Some(m.r.clone()),
                _ => None,
            },
            None => None,
        }
    }

    /// The local ports to prefer for an app.
    fn prefs_of(&self, key: &String, rport: u16) -> (r: Vec<u16>)
        requires
            self@.has_app(key@, rport),
        ensures
            r@ == self@.prefs(key@, rport),
    {
        let mut r: Vec<u16> = Vec::new();
        match self.hosts.get(key) {
            Some(h) => match h.apps.get(&rport) {
                Some(app) => match app.shown.lport {
                    Some(lp) => {
                        r.push(lp);
                    },
                    None => {},
                },
                None => {},
            },
            None => {},
        }
        match self.memory.get(key.as_str(), rport) {
            Some(a) => match a.local_port {
                Some(lp) => {
                    r.push(lp);
                },
                None => {},
            },
            None => {},
        }
        r.push(rport);
        assert(r@ =~= self@.prefs(key@, rport));
        r
    }

    /// Asks for a local port for an app.
    fn request_port(&self, key: &String, rport: u16, out: &mut Vec<Effect>)
        requires
            self@.has_app(key@, rport),
        ensures
            maps::views(final(out)@) == maps::views(old(out)@).push(self@.pick(key@, rport)),
    {
        let taken = self.used_lports();
        let prefs = self.prefs_of(key, rport);
        let tries = ports::probe_list(prefs.as_slice(), taken.as_slice());
        let e = Effect::PickPort { key: key.clone(), rport, tries };
        out.push(e);
        assert(maps::views(out@) =~= maps::views(old(out)@).push(e@));
    }

    /// Asks for local ports for the apps of a host that are forwarded without being asked for.
    fn auto_forward_pass(&self, key: &String, out: &mut Vec<Effect>)
        ensures
            maps::views(final(out)@) == maps::views(old(out)@) + self@.auto_picks(key@),
    {
        let ghost start = maps::views(out@);
        assert(start + Seq::<host::EffectModel>::empty() =~= start);
        if !self.auto || self.memory.paused(key.as_str()) {
            return ;
        }
        match self.hosts.get(key) {
            Some(h) => match &h.master {
                MState::Ready(_) => {
                    let n: usize = h.apps.len();
                    let ghost ports = maps::ordered_keys::<u16, host::AppWModel>(h@.apps);
                    assert(ports.take(0) =~= Seq::<u16>::empty());
                    for i in 0..n
                        invariant
                            self@.hosts.contains_key(key@),
                            h@ == self@.hosts[key@],
                            ports == maps::ordered_keys::<u16, host::AppWModel>(h@.apps),
                            n == ports.len(),
                            maps::views(out@) == start + self@.picks(key@, ports.take(i as int)),
                    {
                        let ghost before = self@.picks(key@, ports.take(i as int));
                        assert(ports.take(i + 1).drop_last() =~= ports.take(i as int));
                        let rport: u16 = *h.apps.key_at(i);
                        let app = h.apps.value_at(i);
                        let idle = match app.shown.status {
                            FwdView::Off => true,
                            _ => false,
                        };
                        if app.shown.tier == Tier::App && !app.shown.muted && idle {
                            self.request_port(key, rport, out);
                            assert((start + before).push(self@.pick(key@, rport)) =~= start
                                + before.push(self@.pick(key@, rport)));
                        }
                    }
                    assert(ports.take(n as int) =~= ports);
                },
                _ => {},
            },
            None => {},
        }
    }

    /// Picks a local port (the one it has, remembered, same as on the remote, ephemeral) for an idle
    /// app, and requests the forward.
    fn start_forward(
        &mut self,
        key: &String,
        rport: u16,
        free: &Vec<u16>,
        ephemeral: Option<u16>,
        out: &mut Vec<Effect>,
    )
        ensures
            final(self)@ == old(self)@.start_forward(key@, rport, free@, ephemeral).0,
            maps::views(final(out)@) == maps::views(old(out)@) + old(self)@.start_forward(
                key@,
                rport,
                free@,
                ephemeral,
            ).1,
    {
        let ghost start = maps::views(out@);
        assert(start + Seq::<host::EffectModel>::empty() =~= start);
        if self.memory.paused(key.as_str()) {
            return ;
        }
        let master = match self.link(key) {
            Some(m) => m,
            None => {
                return ;
            },
        };
        match self.app(key, rport) {
            Some(app) => match app.shown.status {
                FwdView::Off => if app.shown.muted {
                    return ;
                },
                _ => {
                    return ;
                },
            },
            None => {
                return ;
            },
        }
        let taken = self.used_lports();
        let prefs = self.prefs_of(key, rport);
        let picked = ports::find_free(
            prefs.as_slice(),
            taken.as_slice(),
            free.as_slice(),
            ephemeral,
        );
        match self.app_mut(key, rport) {
            Some(app) => match picked {
                None => {
                    app.shown.status = FwdView::Error("no free local port".to_owned());
                },
                Some(lport) => {
                    app.shown.status = FwdView::Pending;
                    app.shown.lport = Some(lport);
                    let e = Effect::Forward {
                        key: key.clone(),
                        rport,
                        lport,
                        pin: app.shown.pinned,
                        first: None,
                        command: master.forward(lport, rport),
                    };
                    out.push(e);
                    assert(maps::views(out@) =~= start + seq![e@]);
                },
            },
            None => {},
        }
    }

    /// Takes in how a request for a forward has ended.
    fn on_fwd(
        &mut self,
        key: String,
        rport: u16,
        lport: u16,
        pin: bool,
        result: Result<(), String>,
        unix: u64,
        out: &mut Vec<Effect>,
    )
        ensures
            final(self)@ == old(self)@.fwd_done(
                key@,
                rport,
                lport,
                pin,
                fwd_result(result),
                unix,
            ).0,
            maps::views(final(out)@) == maps::views(old(out)@) + old(self)@.fwd_done(
                key@,
                rport,
                lport,
                pin,
                fwd_result(result),
                unix,
            ).1,
    {
        let ghost start = maps::views(out@);
        assert(start + Seq::<host::EffectModel>::empty() =~= start);
        let (current, retried, process) = match self.app(&key, rport) {
            Some(app) => (
                app.shown.lport == Some(lport),
                app.retried_new_port,
                types::copy_opt(&app.shown.process),
            ),
            None => (false, false, None),
        };
        if !current || self.memory.paused(key.as_str()) {
            // The app vanished while the forward was under way, or a newer assignment superseded it.
            match (result, self.link(&key)) {
                (Ok(()), Some(m)) => {
                    let c = m.cancel(lport, rport);
                    out.push(Effect::Run(c));
                    assert(maps::views(out@) =~= start + seq![host::EffectModel::Run(c@)]);
                },
                _ => {},
            }
            return ;
        }
        match result {
            Ok(()) => {
                match self.app_mut(&key, rport) {
                    Some(app) => {
                        app.shown.status = FwdView::Active;
                        app.shown.pinned = pin;
                        app.retried_new_port = false;
                    },
                    None => {},
                }
                let entry = self.memory.entry(key.as_str(), rport);
                entry.local_port = Some(lport);
                entry.process = process;
                entry.pinned = pin;
                entry.updated_at = unix;
                out.push(Effect::Save);
                assert(maps::views(out@) =~= start + seq![host::EffectModel::Save]);
            },
            Err(err) => if bindish_of(err.as_str()) && !retried {
                match self.app_mut(&key, rport) {
                    Some(app) => {
                        app.retried_new_port = true;
                        app.shown.lport = None;
                        app.shown.status = FwdView::Off;
                    },
                    None => {},
                }
                self.auto_forward_pass(&key, out);
            } else {
                match self.app_mut(&key, rport) {
                    Some(app) => {
                        app.shown.status = FwdView::Error(err);
                    },
                    None => {},
                }
            },
        }
    }
}

/// What the user is told of a host that is not connected.
pub open spec fn not_connected(key: Seq<char>) -> Seq<char> {
    key + ": not connected yet"@
}

/// What the user is told of a host that is paused.
pub open spec fn is_paused(key: Seq<char>) -> Seq<char> {
    key + ": forwarding is paused"@
}

/// What the user is told of a local port that cannot be used, and why.
pub open spec fn cannot_use(lport: u16, why: Seq<char>) -> Seq<char> {
    "can't use "@ + text::decimal(lport as nat) + ": "@ + why
}

impl WorkerModel {
    /// The worker and the effects once it is remembered whether the user turned an app off.
    pub open spec fn remember_muted(self, key: Seq<char>, rport: u16, muted: bool, unix: u64) -> (
        WorkerModel,
        Seq<host::EffectModel>,
    ) {
        let entry = self.memory.entry(key, rport);
        if entry.muted == muted {
            (self, Seq::empty())
        } else {
            (
                WorkerModel {
                    memory: self.memory.with(
                        key,
                        rport,
                        state::AssignmentModel { muted, updated_at: unix, ..entry },
                    ),
                    ..self
                },
                seq![host::EffectModel::Save],
            )
        }
    }

    /// The worker and the effects once the user has assigned a local port. `user` says, once it has
    /// been found out, who uses the port, if it is not free. A port that cannot be used changes
    /// nothing, and the user is told why.
    pub open spec fn assign(
        self,
        key: Seq<char>,
        rport: u16,
        lport: u16,
        user: Option<Option<Seq<char>>>,
        unix: u64,
    ) -> (WorkerModel, Seq<host::EffectModel>) {
        if !self.hosts.contains_key(key) {
            (self, Seq::empty())
        } else if !(self.hosts[key].master is Ready) {
            (self, seq![host::toast(not_connected(key))])
        } else if !self.hosts[key].apps.contains_key(rport) {
            (self, Seq::empty())
        } else {
            let m = self.hosts[key].master->Ready_0.r;
            let app = self.hosts[key].apps[rport];
            if app.shown.status is External {
                (
                    self,
                    seq![
                        host::toast(
                            "remote :"@ + text::decimal(rport as nat)
                                + " is already forwarded by your own ssh session (-L/LocalForward) — manage it there"@,
                        ),
                    ],
                )
            } else if self.memory.paused.contains(key) {
                (self, seq![host::toast(is_paused(key))])
            } else if app.shown.status is Active && app.shown.lport == Some(lport) {
                let entry = state::AssignmentModel {
                    local_port: Some(lport),
                    process: app.shown.process,
                    pinned: true,
                    updated_at: unix,
                    ..self.memory.entry(key, rport)
                };
                let pinned = host::AppWModel {
                    shown: types::AppModel { pinned: true, ..app.shown },
                    ..app
                };
                (
                    WorkerModel {
                        memory: self.memory.with(key, rport, entry),
                        ..self.with_app(key, rport, pinned)
                    },
                    seq![
                        host::EffectModel::Save,
                        host::toast("port "@ + text::decimal(lport as nat) + " pinned"@),
                    ],
                )
            } else if host::live_port(app) != Some(lport) && claimed(self.hosts).contains(lport) {
                (
                    self,
                    seq![host::toast(cannot_use(lport, "already forwarding another app on it"@))],
                )
            } else if host::live_port(app) != Some(lport) && user is None {
                (self, seq![host::EffectModel::CheckPort { key, rport, lport }])
            } else if host::live_port(app) != Some(lport) && user->0 is Some {
                (self, seq![host::toast(cannot_use(lport, user->0->0))])
            } else {
                let chosen = host::AppWModel {
                    shown: types::AppModel { pinned: true, muted: false, ..app.shown },
                    retried_new_port: false,
                };
                let (w, saves) = self.with_app(key, rport, pending(chosen, lport)).remember_muted(
                    key,
                    rport,
                    false,
                    unix,
                );
                (
                    w,
                    saves.push(
                        host::EffectModel::Forward {
                            key,
                            rport,
                            lport,
                            pin: true,
                            first: match host::live_port(app) {
                                Some(old_port) => Some(m.mux("cancel"@, old_port, rport)),
                                None => None,
                            },
                            command: m.mux("forward"@, lport, rport),
                        },
                    ),
                )
            }
        }
    }

    /// The worker and the effects once the user has turned the forward of an app off or on.
    pub open spec fn toggle(self, key: Seq<char>, rport: u16, unix: u64) -> (
        WorkerModel,
        Seq<host::EffectModel>,
    ) {
        if !self.hosts.contains_key(key) {
            (self, Seq::empty())
        } else if !(self.hosts[key].master is Ready) {
            (self, seq![host::toast(not_connected(key))])
        } else if !self.hosts[key].apps.contains_key(rport) {
            (self, Seq::empty())
        } else {
            let app = self.hosts[key].apps[rport];
            if app.shown.status is External {
                (
                    self,
                    seq![
                        host::toast(
                            "remote :"@ + text::decimal(rport as nat)
                                + " is forwarded by your own ssh session (-L/LocalForward) — close it there"@,
                        ),
                    ],
                )
            } else if host::live(app) {
                let muted = host::AppWModel {
                    shown: types::AppModel {
                        muted: true,
                        status: types::FwdModel::Off,
                        ..app.shown
                    },
                    ..app
                };
                let (w, saves) = self.with_app(key, rport, muted).remember_muted(
                    key,
                    rport,
                    true,
                    unix,
                );
                (
                    w,
                    match app.shown.lport {
                        Some(lport) => saves.push(
                            host::EffectModel::Run(
                                self.hosts[key].master->Ready_0.r.mux("cancel"@, lport, rport),
                            ),
                        ),
                        None => saves,
                    },
                )
            } else if self.memory.paused.contains(key) {
                (self, seq![host::toast(is_paused(key))])
            } else {
                let idle = host::AppWModel {
                    shown: types::AppModel {
                        muted: false,
                        status: types::FwdModel::Off,
                        ..app.shown
                    },
                    retried_new_port: false,
                };
                let (w, saves) = self.with_app(key, rport, idle).remember_muted(
                    key,
                    rport,
                    false,
                    unix,
                );
                (w, saves.push(w.pick(key, rport)))
            }
        }
    }

    /// The worker and the effects once the user has written a note on an app; an empty one clears
    /// it.
    pub open spec fn set_comment(self, key: Seq<char>, rport: u16, note: Seq<char>, unix: u64) -> (
        WorkerModel,
        Seq<host::EffectModel>,
    ) {
        if self.has_app(key, rport) {
            let app = self.hosts[key].apps[rport];
            let comment = if note.len() == 0 {
                None
            } else {
                Some(note)
            };
            let entry = state::AssignmentModel {
                comment,
                updated_at: unix,
                ..self.memory.entry(key, rport)
            };
            let noted = host::AppWModel {
                shown: types::AppModel { comment, ..app.shown },
                ..app
            };
            (
                WorkerModel {
                    memory: self.memory.with(key, rport, entry),
                    ..self.with_app(key, rport, noted)
                },
                seq![host::EffectModel::Save],
            )
        } else {
            (self, Seq::empty())
        }
    }

    /// The worker and the effects once the user has hidden an app, or unhidden a port.
    pub open spec fn toggle_hidden(self, key: Seq<char>, rport: u16, unix: u64) -> (
        WorkerModel,
        Seq<host::EffectModel>,
    ) {
        if self.has_app(key, rport) {
            let app = self.hosts[key].apps[rport];
            let hiding = app.shown.tier == Tier::App;
            let entry = state::AssignmentModel {
                tier: Some(
                    if hiding {
                        "bg"@
                    } else {
                        "app"@
                    },
                ),
                updated_at: unix,
                ..self.memory.entry(key, rport)
            };
            let moved = host::AppWModel {
                shown: types::AppModel {
                    tier: if hiding {
                        Tier::Bg
                    } else {
                        Tier::App
                    },
                    overridden: true,
                    ..app.shown
                },
                ..app
            };
            let w = WorkerModel {
                memory: self.memory.with(key, rport, entry),
                ..self.with_app(key, rport, moved)
            };
            (
                w,
                if hiding {
                    seq![host::EffectModel::Save]
                } else {
                    seq![host::EffectModel::Save] + w.auto_picks(key)
                },
            )
        } else {
            (self, Seq::empty())
        }
    }

    /// The worker and the effects once the user has paused a host, which cancels its live forwards,
    /// or resumed it.
    pub open spec fn toggle_host(self, key: Seq<char>) -> (WorkerModel, Seq<host::EffectModel>) {
        if !self.hosts.contains_key(key) {
            (self, Seq::empty())
        } else {
            let h = self.hosts[key];
            let pause = !self.memory.paused.contains(key);
            let memory = self.memory.with_paused(key, pause);
            if pause {
                (
                    WorkerModel {
                        memory,
                        ..self.with_host(
                            key,
                            host::HostWModel { apps: host::turned_off(h.apps, true), ..h },
                        )
                    },
                    seq![host::EffectModel::Save] + match h.master {
                        host::MStateModel::Ready(m) => host::runs(
                            host::cancels(
                                h.apps,
                                maps::ordered_keys::<u16, host::AppWModel>(h.apps),
                                m.r,
                            ),
                        ),
                        _ => Seq::empty(),
                    },
                )
            } else {
                let w = WorkerModel { memory, ..self };
                (w, seq![host::EffectModel::Save] + w.auto_picks(key))
            }
        }
    }
}

/// Tells the user something.
fn tell(msg: String, out: &mut Vec<Effect>)
    ensures
        maps::views(final(out)@) == maps::views(old(out)@) + seq![host::toast(msg@)],
{
    let e = Effect::Tell(Ev::Toast(msg));
    out.push(e);
    assert(maps::views(out@) =~= maps::views(old(out)@) + seq![e@]);
}

fn cannot_use_of(lport: u16, why: &str) -> (r: String)
    ensures
        r@ == cannot_use(lport, why@),
{
    let mut msg = "can't use ".to_owned();
    msg.append(text::decimal_of(lport as u64).as_str());
    msg.append(": ");
    msg.append(why);
    msg
}

fn remote_port_is(rport: u16, what: &str) -> (r: String)
    ensures
        r@ == "remote :"@ + text::decimal(rport as nat) + what@,
{
    let mut msg = "remote :".to_owned();
    msg.append(text::decimal_of(rport as u64).as_str());
    msg.append(what);
    msg
}

fn host_is(key: &String, what: &str) -> (r: String)
    ensures
        r@ == key@ + what@,
{
    let mut msg = key.clone();
    msg.append(what);
    msg
}

impl Worker {
    /// Remembers whether the user turned an app off.
    fn remember_muted_of(
        &mut self,
        key: &String,
        rport: u16,
        muted: bool,
        unix: u64,
        out: &mut Vec<Effect>,
    )
        ensures
            final(self)@ == old(self)@.remember_muted(key@, rport, muted, unix).0,
            maps::views(final(out)@) == maps::views(old(out)@) + old(self)@.remember_muted(
                key@,
                rport,
                muted,
                unix,
            ).1,
    {
        let before = match self.memory.get(key.as_str(), rport) {
            Some(a) => a.muted,
            None => false,
        };
        let ghost start = maps::views(out@);
        if before != muted {
            let entry = self.memory.entry(key.as_str(), rport);
            entry.muted = muted;
            entry.updated_at = unix;
            out.push(Effect::Save);
            assert(maps::views(out@) =~= start + seq![host::EffectModel::Save]);
        } else {
            assert(maps::views(out@) =~= start + Seq::<host::EffectModel>::empty());
        }
    }

    /// Assigns a local port to an app, as the user asked.
    fn assign(
        &mut self,
        key: String,
        rport: u16,
        lport: u16,
        user: Option<Option<String>>,
        unix: u64,
        out: &mut Vec<Effect>,
    )
        ensures
            ({
                let asked = match user {
                    Some(u) => Some(types::opt_text(u)),
                    None => None,
                };
                let (w, effects) = old(self)@.assign(key@, rport, lport, asked, unix);
                &&& final(self)@ == w
                &&& maps::views(final(out)@) == maps::views(old(out)@) + effects
            }),
    {
        let ghost start = maps::views(out@);
        assert(start + Seq::<host::EffectModel>::empty() =~= start);
        if !self.hosts.contains_key(&key) {
            return ;
        }
        let master = match self.link(&key) {
            Some(m) => m,
            None => {
                tell(host_is(&key, ": not connected yet"), out);
                return ;
            },
        };
        let (external, active, is_live, current, process) = match self.app(&key, rport) {
            Some(app) => (
                match app.shown.status {
                    FwdView::External => true,
                    _ => false,
                },
                match app.shown.status {
                    FwdView::Active => true,
                    _ => false,
                },
                match app.shown.status {
                    FwdView::Active | FwdView::Pending => true,
                    _ => false,
                },
                app.shown.lport,
                types::copy_opt(&app.shown.process),
            ),
            None => {
                return ;
            },
        };
        if external {
            tell(
                remote_port_is(
                    rport,
                    " is already forwarded by your own ssh session (-L/LocalForward) — manage it there",
                ),
                out,
            );
            return ;
        }
        if self.memory.paused(key.as_str()) {
            tell(host_is(&key, ": forwarding is paused"), out);
            return ;
        }
        if active && current == Some(lport) {
            match self.app_mut(&key, rport) {
                Some(app) => {
                    app.shown.pinned = true;
                },
                None => {},
            }
            let entry = self.memory.entry(key.as_str(), rport);
            entry.local_port = Some(lport);
            entry.process = process;
            entry.pinned = true;
            entry.updated_at = unix;
            out.push(Effect::Save);
            assert(maps::views(out@) =~= start + seq![host::EffectModel::Save]);
            let mut msg = "port ".to_owned();
            msg.append(text::decimal_of(lport as u64).as_str());
            msg.append(" pinned");
            tell(msg, out);
            assert(maps::views(out@) =~= start + seq![
                host::EffectModel::Save,
                host::toast("port "@ + text::decimal(lport as nat) + " pinned"@),
            ]);
            return ;
        }
        let old_port = if is_live {
            current
        } else {
            None
        };
        if old_port != Some(lport) {
            let taken = self.used_lports();
            if ports::has_port(taken.as_slice(), lport) {
                assert(taken@.to_set().contains(lport));
                tell(cannot_use_of(lport, "already forwarding another app on it"), out);
                return ;
            }
            assert(!taken@.to_set().contains(lport));
            match user {
                None => {
                    let e = Effect::CheckPort { key, rport, lport };
                    out.push(e);
                    assert(maps::views(out@) =~= start + seq![e@]);
                    return ;
                },
                Some(Some(who)) => {
                    tell(cannot_use_of(lport, who.as_str()), out);
                    return ;
                },
                Some(None) => {},
            }
        }
        match self.app_mut(&key, rport) {
            Some(app) => {
                app.shown.status = FwdView::Pending;
                app.shown.lport = Some(lport);
                app.shown.pinned = true;
                app.shown.muted = false;
                app.retried_new_port = false;
            },
            None => {},
        }
        self.remember_muted_of(&key, rport, false, unix, out);
        let first = match old_port {
            Some(p) => Some(master.cancel(p, rport)),
            None => None,
        };
        let ghost before = maps::views(out@);
        let command = master.forward(lport, rport);
        let e = Effect::Forward { key, rport, lport, pin: true, first, command };
        out.push(e);
        assert(maps::views(out@) =~= before.push(e@));
        assert(maps::views(out@) =~= start + old(self)@.assign(
            key@,
            rport,
            lport,
            match user {
                Some(u) => Some(types::opt_text(u)),
                None => None,
            },
            unix,
        ).1);
    }
}

impl Worker {
    /// Turns the forward of an app off or on, as the user asked.
    fn toggle(&mut self, key: String, rport: u16, unix: u64, out: &mut Vec<Effect>)
        ensures
            final(self)@ == old(self)@.toggle(key@, rport, unix).0,
            maps::views(final(out)@) == maps::views(old(out)@) + old(self)@.toggle(
                key@,
                rport,
                unix,
            ).1,
    {
        let ghost start = maps::views(out@);
        assert(start + Seq::<host::EffectModel>::empty() =~= start);
        if !self.hosts.contains_key(&key) {
            return ;
        }
        let master = match self.link(&key) {
            Some(m) => m,
            None => {
                tell(host_is(&key, ": not connected yet"), out);
                return ;
            },
        };
        let (external, is_live, current) = match self.app(&key, rport) {
            Some(app) => (
                match app.shown.status {
                    FwdView::External => true,
                    _ => false,
                },
                match app.shown.status {
                    FwdView::Active | FwdView::Pending => true,
                    _ => false,
                },
                app.shown.lport,
            ),
            None => {
                return ;
            },
        };
        if external {
            tell(
                remote_port_is(
                    rport,
                    " is forwarded by your own ssh session (-L/LocalForward) — close it there",
                ),
                out,
            );
            return ;
        }
        if is_live {
            match self.app_mut(&key, rport) {
                Some(app) => {
                    app.shown.muted = true;
                    app.shown.status = FwdView::Off;
                },
                None => {},
            }
            self.remember_muted_of(&key, rport, true, unix, out);
            let ghost before = maps::views(out@);
            match current {
                Some(lport) => {
                    let c = master.cancel(lport, rport);
                    out.push(Effect::Run(c));
                    assert(maps::views(out@) =~= before.push(host::EffectModel::Run(c@)));
                },
                None => {},
            }
            assert(maps::views(out@) =~= start + old(self)@.toggle(key@, rport, unix).1);
            return ;
        }
        if self.memory.paused(key.as_str()) {
            tell(host_is(&key, ": forwarding is paused"), out);
            return ;
        }
        match self.app_mut(&key, rport) {
            Some(app) => {
                app.shown.muted = false;
                app.shown.status = FwdView::Off;
                app.retried_new_port = false;
            },
            None => {},
        }
        self.remember_muted_of(&key, rport, false, unix, out);
        self.request_port(&key, rport, out);
        assert(maps::views(out@) =~= start + old(self)@.toggle(key@, rport, unix).1);
    }

    /// Writes the user's note on an app.
    fn set_comment(
        &mut self,
        key: String,
        rport: u16,
        note: String,
        unix: u64,
        out: &mut Vec<Effect>,
    )
        ensures
            final(self)@ == old(self)@.set_comment(key@, rport, note@, unix).0,
            maps::views(final(out)@) == maps::views(old(out)@) + old(self)@.set_comment(
                key@,
                rport,
                note@,
                unix,
            ).1,
    {
        let ghost start = maps::views(out@);
        assert(start + Seq::<host::EffectModel>::empty() =~= start);
        let comment = if text::chars_of(note.as_str()).len() == 0 {
            None
        } else {
            Some(note)
        };
        let copy = types::copy_opt(&comment);
        match self.app_mut(&key, rport) {
            Some(app) => {
                app.shown.comment = comment;
            },
            None => {
                return ;
            },
        }
        let entry = self.memory.entry(key.as_str(), rport);
        entry.comment = copy;
        entry.updated_at = unix;
        out.push(Effect::Save);
        assert(maps::views(out@) =~= start + seq![host::EffectModel::Save]);
    }

    /// Hides an app, or unhides a port, as the user asked.
    fn toggle_hidden(&mut self, key: String, rport: u16, unix: u64, out: &mut Vec<Effect>)
        ensures
            final(self)@ == old(self)@.toggle_hidden(key@, rport, unix).0,
            maps::views(final(out)@) == maps::views(old(out)@) + old(self)@.toggle_hidden(
                key@,
                rport,
                unix,
            ).1,
    {
        let ghost start = maps::views(out@);
        assert(start + Seq::<host::EffectModel>::empty() =~= start);
        let hiding = match self.app_mut(&key, rport) {
            Some(app) => {
                let hiding = app.shown.tier == Tier::App;
                app.shown.tier = if hiding {
                    Tier::Bg
                } else {
                    Tier::App
                };
                app.shown.overridden = true;
                hiding
            },
            None => {
                return ;
            },
        };
        let entry = self.memory.entry(key.as_str(), rport);
        entry.tier = Some(
            if hiding {
                "bg".to_owned()
            } else {
                "app".to_owned()
            },
        );
        entry.updated_at = unix;
        out.push(Effect::Save);
        assert(maps::views(out@) =~= start + seq![host::EffectModel::Save]);
        if !hiding {
            self.auto_forward_pass(&key, out);
            assert(maps::views(out@) =~= start + old(self)@.toggle_hidden(key@, rport, unix).1);
        }
    }

    /// Pauses or resumes a host, as the user asked.
    fn toggle_host(&mut self, key: String, out: &mut Vec<Effect>)
        ensures
            final(self)@ == old(self)@.toggle_host(key@).0,
            maps::views(final(out)@) == maps::views(old(out)@) + old(self)@.toggle_host(key@).1,
    {
        let ghost start = maps::views(out@);
        assert(start + Seq::<host::EffectModel>::empty() =~= start);
        if !self.hosts.contains_key(&key) {
            return ;
        }
        let pause = !self.memory.paused(key.as_str());
        self.memory.set_paused(key.as_str(), pause);
        out.push(Effect::Save);
        assert(maps::views(out@) =~= start + seq![host::EffectModel::Save]);
        if pause {
            match self.hosts.get_mut(&key) {
                Some(h) => h.pause(out),
                None => {},
            }
        } else {
            self.auto_forward_pass(&key, out);
        }
        assert(maps::views(out@) =~= start + old(self)@.toggle_host(key@).1);
    }
}

/// The hosts with one more connection counted; one that ssh could make nothing of does not count.
pub open spec fn absorbed(
    hosts: Map<Seq<char>, host::HostWModel>,
    answers: Map<(Seq<char>, Seq<Seq<char>>), Option<discover::ResolvedModel>>,
    conn: discover::ConnModel,
) -> Map<Seq<char>, host::HostWModel> {
    match host::lookup(answers, conn.key()) {
        Some(Some(r)) => {
            let key = host::identity(r);
            let h = if hosts.contains_key(key) {
                hosts[key]
            } else {
                host::new_host(r, conn)
            };
            hosts.insert(key, h.sighted(r, conn))
        },
        _ => hosts,
    }
}

/// The hosts with all the connections counted, one after the other.
pub open spec fn all_absorbed(
    hosts: Map<Seq<char>, host::HostWModel>,
    answers: Map<(Seq<char>, Seq<Seq<char>>), Option<discover::ResolvedModel>>,
    conns: Seq<discover::ConnModel>,
) -> Map<Seq<char>, host::HostWModel>
    decreases conns.len(),
{
    if conns.len() == 0 {
        hosts
    } else {
        absorbed(all_absorbed(hosts, answers, conns.drop_last()), answers, conns.last())
    }
}

/// The hosts that there are connections to.
pub open spec fn present(hosts: Map<Seq<char>, host::HostWModel>) -> Set<Seq<char>> {
    Set::new(|k: Seq<char>| hosts.contains_key(k) && hosts[k].present)
}

/// The effects that end what was set up for the hosts of `keys`.
pub open spec fn tears(hosts: Map<Seq<char>, host::HostWModel>, keys: Seq<Seq<char>>) -> Seq<
    host::TeardownModel,
>
    decreases keys.len(),
{
    if keys.len() == 0 {
        Seq::empty()
    } else {
        let before = tears(hosts, keys.drop_last());
        match hosts[keys.last()].teardown() {
            Some(t) => before.push(t),
            None => before,
        }
    }
}

/// Each teardown as an effect.
pub open spec fn tear_effects(tears: Seq<host::TeardownModel>) -> Seq<host::EffectModel> {
    Seq::new(tears.len(), |i: int| host::EffectModel::Tear(tears[i]))
}

impl WorkerModel {
    /// The keys of the hosts in order.
    pub open spec fn keys(self) -> Seq<Seq<char>> {
        maps::ordered_keys::<String, host::HostWModel>(self.hosts)
    }

    /// The worker and the effects once every host of `keys` has been visited in turn.
    pub open spec fn visit(
        self,
        keys: Seq<Seq<char>>,
        f: spec_fn(host::HostWModel) -> (host::HostWModel, Seq<host::EffectModel>),
    ) -> (WorkerModel, Seq<host::EffectModel>)
        decreases keys.len(),
    {
        if keys.len() == 0 {
            (self, Seq::empty())
        } else {
            let (w, effects) = self.visit(keys.drop_last(), f);
            let (h, more) = f(w.hosts[keys.last()]);
            (w.with_host(keys.last(), h), effects + more)
        }
    }

    /// The worker once the connections that there are now have been counted.
    pub open spec fn counted(self, conns: Seq<discover::ConnModel>) -> WorkerModel {
        WorkerModel {
            hosts: all_absorbed(
                self.hosts.map_values(|h: host::HostWModel| h.unseen()),
                self.answers,
                conns,
            ),
            ..self
        }
    }

    /// The hosts whose connections have vanished, in order.
    pub open spec fn vanished(self) -> Seq<Seq<char>> {
        let keep = present(self.hosts);
        self.keys().filter(|k: Seq<char>| !keep.contains(k))
    }

    /// The worker and the effects after a look at the connections that there are now: what was set
    /// up for hosts whose connections vanished is torn down; new hosts are connected, failed ones
    /// retried, and scans that are due are started.
    pub open spec fn tick(self, conns: Seq<discover::ConnModel>, now: u64) -> (
        WorkerModel,
        Seq<host::EffectModel>,
    ) {
        let counted = self.counted(conns);
        let kept = WorkerModel {
            hosts: counted.hosts.restrict(present(counted.hosts)),
            ..counted
        };
        let interval = self.interval;
        let (w, effects) = kept.visit(
            kept.keys(),
            |h: host::HostWModel| h.wake(now, interval),
        );
        (w, tear_effects(tears(counted.hosts, counted.vanished())) + effects)
    }
}

impl Worker {
    /// Forgets which connections there are.
    fn unsee_all(&mut self)
        ensures
            final(self)@ == (WorkerModel {
                hosts: old(self)@.hosts.map_values(|h: host::HostWModel| h.unseen()),
                ..old(self)@
            }),
    {
        let keys = self.hosts.keys();
        let ghost start = self@.hosts;
        let ghost goal = start.map_values(|h: host::HostWModel| h.unseen());
        let ghost ks = maps::views(keys@);
        let ghost w = self@;
        for i in 0..keys.len()
            invariant
                ks == maps::views(keys@),
                maps::is_ordered::<String>(ks),
                ks.to_set() == start.dom(),
                goal == start.map_values(|h: host::HostWModel| h.unseen()),
                self@ == (WorkerModel { hosts: self@.hosts, ..w }),
                self@.hosts.dom() == start.dom(),
                forall|j: int| 0 <= j < i ==> self@.hosts[#[trigger] ks[j]] == goal[ks[j]],
                forall|j: int|
                    i <= j < ks.len() ==> self@.hosts[#[trigger] ks[j]] == start[ks[j]],
        {
            let ghost before = self@.hosts;
            let ghost k = ks[i as int];
            assert(ks.to_set().contains(k));
            match self.hosts.get_mut(&keys[i]) {
                Some(h) => h.unsee(),
                None => {},
            }
            assert(self@.hosts =~= before.insert(k, goal[k]));
            assert(self@.hosts.dom() =~= start.dom());
            assert forall|j: int| 0 <= j < ks.len() && j != i implies #[trigger] ks[j] != k by {
                text::lemma_text_irreflexive(k);
            }
        }
        assert forall|k: Seq<char>| start.contains_key(k) implies #[trigger] self@.hosts[k]
            == goal[k] by {
            assert(ks.to_set().contains(k));
            let j = choose|j: int| 0 <= j < ks.len() && ks[j] == k;
            assert(self@.hosts[ks[j]] == goal[ks[j]]);
        }
        assert(self@.hosts =~= goal);
    }

    /// Counts one connection.
    fn absorb(&mut self, conn: &LocalConn)
        ensures
            final(self)@ == (WorkerModel {
                hosts: absorbed(old(self)@.hosts, old(self)@.answers, conn@),
                ..old(self)@
            }),
    {
        let ck = ConnKey { dest: conn.dest.clone(), extra: text::copy_strings(&conn.extra) };
        assert(ck@ == conn@.key());
        match self.answers.get(&ck) {
            Some(Answer(Some(r))) => {
                let key = host::identity_of(r);
                let h = self.hosts.or_insert(key, HostW::new(r, conn));
                h.sight(r, conn);
            },
            _ => {},
        }
    }

    /// Drops the hosts whose connections have vanished, and tears down what was set up for them.
    fn drop_absent(&mut self, out: &mut Vec<Effect>)
        ensures
            final(self)@ == (WorkerModel {
                hosts: old(self)@.hosts.restrict(present(old(self)@.hosts)),
                ..old(self)@
            }),
            maps::views(final(out)@) == maps::views(old(out)@) + tear_effects(
                tears(old(self)@.hosts, old(self)@.vanished()),
            ),
    {
        let ghost w = self@;
        let ghost keep = present(w.hosts);
        let ghost test = |k: Seq<char>| !keep.contains(k);
        let ghost start = maps::views(out@);
        let keys = self.hosts.keys();
        let ghost ks = maps::views(keys@);
        proof {
            reveal(Seq::filter);
            assert(ks.take(0) =~= Seq::<Seq<char>>::empty());
            assert(ks.take(0).filter(test) =~= Seq::<Seq<char>>::empty());
            assert(w.hosts.remove_keys(Seq::<Seq<char>>::empty().to_set()) =~= w.hosts);
            assert(maps::views(out@) =~= start + tear_effects(
                tears(w.hosts, Seq::<Seq<char>>::empty()),
            ));
        }
        for i in 0..keys.len()
            invariant
                ks == maps::views(keys@),
                maps::is_ordered::<String>(ks),
                ks.to_set() == w.hosts.dom(),
                keep == present(w.hosts),
                test == |k: Seq<char>| !keep.contains(k),
                self@ == (WorkerModel {
                    hosts: w.hosts.remove_keys(ks.take(i as int).filter(test).to_set()),
                    ..w
                }),
                maps::views(out@) == start + tear_effects(
                    tears(w.hosts, ks.take(i as int).filter(test)),
                ),
        {
            let ghost k = ks[i as int];
            let ghost gone = ks.take(i as int).filter(test);
            let ghost before = maps::views(out@);
            proof {
                reveal(Seq::filter);
                assert(ks.take(i + 1).drop_last() =~= ks.take(i as int));
                assert(ks.take(i + 1).last() == k);
                assert(test(k) == !keep.contains(k));
                assert(ks.to_set().contains(k));
                if gone.contains(k) {
                    ks.take(i as int).lemma_filter_contains_rev(test, k);
                    let j = choose|j: int| 0 <= j < i && ks.take(i as int)[j] == k;
                    assert(ks[j] == k);
                    text::lemma_text_irreflexive(k);
                }
            }
            let absent = match self.hosts.get(&keys[i]) {
                Some(h) => !h.present,
                None => false,
            };
            if absent {
                match self.hosts.remove(&keys[i]) {
                    Some(h) => match h.teardown_host() {
                        Some(t) => {
                            out.push(Effect::Tear(t));
                            assert(maps::views(out@) =~= before.push(host::EffectModel::Tear(t@)));
                        },
                        None => {},
                    },
                    None => {},
                }
                proof {
                    gone.lemma_push_to_set_commute(k);
                    assert(gone.push(k).drop_last() =~= gone);
                    assert(maps::views(out@) =~= start + tear_effects(
                        tears(w.hosts, gone.push(k)),
                    ));
                    assert(w.hosts.remove_keys(gone.push(k).to_set()) =~= w.hosts.remove_keys(
                        gone.to_set(),
                    ).remove(k));
                }
            }
        }
        proof {
            assert(ks.take(ks.len() as int) =~= ks);
            maps::lemma_dropped(w.hosts, ks, keep);
        }
    }
}

impl WorkerModel {
    /// The worker once it has learned what ssh made of a destination; the first answer stays.
    pub open spec fn learned(
        self,
        key: (Seq<char>, Seq<Seq<char>>),
        result: Option<discover::ResolvedModel>,
    ) -> WorkerModel {
        if self.answers.contains_key(key) {
            self
        } else {
            WorkerModel { answers: self.answers.insert(key, result), ..self }
        }
    }

    /// The worker and the effects once the way to a master has ended. If the host disappeared
    /// meanwhile, what was just opened is closed.
    pub open spec fn master_done(
        self,
        key: Seq<char>,
        result: Result<control::LinkModel, Seq<char>>,
        now: u64,
    ) -> (WorkerModel, Seq<host::EffectModel>) {
        if self.hosts.contains_key(key) {
            let (h, effects) = self.hosts[key].mastered(result, now, self.interval);
            (self.with_host(key, h), effects)
        } else {
            (
                self,
                match result {
                    Ok(m) => if m.external {
                        Seq::empty()
                    } else {
                        seq![
                            host::EffectModel::Tear(
                                host::TeardownModel {
                                    cancels: Seq::empty(),
                                    close: Some(m.shutdown()),
                                },
                            ),
                        ]
                    },
                    Err(_) => Seq::empty(),
                },
            )
        }
    }

    /// The worker and the effects once a scan has ended.
    pub open spec fn scan_done(
        self,
        key: Seq<char>,
        result: Result<Seq<remote::RemoteModel>, Seq<char>>,
        now: u64,
    ) -> (WorkerModel, Seq<host::EffectModel>) {
        if !self.hosts.contains_key(key) {
            (self, Seq::empty())
        } else {
            match result {
                Ok(found) => {
                    let (h, effects) = self.hosts[key].scanned(found, self.memory, now);
                    let w = self.with_host(key, h);
                    (w, effects + w.auto_picks(key))
                },
                Err(err) => {
                    let (h, effects) = self.hosts[key].scan_failed(err, now);
                    (self.with_host(key, h), effects)
                },
            }
        }
    }

    /// The worker once it is known whether the master of a host lives.
    pub open spec fn alive_checked(self, key: Seq<char>, alive: bool) -> WorkerModel {
        if self.hosts.contains_key(key) && !alive {
            self.with_host(key, self.hosts[key].lost())
        } else {
            self
        }
    }

    /// The worker and the effects once a scan of every host has been started.
    pub open spec fn refresh(self, now: u64) -> (WorkerModel, Seq<host::EffectModel>) {
        let interval = self.interval;
        self.visit(self.keys(), |h: host::HostWModel| h.scan(true, now, interval))
    }

    /// The requests for local ports that go out for the hosts of `keys` without being asked for.
    pub open spec fn all_picks(self, keys: Seq<Seq<char>>) -> Seq<host::EffectModel>
        decreases keys.len(),
    {
        if keys.len() == 0 {
            Seq::empty()
        } else {
            self.all_picks(keys.drop_last()) + self.auto_picks(keys.last())
        }
    }

    /// The worker and the effects once auto-forwarding has been turned on or off.
    pub open spec fn toggle_auto(self) -> (WorkerModel, Seq<host::EffectModel>) {
        let w = WorkerModel { auto: !self.auto, ..self };
        let told = seq![host::EffectModel::Tell(types::EvModel::AutoMode(w.auto))];
        (
            w,
            if w.auto {
                told + w.all_picks(w.keys())
            } else {
                told
            },
        )
    }

    /// The worker and the effects once a command of the user has been followed.
    pub open spec fn command(self, cmd: types::CmdModel, clock: Clock) -> (
        WorkerModel,
        Seq<host::EffectModel>,
    ) {
        match cmd {
            types::CmdModel::Assign { host, rport, lport } => self.assign(
                host,
                rport,
                lport,
                None,
                clock.unix,
            ),
            types::CmdModel::Toggle { host, rport } => self.toggle(host, rport, clock.unix),
            types::CmdModel::SetComment { host, rport, text } => self.set_comment(
                host,
                rport,
                text,
                clock.unix,
            ),
            types::CmdModel::ToggleHidden { host, rport } => self.toggle_hidden(
                host,
                rport,
                clock.unix,
            ),
            types::CmdModel::ToggleHost { host } => self.toggle_host(host),
            types::CmdModel::Refresh => self.refresh(clock.mono),
            types::CmdModel::ToggleAuto => self.toggle_auto(),
            types::CmdModel::Quit => (self, Seq::empty()),
        }
    }

    /// The worker and the effects once a message has been handled.
    pub open spec fn step(self, msg: WMsgModel, clock: Clock) -> (
        WorkerModel,
        Seq<host::EffectModel>,
    ) {
        match msg {
            WMsgModel::Cmd(cmd) => self.command(cmd, clock),
            WMsgModel::Learned { key, result } => (self.learned(key, result), Seq::empty()),
            WMsgModel::Tick { conns } => self.tick(conns, clock.mono),
            WMsgModel::MasterDone { key, result } => self.master_done(key, result, clock.mono),
            WMsgModel::ScanDone { key, result } => self.scan_done(key, result, clock.mono),
            WMsgModel::AliveChecked { key, alive } => (
                self.alive_checked(key, alive),
                Seq::empty(),
            ),
            WMsgModel::Picked { key, rport, free, ephemeral } => self.start_forward(
                key,
                rport,
                free,
                ephemeral,
            ),
            WMsgModel::PortChecked { key, rport, lport, user } => self.assign(
                key,
                rport,
                lport,
                Some(user),
                clock.unix,
            ),
            WMsgModel::FwdDone { key, rport, lport, pin, result } => self.fwd_done(
                key,
                rport,
                lport,
                pin,
                result,
                clock.unix,
            ),
        }
    }
}

impl Worker {
    /// Visits every host in turn: either wakes it, or starts a scan of it at once.
    fn visit_all(&mut self, waking: bool, now: u64, out: &mut Vec<Effect>)
        ensures
            ({
                let w = old(self)@;
                let (after, effects) = w.visit(
                    w.keys(),
                    |h: host::HostWModel| h.visited(waking, now, w.interval),
                );
                &&& final(self)@ == after
                &&& maps::views(final(out)@) == maps::views(old(out)@) + effects
            }),
    {
        let ghost w = self@;
        let ghost f = |h: host::HostWModel| h.visited(waking, now, w.interval);
        let ghost start = maps::views(out@);
        let keys = self.hosts.keys();
        let ghost ks = maps::views(keys@);
        let interval: u64 = self.interval;
        assert(ks.take(0) =~= Seq::<Seq<char>>::empty());
        assert(maps::views(out@) =~= start + Seq::<host::EffectModel>::empty());
        for i in 0..keys.len()
            invariant
                ks == maps::views(keys@),
                ks.to_set() == w.hosts.dom(),
                f == |h: host::HostWModel| h.visited(waking, now, w.interval),
                interval == w.interval,
                self@ == w.visit(ks.take(i as int), f).0,
                self@.hosts.dom() == w.hosts.dom(),
                maps::views(out@) == start + w.visit(ks.take(i as int), f).1,
        {
            let ghost before = self@;
            let ghost effects = w.visit(ks.take(i as int), f).1;
            let ghost k = ks[i as int];
            assert(ks.take(i + 1).drop_last() =~= ks.take(i as int));
            assert(ks.take(i + 1).last() == k);
            assert(ks.to_set().contains(k));
            let ghost h0 = before.hosts[k];
            match self.hosts.get_mut(&keys[i]) {
                Some(h) => {
                    if waking {
                        h.connect_if_needed(now, out);
                    }
                    h.spawn_scan(!waking, now, interval, out);
                },
                None => {},
            }
            assert(f(h0) == h0.visited(waking, now, w.interval));
            assert(self@.hosts.dom() =~= w.hosts.dom());
            assert(maps::views(out@) =~= start + (effects + f(h0).1));
        }
        assert(ks.take(ks.len() as int) =~= ks);
    }

    /// Starts a scan of every host.
    fn refresh(&mut self, now: u64, out: &mut Vec<Effect>)
        ensures
            final(self)@ == old(self)@.refresh(now).0,
            maps::views(final(out)@) == maps::views(old(out)@) + old(self)@.refresh(now).1,
    {
        let ghost interval = self@.interval;
        self.visit_all(false, now, out);
        assert((|h: host::HostWModel| h.visited(false, now, interval)) =~= (|h: host::HostWModel|
            h.scan(true, now, interval)));
    }

    /// Takes in the connections that there are now.
    fn on_tick(&mut self, conns: &Vec<LocalConn>, now: u64, out: &mut Vec<Effect>)
        ensures
            final(self)@ == old(self)@.tick(discover::conn_models(conns@), now).0,
            maps::views(final(out)@) == maps::views(old(out)@) + old(self)@.tick(
                discover::conn_models(conns@),
                now,
            ).1,
    {
        let ghost w = self@;
        let ghost start = maps::views(out@);
        self.unsee_all();
        let ghost base = self@;
        let ghost all = discover::conn_models(conns@);
        assert(all.take(0) =~= Seq::<discover::ConnModel>::empty());
        for i in 0..conns.len()
            invariant
                all == discover::conn_models(conns@),
                base.answers == w.answers,
                self@ == (WorkerModel {
                    hosts: all_absorbed(base.hosts, w.answers, all.take(i as int)),
                    ..base
                }),
        {
            assert(all.take(i + 1).drop_last() =~= all.take(i as int));
            assert(all.take(i + 1).last() == conns@[i as int]@);
            self.absorb(&conns[i]);
        }
        assert(all.take(all.len() as int) =~= all);
        assert(self@ == w.counted(all));
        self.drop_absent(out);
        self.visit_all(true, now, out);
        assert((|h: host::HostWModel| h.visited(true, now, w.interval)) =~= (|h: host::HostWModel|
            h.wake(now, w.interval)));
        assert(maps::views(out@) =~= start + w.tick(all, now).1);
    }

    /// Takes in how the way to a master has ended.
    fn on_master(
        &mut self,
        key: String,
        result: Result<Master, String>,
        now: u64,
        out: &mut Vec<Effect>,
    )
        ensures
            final(self)@ == old(self)@.master_done(key@, host::master_result(result), now).0,
            maps::views(final(out)@) == maps::views(old(out)@) + old(self)@.master_done(
                key@,
                host::master_result(result),
                now,
            ).1,
    {
        let ghost start = maps::views(out@);
        assert(start + Seq::<host::EffectModel>::empty() =~= start);
        let interval: u64 = self.interval;
        match self.hosts.get_mut(&key) {
            Some(h) => h.take_master(result, now, interval, out),
            None => {
                // The host disappeared while connecting: what was just opened is closed.
                match result {
                    Ok(m) => match m.close() {
                        Some(shutdown) => {
                            let t = Teardown { cancels: Vec::new(), close: Some(shutdown) };
                            assert(maps::views(t.cancels@)
                                =~= Seq::<util::InvocationModel>::empty());
                            out.push(Effect::Tear(t));
                            assert(maps::views(out@) =~= start + seq![
                                host::EffectModel::Tear(t@),
                            ]);
                        },
                        None => {},
                    },
                    Err(_) => {},
                }
            },
        }
    }

    /// Takes in what a scan has found.
    fn on_scan(
        &mut self,
        key: String,
        result: Result<Vec<RemoteApp>, String>,
        now: u64,
        out: &mut Vec<Effect>,
    )
        ensures
            final(self)@ == old(self)@.scan_done(key@, scan_result(result), now).0,
            maps::views(final(out)@) == maps::views(old(out)@) + old(self)@.scan_done(
                key@,
                scan_result(result),
                now,
            ).1,
    {
        let ghost start = maps::views(out@);
        assert(start + Seq::<host::EffectModel>::empty() =~= start);
        match self.hosts.get_mut(&key) {
            Some(h) => match result {
                Ok(found) => {
                    h.take_listing(&found, &self.memory, now, out);
                    self.auto_forward_pass(&key, out);
                    assert(maps::views(out@) =~= start + old(self)@.scan_done(
                        key@,
                        scan_result(result),
                        now,
                    ).1);
                },
                Err(err) => h.take_failure(err, now, out),
            },
            None => {},
        }
    }

    /// Turns auto-forwarding on or off.
    fn toggle_auto(&mut self, out: &mut Vec<Effect>)
        ensures
            final(self)@ == old(self)@.toggle_auto().0,
            maps::views(final(out)@) == maps::views(old(out)@) + old(self)@.toggle_auto().1,
    {
        let ghost start = maps::views(out@);
        self.auto = !self.auto;
        let e = Effect::Tell(Ev::AutoMode(self.auto));
        out.push(e);
        assert(maps::views(out@) =~= start + seq![e@]);
        if self.auto {
            let keys = self.hosts.keys();
            let ghost ks = maps::views(keys@);
            let ghost told = maps::views(out@);
            assert(ks.take(0) =~= Seq::<Seq<char>>::empty());
            assert(told + Seq::<host::EffectModel>::empty() =~= told);
            for i in 0..keys.len()
                invariant
                    ks == maps::views(keys@),
                    maps::views(out@) == told + self@.all_picks(ks.take(i as int)),
            {
                let ghost before = self@.all_picks(ks.take(i as int));
                assert(ks.take(i + 1).drop_last() =~= ks.take(i as int));
                assert(ks.take(i + 1).last() == ks[i as int]);
                self.auto_forward_pass(&keys[i], out);
                assert(maps::views(out@) =~= told + (before + self@.auto_picks(ks[i as int])));
            }
            assert(ks.take(ks.len() as int) =~= ks);
            assert(maps::views(out@) =~= start + old(self)@.toggle_auto().1);
        }
    }

    /// Follows a command of the user.
    fn on_cmd(&mut self, cmd: Cmd, clock: Clock, out: &mut Vec<Effect>)
        ensures
            final(self)@ == old(self)@.command(cmd@, clock).0,
            maps::views(final(out)@) == maps::views(old(out)@) + old(self)@.command(
                cmd@,
                clock,
            ).1,
    {
        match cmd {
            Cmd::Assign { host, rport, lport } => self.assign(
                host,
                rport,
                lport,
                None,
                clock.unix,
                out,
            ),
            Cmd::Toggle { host, rport } => self.toggle(host, rport, clock.unix, out),
            Cmd::SetComment { host, rport, text } => self.set_comment(
                host,
                rport,
                text,
                clock.unix,
                out,
            ),
            Cmd::ToggleHidden { host, rport } => self.toggle_hidden(host, rport, clock.unix, out),
            Cmd::ToggleHost { host } => self.toggle_host(host, out),
            Cmd::Refresh => self.refresh(clock.mono, out),
            Cmd::ToggleAuto => self.toggle_auto(out),
            Cmd::Quit => {
                assert(maps::views(out@) =~= maps::views(out@)
                    + Seq::<host::EffectModel>::empty());
            },
        }
    }

    /// Handles a message: the effects are to be carried out in order.
    pub fn handle(&mut self, msg: WMsg, clock: Clock) -> (r: Vec<Effect>)
        ensures
            final(self)@ == old(self)@.step(msg@, clock).0,
            maps::views(r@) == old(self)@.step(msg@, clock).1,
    {
        let mut out: Vec<Effect> = Vec::new();
        let ghost none = Seq::<host::EffectModel>::empty();
        assert(maps::views(out@) =~= none);
        match msg {
            WMsg::Cmd(cmd) => self.on_cmd(cmd, clock, &mut out),
            WMsg::Learned { key, result } => {
                if !self.answers.contains_key(&key) {
                    self.answers.insert(key, Answer(result));
                }
            },
            WMsg::Tick { conns } => self.on_tick(&conns, clock.mono, &mut out),
            WMsg::MasterDone { key, result } => self.on_master(key, result, clock.mono, &mut out),
            WMsg::ScanDone { key, result } => self.on_scan(key, result, clock.mono, &mut out),
            WMsg::AliveChecked { key, alive } => {
                if !alive {
                    match self.hosts.get_mut(&key) {
                        Some(h) => h.lose(),
                        None => {},
                    }
                }
            },
            WMsg::Picked { key, rport, free, ephemeral } => self.start_forward(
                &key,
                rport,
                &free,
                ephemeral,
                &mut out,
            ),
            WMsg::PortChecked { key, rport, lport, user } => self.assign(
                key,
                rport,
                lport,
                Some(user),
                clock.unix,
                &mut out,
            ),
            WMsg::FwdDone { key, rport, lport, pin, result } => self.on_fwd(
                key,
                rport,
                lport,
                pin,
                result,
                clock.unix,
                &mut out,
            ),
        }
        assert(none + old(self)@.step(msg@, clock).1 =~= old(self)@.step(msg@, clock).1);
        out
    }
}

/// The connections of which it is not known yet what ssh makes of them.
pub open spec fn unanswered(
    answers: Map<(Seq<char>, Seq<Seq<char>>), Option<discover::ResolvedModel>>,
    conns: Seq<discover::ConnModel>,
) -> Seq<(Seq<char>, Seq<Seq<char>>)>
    decreases conns.len(),
{
    if conns.len() == 0 {
        Seq::empty()
    } else {
        let before = unanswered(answers, conns.drop_last());
        if answers.contains_key(conns.last().key()) {
            before
        } else {
            before.push(conns.last().key())
        }
    }
}

impl WorkerModel {
    /// The hosts as they are shown, in the order of their keys.
    pub open spec fn shown(self) -> Seq<types::HostModel> {
        let keys = self.keys();
        Seq::new(
            keys.len(),
            |i: int| self.hosts[keys[i]].shown(self.memory.paused.contains(keys[i])),
        )
    }
}

impl Worker {
    /// A worker that knows no host yet, and what is to be told of it at the start.
    pub fn new(opts: Options, memory: State) -> (r: (Worker, Vec<Effect>))
        ensures
            r.0@ == (WorkerModel {
                hosts: Map::empty(),
                memory: memory@,
                auto: opts.auto,
                interval: opts.interval,
                answers: Map::empty(),
            }),
            maps::views(r.1@) == seq![
                host::EffectModel::Tell(types::EvModel::AutoMode(opts.auto)),
            ],
    {
        let w = Worker {
            hosts: SortedMap::new(),
            memory,
            auto: opts.auto,
            interval: opts.interval,
            answers: SortedMap::new(),
        };
        let e = Effect::Tell(Ev::AutoMode(opts.auto));
        let out: Vec<Effect> = vec![e];
        assert(maps::views(out@) =~= seq![e@]);
        (w, out)
    }

    /// What is remembered, to be written to disk.
    pub fn memory(&self) -> (r: &State)
        ensures
            r@ == self@.memory,
    {
        &self.memory
    }

    /// The connections for which ssh is to be asked what it makes of them.
    pub fn unresolved(&self, conns: &Vec<LocalConn>) -> (r: Vec<ConnKey>)
        ensures
            maps::views(r@) == unanswered(self@.answers, discover::conn_models(conns@)),
    {
        let mut out: Vec<ConnKey> = Vec::new();
        let ghost all = discover::conn_models(conns@);
        assert(all.take(0) =~= Seq::<discover::ConnModel>::empty());
        assert(maps::views(out@) =~= Seq::<(Seq<char>, Seq<Seq<char>>)>::empty());
        for i in 0..conns.len()
            invariant
                all == discover::conn_models(conns@),
                maps::views(out@) == unanswered(self@.answers, all.take(i as int)),
        {
            let ghost before = maps::views(out@);
            assert(all.take(i + 1).drop_last() =~= all.take(i as int));
            assert(all.take(i + 1).last() == conns@[i as int]@);
            let key = ConnKey {
                dest: conns[i].dest.clone(),
                extra: text::copy_strings(&conns[i].extra),
            };
            assert(key@ == conns@[i as int]@.key());
            if !self.answers.contains_key(&key) {
                out.push(key);
                assert(maps::views(out@) =~= before.push(key@));
            }
        }
        assert(all.take(all.len() as int) =~= all);
        out
    }

    /// The hosts as they are shown.
    pub fn snapshot(&self) -> (r: Vec<HostView>)
        ensures
            types::host_models(r@) == self@.shown(),
    {
        let mut out: Vec<HostView> = Vec::new();
        let n: usize = self.hosts.len();
        let ghost all = self@.shown();
        for i in 0..n
            invariant
                n == self@.keys().len(),
                all == self@.shown(),
                types::host_models(out@) == all.take(i as int),
        {
            let ghost before = types::host_models(out@);
            let paused = self.memory.paused(self.hosts.key_at(i).as_str());
            let h = self.hosts.value_at(i).show(paused);
            out.push(h);
            assert(types::host_models(out@) =~= before.push(h@));
            assert(all.take(i + 1) =~= before.push(h@));
        }
        assert(all.take(n as int) =~= all);
        out
    }

    /// Forgets all hosts: what ends all that was set up for them.
    pub fn cleanup(&mut self) -> (r: Vec<Teardown>)
        ensures
            final(self)@ == (WorkerModel { hosts: Map::empty(), ..old(self)@ }),
            maps::views(r@) == tears(old(self)@.hosts, old(self)@.keys()),
    {
        let mut out: Vec<Teardown> = Vec::new();
        let n: usize = self.hosts.len();
        let ghost w = self@;
        let ghost ks = w.keys();
        assert(ks.take(0) =~= Seq::<Seq<char>>::empty());
        assert(maps::views(out@) =~= Seq::<host::TeardownModel>::empty());
        for i in 0..n
            invariant
                self@ == w,
                ks == w.keys(),
                n == ks.len(),
                maps::views(out@) == tears(w.hosts, ks.take(i as int)),
        {
            let ghost before = maps::views(out@);
            assert(ks.take(i + 1).drop_last() =~= ks.take(i as int));
            assert(ks.take(i + 1).last() == ks[i as int]);
            match self.hosts.value_at(i).teardown_host() {
                Some(t) => {
                    out.push(t);
                    assert(maps::views(out@) =~= before.push(t@));
                },
                None => {},
            }
        }
        assert(ks.take(n as int) =~= ks);
        self.hosts = SortedMap::new();
        out
    }
}

} // verus!
