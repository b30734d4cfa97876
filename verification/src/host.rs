//! One host: its connection, its apps, and what is to be done about them.
use vstd::prelude::*;
use crate::control;
use crate::control::{Master, MasterRef, Shutdown};
use crate::discover;
use crate::discover::{LocalConn, Resolved};
use crate::maps;
use crate::maps::SortedMap;
use crate::remote;
use crate::remote::RemoteApp;
use crate::state;
use crate::state::State;
use crate::text;
use crate::types;
use crate::types::{AppView, Ev, FwdView, HostView, MasterView, Tier};
use crate::util;
use crate::util::Invocation;

verus! {

/// The commands that end what was set up for a host, to be run in order.
#[derive(Debug, PartialEq)]
pub struct Teardown {
    /// The forwards to cancel on a master that lives on.
    pub cancels: Vec<Invocation>,
    /// The master to end.
    pub close: Option<Shutdown>,
}

/// The model of a [`Teardown`].
#[verifier::ext_equal]
pub struct TeardownModel {
    pub cancels: Seq<util::InvocationModel>,
    pub close: Option<control::ShutdownModel>,
}

impl View for Teardown {
    type V = TeardownModel;

    open spec fn view(&self) -> TeardownModel {
        TeardownModel {
            cancels: maps::views(self.cancels@),
            close: match self.close {
                Some(c) => Some(c@),
                None => None,
            },
        }
    }
}

/// Something to be done outside.
#[derive(Debug, PartialEq)]
pub enum Effect {
    /// Set out for a master of this host, in the background, and report how it ended.
    Connect { key: String, dest: String, extra: Vec<String>, control_path: Option<String> },
    /// Run the scan in the background, and report what it found.
    Scan { key: String, command: Invocation },
    /// Ask at once whether the master of this host lives, and report it.
    CheckAlive { key: String, command: Invocation },
    /// Find out at once which of these local ports are free and which one the kernel hands out, and
    /// report it.
    PickPort { key: String, rport: u16, tries: Vec<u16> },
    /// Find out at once whether this local port is free or who uses it, and report it.
    CheckPort { key: String, rport: u16, lport: u16 },
    /// Run the first command, if there is one, then the second, in the background, and report how
    /// the second ended.
    Forward {
        key: String,
        rport: u16,
        lport: u16,
        pin: bool,
        first: Option<Invocation>,
        command: Invocation,
    },
    /// Run the command in the background, whatever comes of it.
    Run(Invocation),
    /// Run the commands in the background, whatever comes of them.
    Tear(Teardown),
    /// Tell the user interface.
    Tell(Ev),
    /// Write the memory to disk.
    Save,
}

/// The model of an [`Effect`].
#[verifier::ext_equal]
pub enum EffectModel {
    Connect {
        key: Seq<char>,
        dest: Seq<char>,
        extra: Seq<Seq<char>>,
        control_path: Option<Seq<char>>,
    },
    Scan { key: Seq<char>, command: util::InvocationModel },
    CheckAlive { key: Seq<char>, command: util::InvocationModel },
    PickPort { key: Seq<char>, rport: u16, tries: Seq<u16> },
    CheckPort { key: Seq<char>, rport: u16, lport: u16 },
    Forward {
        key: Seq<char>,
        rport: u16,
        lport: u16,
        pin: bool,
        first: Option<util::InvocationModel>,
        command: util::InvocationModel,
    },
    Run(util::InvocationModel),
    Tear(TeardownModel),
    Tell(types::EvModel),
    Save,
}

impl View for Effect {
    type V = EffectModel;

    open spec fn view(&self) -> EffectModel {
        match *self {
            Effect::Connect { key, dest, extra, control_path } => EffectModel::Connect {
                key: key@,
                dest: dest@,
                extra: text::string_texts(extra@),
                control_path: types::opt_text(control_path),
            },
            Effect::Scan { key, command } => EffectModel::Scan { key: key@, command: command@ },
            Effect::CheckAlive { key, command } => EffectModel::CheckAlive {
                key: key@,
                command: command@,
            },
            Effect::PickPort { key, rport, tries } => EffectModel::PickPort {
                key: key@,
                rport,
                tries: tries@,
            },
            Effect::CheckPort { key, rport, lport } => EffectModel::CheckPort {
                key: key@,
                rport,
                lport,
            },
            Effect::Forward { key, rport, lport, pin, first, command } => EffectModel::Forward {
                key: key@,
                rport,
                lport,
                pin,
                first: match first {
                    Some(c) => Some(c@),
                    None => None,
                },
                command: command@,
            },
            Effect::Run(command) => EffectModel::Run(command@),
            Effect::Tear(t) => EffectModel::Tear(t@),
            Effect::Tell(ev) => EffectModel::Tell(ev@),
            Effect::Save => EffectModel::Save,
        }
    }
}

/// A message for the user, as an effect.
pub open spec fn toast(msg: Seq<char>) -> EffectModel {
    EffectModel::Tell(types::EvModel::Toast(msg))
}

/// The state of the connection of a host.
pub enum MState {
    Connecting,
    Ready(Master),
    /// `at` is the time of the failure, `None` where the next try is due at once.
    Failed { err: String, at: Option<u64> },
}

/// The model of an [`MState`].
pub enum MStateModel {
    Connecting,
    Ready(control::LinkModel),
    Failed { err: Seq<char>, at: Option<u64> },
}

impl View for MState {
    type V = MStateModel;

    open spec fn view(&self) -> MStateModel {
        match *self {
            MState::Connecting => MStateModel::Connecting,
            MState::Ready(m) => MStateModel::Ready(m@),
            MState::Failed { err, at } => MStateModel::Failed { err: err@, at },
        }
    }
}

/// An app of a host.
pub struct AppW {
    pub shown: AppView,
    /// One automatic retry with a fresh port has been spent after a local bind failure.
    pub retried_new_port: bool,
}

/// The model of an [`AppW`].
#[verifier::ext_equal]
pub struct AppWModel {
    pub shown: types::AppModel,
    pub retried_new_port: bool,
}

impl View for AppW {
    type V = AppWModel;

    open spec fn view(&self) -> AppWModel {
        AppWModel { shown: self.shown@, retried_new_port: self.retried_new_port }
    }
}

/// A host that the user has a connection to.
pub struct HostW {
    /// Canonical identity: user@hostname:port
    pub key: String,
    pub title: String,
    pub dest: String,
    pub extra: Vec<String>,
    pub sshd_port: u16,
    pub control_path: Option<String>,
    /// Remote port -> local port that the user's own sessions already forward (config LocalForward
    /// or -L). Rebuilt every tick.
    pub ext_forwards: SortedMap<u16, u16>,
    pub master: MState,
    pub connect_inflight: bool,
    pub apps: SortedMap<u16, AppW>,
    pub scanning: bool,
    pub last_scan: Option<u64>,
    pub scan_err: Option<String>,
    pub present: bool,
}

/// The model of a [`HostW`].
#[verifier::ext_equal]
pub struct HostWModel {
    pub key: Seq<char>,
    pub title: Seq<char>,
    pub dest: Seq<char>,
    pub extra: Seq<Seq<char>>,
    pub sshd_port: u16,
    pub control_path: Option<Seq<char>>,
    pub ext_forwards: Map<u16, u16>,
    pub master: MStateModel,
    pub connect_inflight: bool,
    pub apps: Map<u16, AppWModel>,
    pub scanning: bool,
    pub last_scan: Option<u64>,
    pub scan_err: Option<Seq<char>>,
    pub present: bool,
}

impl View for HostW {
    type V = HostWModel;

    open spec fn view(&self) -> HostWModel {
        HostWModel {
            key: self.key@,
            title: self.title@,
            dest: self.dest@,
            extra: text::string_texts(self.extra@),
            sshd_port: self.sshd_port,
            control_path: types::opt_text(self.control_path),
            ext_forwards: self.ext_forwards@,
            master: self.master@,
            connect_inflight: self.connect_inflight,
            apps: self.apps@,
            scanning: self.scanning,
            last_scan: self.last_scan,
            scan_err: types::opt_text(self.scan_err),
            present: self.present,
        }
    }
}

/// How long ago `at` was.
pub open spec fn elapsed(at: u64, now: u64) -> u64 {
    if now >= at {
        (now - at) as u64
    } else {
        0
    }
}

/// How long ago `at` was.
pub fn elapsed_of(at: u64, now: u64) -> (r: u64)
    ensures
        r == elapsed(at, now),
{
    if now >= at {
        now - at
    } else {
        0
    }
}

/// How long to wait after a failed connection before the next try, in nanoseconds.
pub open spec fn cooldown() -> u64 {
    30_000_000_000
}

/// How the way to a master has ended.
pub open spec fn master_result(result: Result<Master, String>) -> Result<
    control::LinkModel,
    Seq<char>,
> {
    match result {
        Ok(m) => Ok(m@),
        Err(e) => Err(e@),
    }
}

impl HostWModel {
    /// Whether it is time to connect.
    pub open spec fn connect_due(self, now: u64) -> bool {
        !self.connect_inflight && match self.master {
            MStateModel::Connecting => true,
            MStateModel::Failed { at: Some(at), .. } => elapsed(at, now) > cooldown(),
            MStateModel::Failed { at: None, .. } => true,
            MStateModel::Ready(_) => false,
        }
    }

    /// The host and the effects once it has been connected, where that is due.
    pub open spec fn connect(self, now: u64) -> (HostWModel, Seq<EffectModel>) {
        if self.connect_due(now) {
            (
                HostWModel { master: MStateModel::Connecting, connect_inflight: true, ..self },
                seq![
                    EffectModel::Connect {
                        key: self.key,
                        dest: self.dest,
                        extra: self.extra,
                        control_path: self.control_path,
                    },
                ],
            )
        } else {
            (self, Seq::empty())
        }
    }

    /// Whether a scan is to be started: never two at once, and not before the interval has passed
    /// unless it is forced.
    pub open spec fn scan_due(self, force: bool, now: u64, interval: u64) -> bool {
        self.master is Ready && !self.scanning && (force || match self.last_scan {
            Some(t) => elapsed(t, now) >= interval,
            None => true,
        })
    }

    /// The host and the effects once a scan has been started, where that is due.
    pub open spec fn scan(self, force: bool, now: u64, interval: u64) -> (
        HostWModel,
        Seq<EffectModel>,
    ) {
        if self.scan_due(force, now, interval) {
            (
                HostWModel { scanning: true, ..self },
                seq![
                    EffectModel::Scan { key: self.key, command: self.master->Ready_0.r.scan() },
                ],
            )
        } else {
            (self, Seq::empty())
        }
    }

    /// The host and the effects once the way to its master has come to its end.
    pub open spec fn mastered(
        self,
        result: Result<control::LinkModel, Seq<char>>,
        now: u64,
        interval: u64,
    ) -> (HostWModel, Seq<EffectModel>) {
        match result {
            Ok(m) => HostWModel {
                connect_inflight: false,
                master: MStateModel::Ready(m),
                scan_err: None,
                ..self
            }.scan(true, now, interval),
            Err(err) => (
                HostWModel {
                    connect_inflight: false,
                    master: MStateModel::Failed { err, at: Some(now) },
                    ..self
                },
                Seq::empty(),
            ),
        }
    }
}

impl HostW {
    /// Connects, where that is due.
    pub fn connect_if_needed(&mut self, now: u64, out: &mut Vec<Effect>)
        ensures
            final(self)@ == old(self)@.connect(now).0,
            maps::views(final(out)@) == maps::views(old(out)@) + old(self)@.connect(now).1,
    {
        let go = !self.connect_inflight && match &self.master {
            MState::Connecting => true,
            MState::Failed { at: Some(at), .. } => elapsed_of(*at, now) > 30_000_000_000,
            MState::Failed { at: None, .. } => true,
            MState::Ready(_) => false,
        };
        if go {
            let e = Effect::Connect {
                key: self.key.clone(),
                dest: self.dest.clone(),
                extra: text::copy_strings(&self.extra),
                control_path: types::copy_opt(&self.control_path),
            };
            self.master = MState::Connecting;
            self.connect_inflight = true;
            out.push(e);
        }
        assert(maps::views(out@) =~= maps::views(old(out)@) + old(self)@.connect(now).1);
    }

    /// Starts a scan, where that is due.
    pub fn spawn_scan(&mut self, force: bool, now: u64, interval: u64, out: &mut Vec<Effect>)
        ensures
            final(self)@ == old(self)@.scan(force, now, interval).0,
            maps::views(final(out)@) == maps::views(old(out)@) + old(self)@.scan(
                force,
                now,
                interval,
            ).1,
    {
        let due = force || match self.last_scan {
            Some(t) => elapsed_of(t, now) >= interval,
            None => true,
        };
        if due && !self.scanning {
            match &self.master {
                MState::Ready(m) => {
                    out.push(Effect::Scan { key: self.key.clone(), command: m.r.scan() });
                    self.scanning = true;
                },
                _ => {},
            }
        }
        assert(maps::views(out@) =~= maps::views(old(out)@) + old(self)@.scan(
            force,
            now,
            interval,
        ).1);
    }
}

/// A forward that was asked for here and is in force or under way.
pub open spec fn live(app: AppWModel) -> bool {
    app.shown.status is Active || app.shown.status is Pending
}

/// The local port that a live forward claims.
pub open spec fn live_port(app: AppWModel) -> Option<u16> {
    if live(app) {
        app.shown.lport
    } else {
        None
    }
}

/// The app with its forward off.
pub open spec fn off(app: AppWModel) -> AppWModel {
    AppWModel { shown: types::AppModel { status: types::FwdModel::Off, ..app.shown }, ..app }
}

/// The commands that cancel the live forwards among those of `ports`.
pub open spec fn cancels(
    apps: Map<u16, AppWModel>,
    ports: Seq<u16>,
    master: control::MasterRefModel,
) -> Seq<util::InvocationModel>
    decreases ports.len(),
{
    if ports.len() == 0 {
        Seq::empty()
    } else {
        let before = cancels(apps, ports.drop_last(), master);
        match live_port(apps[ports.last()]) {
            Some(lport) => before.push(master.mux("cancel"@, lport, ports.last())),
            None => before,
        }
    }
}

/// Each command as an effect that runs it.
pub open spec fn runs(commands: Seq<util::InvocationModel>) -> Seq<EffectModel> {
    Seq::new(commands.len(), |i: int| EffectModel::Run(commands[i]))
}

/// The apps with all their forwards off, or only the live ones.
pub open spec fn turned_off(apps: Map<u16, AppWModel>, only_live: bool) -> Map<u16, AppWModel> {
    apps.map_values(
        |a: AppWModel|
            if only_live && !live(a) {
                a
            } else {
                off(a)
            },
    )
}

/// How an app is treated, and whether the user said so: the remembered override, or else the
/// heuristic.
pub open spec fn tier_of(
    port: u16,
    process: Option<Seq<char>>,
    sshd_port: u16,
    remembered: Option<state::AssignmentModel>,
) -> (Tier, bool) {
    let chosen = match remembered {
        Some(a) => state::override_tier(a.tier),
        None => None,
    };
    match chosen {
        Some(t) => (t, true),
        None => (
            if remote::system_service(port, process, sshd_port) {
                Tier::System
            } else {
                Tier::App
            },
            false,
        ),
    }
}

/// What is known now, or else what was known before.
pub open spec fn known<T>(new: Option<T>, before: Option<T>) -> Option<T> {
    if new is Some {
        new
    } else {
        before
    }
}

/// A known app after a scan has found it again. Where the user's own session forwards the port, an
/// idle app adopts that forward, and one that was adopted is released when it disappears; forwards
/// asked for here stay untouched.
pub open spec fn rescanned(
    app: AppWModel,
    found: remote::RemoteModel,
    tier: (Tier, bool),
    ext: Option<u16>,
) -> AppWModel {
    let (status, lport) = match (app.shown.status, ext) {
        (types::FwdModel::Off, Some(lp)) => (types::FwdModel::External, Some(lp)),
        (types::FwdModel::Error(_), Some(lp)) => (types::FwdModel::External, Some(lp)),
        (types::FwdModel::External, None) => (types::FwdModel::Off, None),
        (types::FwdModel::External, Some(lp)) => (types::FwdModel::External, Some(lp)),
        (status, _) => (status, app.shown.lport),
    };
    AppWModel {
        shown: types::AppModel {
            addr: found.addr,
            process: known(found.process, app.shown.process),
            pid: known(found.pid, app.shown.pid),
            cmdline: known(found.cmdline, app.shown.cmdline),
            tier: tier.0,
            overridden: tier.1,
            status,
            lport,
            ..app.shown
        },
        ..app
    }
}

/// An app that a scan has found for the first time, with what is remembered of it.
pub open spec fn discovered(
    found: remote::RemoteModel,
    tier: (Tier, bool),
    ext: Option<u16>,
    remembered: Option<state::AssignmentModel>,
) -> AppWModel {
    AppWModel {
        shown: types::AppModel {
            rport: found.port,
            addr: found.addr,
            process: found.process,
            pid: found.pid,
            cmdline: found.cmdline,
            comment: match remembered {
                Some(a) => a.comment,
                None => None,
            },
            tier: tier.0,
            overridden: tier.1,
            lport: ext,
            status: if ext is Some {
                types::FwdModel::External
            } else {
                types::FwdModel::Off
            },
            pinned: match remembered {
                Some(a) => a.pinned,
                None => false,
            },
            muted: match remembered {
                Some(a) => a.muted,
                None => false,
            },
        },
        retried_new_port: false,
    }
}

/// The value of a key, if there is one.
pub open spec fn lookup<K, T>(m: Map<K, T>, k: K) -> Option<T> {
    if m.contains_key(k) {
        Some(m[k])
    } else {
        None
    }
}

/// The listed listeners are on these ports.
pub open spec fn ports_of(found: Seq<remote::RemoteModel>) -> Set<u16> {
    Set::new(|p: u16| exists|i: int| 0 <= i < found.len() && (#[trigger] found[i]).port == p)
}

impl HostWModel {
    /// The app on the port of a listener that a scan has found.
    pub open spec fn met(
        self,
        apps: Map<u16, AppWModel>,
        found: remote::RemoteModel,
        memory: state::StateModel,
    ) -> AppWModel {
        let remembered = memory.get(self.key, found.port);
        let tier = tier_of(found.port, found.process, self.sshd_port, remembered);
        let ext = lookup(self.ext_forwards, found.port);
        if apps.contains_key(found.port) {
            rescanned(apps[found.port], found, tier, ext)
        } else {
            discovered(found, tier, ext, remembered)
        }
    }

    /// The apps once what a scan has found has been added, one listener after the other.
    pub open spec fn merged(
        self,
        found: Seq<remote::RemoteModel>,
        memory: state::StateModel,
    ) -> Map<u16, AppWModel>
        decreases found.len(),
    {
        if found.len() == 0 {
            self.apps
        } else {
            let apps = self.merged(found.drop_last(), memory);
            apps.insert(found.last().port, self.met(apps, found.last(), memory))
        }
    }

    /// The ports of apps that a scan has not found again, in order.
    pub open spec fn vanished(
        self,
        found: Seq<remote::RemoteModel>,
        memory: state::StateModel,
    ) -> Seq<u16> {
        let heard = ports_of(found);
        maps::ordered_keys::<u16, AppWModel>(self.merged(found, memory)).filter(
            |p: u16| !heard.contains(p),
        )
    }

    /// The host and the effects once a scan has brought a listing: apps that vanished from the
    /// remote are dropped, and their forwards cancelled.
    pub open spec fn scanned(
        self,
        found: Seq<remote::RemoteModel>,
        memory: state::StateModel,
        now: u64,
    ) -> (HostWModel, Seq<EffectModel>) {
        let apps = self.merged(found, memory);
        (
            HostWModel {
                scanning: false,
                last_scan: Some(now),
                scan_err: None,
                apps: apps.restrict(ports_of(found)),
                ..self
            },
            match self.master {
                MStateModel::Ready(m) => runs(cancels(apps, self.vanished(found, memory), m.r)),
                _ => Seq::empty(),
            },
        )
    }

    /// The host and the effects once a scan has failed: if the master died, it is time to
    /// reconnect.
    pub open spec fn scan_failed(self, err: Seq<char>, now: u64) -> (
        HostWModel,
        Seq<EffectModel>,
    ) {
        (
            HostWModel {
                scanning: false,
                last_scan: Some(now),
                scan_err: Some(err),
                ..self
            },
            match self.master {
                MStateModel::Ready(m) => seq![
                    EffectModel::CheckAlive { key: self.key, command: m.r.check() },
                ],
                _ => Seq::empty(),
            },
        )
    }

    /// The host once its master has been found dead: the next tick reconnects at once, without the
    /// wait after a failure.
    pub open spec fn lost(self) -> HostWModel {
        if self.master is Ready {
            HostWModel {
                master: MStateModel::Failed { err: "connection lost"@, at: None },
                apps: turned_off(self.apps, false),
                ..self
            }
        } else {
            self
        }
    }

    /// The effects that end what was set up for the host: its own master is closed, which drops all
    /// its forwards; on the user's master just the forwards asked for here are cancelled.
    pub open spec fn teardown(self) -> Option<TeardownModel> {
        match self.master {
            MStateModel::Ready(m) => Some(
                if m.external {
                    TeardownModel {
                        cancels: cancels(
                            self.apps,
                            maps::ordered_keys::<u16, AppWModel>(self.apps),
                            m.r,
                        ),
                        close: None,
                    }
                } else {
                    TeardownModel { cancels: Seq::empty(), close: Some(m.shutdown()) }
                },
            ),
            _ => None,
        }
    }
}

/// The commands that cancel the live forwards among those of `ports`.
fn cancels_of(apps: &SortedMap<u16, AppW>, ports: &Vec<u16>, master: &MasterRef) -> (r: Vec<
    Invocation,
>)
    requires
        forall|i: int| 0 <= i < ports@.len() ==> apps@.contains_key(#[trigger] ports@[i]),
    ensures
        maps::views(r@) == cancels(apps@, ports@, master@),
{
    let mut r: Vec<Invocation> = Vec::new();
    assert(ports@.take(0) =~= Seq::<u16>::empty());
    for i in 0..ports.len()
        invariant
            forall|j: int| 0 <= j < ports@.len() ==> apps@.contains_key(#[trigger] ports@[j]),
            maps::views(r@) == cancels(apps@, ports@.take(i as int), master@),
    {
        let ghost before = maps::views(r@);
        let p: u16 = ports[i];
        assert(ports@.take(i + 1).drop_last() =~= ports@.take(i as int));
        match apps.get(&p) {
            Some(app) => match (&app.shown.status, app.shown.lport) {
                (FwdView::Active, Some(lport)) | (FwdView::Pending, Some(lport)) => {
                    let c = master.cancel(lport, p);
                    r.push(c);
                    assert(maps::views(r@) =~= before.push(c@));
                },
                _ => {},
            },
            None => {},
        }
    }
    assert(ports@.take(ports@.len() as int) =~= ports@);
    r
}

/// Appends effects that run the commands.
fn run_all(commands: &Vec<Invocation>, out: &mut Vec<Effect>)
    ensures
        maps::views(final(out)@) == maps::views(old(out)@) + runs(maps::views(commands@)),
{
    let ghost all = runs(maps::views(commands@));
    let ghost start = maps::views(out@);
    assert(maps::views(out@) =~= start + all.take(0));
    for i in 0..commands.len()
        invariant
            all == runs(maps::views(commands@)),
            maps::views(out@) == start + all.take(i as int),
    {
        let ghost before = maps::views(out@);
        let c = commands[i].clone();
        out.push(Effect::Run(c));
        assert(maps::views(out@) =~= before.push(EffectModel::Run(c@)));
        assert(start + all.take(i + 1) =~= before.push(all[i as int]));
    }
    assert(all.take(all.len() as int) =~= all);
}

/// A copy of the text that is known now, or else of the one that was known before.
fn known_text(new: &Option<String>, before: &Option<String>) -> (r: Option<String>)
    ensures
        types::opt_text(r) == known(types::opt_text(*new), types::opt_text(*before)),
{
    match new {
        Some(s) => Some(s.clone()),
        None => types::copy_opt(before),
    }
}

/// Turns the forwards off, all of them or only the live ones.
pub fn turn_off(apps: &mut SortedMap<u16, AppW>, only_live: bool)
    ensures
        final(apps)@ == turned_off(old(apps)@, only_live),
{
    let keys = apps.keys();
    let ghost start = apps@;
    let ghost goal = turned_off(start, only_live);
    let ghost ks = maps::views(keys@);
    for i in 0..keys.len()
        invariant
            ks == maps::views(keys@),
            maps::is_ordered::<u16>(ks),
            ks.to_set() == start.dom(),
            goal == turned_off(start, only_live),
            apps@.dom() == start.dom(),
            forall|j: int| 0 <= j < i ==> apps@[#[trigger] ks[j]] == goal[ks[j]],
            forall|j: int| i <= j < ks.len() ==> apps@[#[trigger] ks[j]] == start[ks[j]],
    {
        let ghost before = apps@;
        let k: u16 = keys[i];
        assert(ks[i as int] == k);
        assert(ks.to_set().contains(k));
        match apps.get_mut(&k) {
            Some(app) => {
                let is_live = match app.shown.status {
                    FwdView::Active | FwdView::Pending => true,
                    _ => false,
                };
                if !only_live || is_live {
                    app.shown.status = FwdView::Off;
                }
            },
            None => {},
        }
        assert(apps@ =~= before.insert(k, goal[k]));
        assert(apps@.dom() =~= start.dom());
    }
    assert forall|k: u16| start.contains_key(k) implies #[trigger] apps@[k] == goal[k] by {
        assert(ks.contains(k));
        let j = choose|j: int| 0 <= j < ks.len() && ks[j] == k;
        assert(apps@[ks[j]] == goal[ks[j]]);
    }
    assert(apps@ =~= goal);
}

fn tier_for(app: &RemoteApp, sshd_port: u16, remembered: Option<&state::Assignment>) -> (r: (
    Tier,
    bool,
))
    ensures
        r == tier_of(
            app.port,
            types::opt_text(app.process),
            sshd_port,
            match remembered {
                Some(a) => Some(a@),
                None => None,
            },
        ),
{
    match remembered {
        Some(a) => match &a.tier {
            Some(t) => {
                if text::same_text(t.as_str(), "app") {
                    return (Tier::App, true);
                }
                if text::same_text(t.as_str(), "bg") {
                    return (Tier::Bg, true);
                }
            },
            None => {},
        },
        None => {},
    }
    if remote::is_system(app, sshd_port) {
        (Tier::System, false)
    } else {
        (Tier::App, false)
    }
}

/// Brings a known app up to date with what a scan has found.
fn rescan(app: &mut AppW, found: &RemoteApp, tier: (Tier, bool), ext: Option<u16>)
    ensures
        final(app)@ == rescanned(old(app)@, found@, tier, ext),
{
    app.shown.addr = found.addr.clone();
    app.shown.process = known_text(&found.process, &app.shown.process);
    if found.pid.is_some() {
        app.shown.pid = found.pid;
    }
    app.shown.cmdline = known_text(&found.cmdline, &app.shown.cmdline);
    app.shown.tier = tier.0;
    app.shown.overridden = tier.1;
    match (&app.shown.status, ext) {
        // The user's own session forwards this port: idle apps adopt its forward.
        (FwdView::Off, Some(lp)) | (FwdView::Error(_), Some(lp)) => {
            app.shown.status = FwdView::External;
            app.shown.lport = Some(lp);
        },
        // That forward disappeared: released, so that auto-forward can take over.
        (FwdView::External, None) => {
            app.shown.status = FwdView::Off;
            app.shown.lport = None;
        },
        (FwdView::External, Some(lp)) => {
            app.shown.lport = Some(lp);
        },
        _ => {},
    }
}

/// An app that a scan has found for the first time.
fn discover_app(
    found: &RemoteApp,
    tier: (Tier, bool),
    ext: Option<u16>,
    remembered: Option<&state::Assignment>,
) -> (r: AppW)
    ensures
        r@ == discovered(
            found@,
            tier,
            ext,
            match remembered {
                Some(a) => Some(a@),
                None => None,
            },
        ),
{
    let status = match ext {
        Some(_) => FwdView::External,
        None => FwdView::Off,
    };
    let (comment, pinned, muted) = match remembered {
        Some(a) => (types::copy_opt(&a.comment), a.pinned, a.muted),
        None => (None, false, false),
    };
    AppW {
        shown: AppView {
            rport: found.port,
            addr: found.addr.clone(),
            process: types::copy_opt(&found.process),
            pid: found.pid,
            cmdline: types::copy_opt(&found.cmdline),
            comment,
            tier: tier.0,
            overridden: tier.1,
            lport: ext,
            status,
            pinned,
            muted,
        },
        retried_new_port: false,
    }
}

fn heard(found: &Vec<RemoteApp>, port: u16) -> (r: bool)
    ensures
        r == ports_of(remote::models(found@)).contains(port),
{
    let ghost all = remote::models(found@);
    for i in 0..found.len()
        invariant
            all == remote::models(found@),
            forall|j: int| 0 <= j < i ==> (#[trigger] all[j]).port != port,
    {
        if found[i].port == port {
            assert(all[i as int].port == port);
            return true;
        }
        assert(all[i as int].port != port);
    }
    false
}

impl HostW {
    /// Adds one listener that a scan has found.
    fn meet(&mut self, found: &RemoteApp, memory: &State)
        ensures
            final(self)@ == (HostWModel {
                apps: old(self)@.apps.insert(
                    found.port,
                    old(self)@.met(old(self)@.apps, found@, memory@),
                ),
                ..old(self)@
            }),
    {
        let remembered = memory.get(self.key.as_str(), found.port);
        let tier = tier_for(found, self.sshd_port, remembered);
        let ext = match self.ext_forwards.get(&found.port) {
            Some(lp) => Some(*lp),
            None => None,
        };
        if self.apps.contains_key(&found.port) {
            match self.apps.get_mut(&found.port) {
                Some(app) => rescan(app, found, tier, ext),
                None => {},
            }
        } else {
            let app = discover_app(found, tier, ext, remembered);
            self.apps.insert(found.port, app);
        }
    }

    /// Adds all that a scan has found.
    fn merge(&mut self, found: &Vec<RemoteApp>, memory: &State)
        ensures
            final(self)@ == (HostWModel {
                apps: old(self)@.merged(remote::models(found@), memory@),
                ..old(self)@
            }),
    {
        let ghost start = self@;
        let ghost all = remote::models(found@);
        assert(all.take(0) =~= Seq::<remote::RemoteModel>::empty());
        for i in 0..found.len()
            invariant
                all == remote::models(found@),
                self@ == (HostWModel {
                    apps: start.merged(all.take(i as int), memory@),
                    ..start
                }),
        {
            let ghost apps = start.merged(all.take(i as int), memory@);
            assert(all.take(i + 1).drop_last() =~= all.take(i as int));
            assert(all.take(i + 1).last() == found@[i as int]@);
            assert(self@.met(apps, found@[i as int]@, memory@) == start.met(
                apps,
                found@[i as int]@,
                memory@,
            ));
            self.meet(&found[i], memory);
        }
        assert(all.take(all.len() as int) =~= all);
    }
}

impl HostW {
    /// Drops the apps that a scan has not found again, and cancels their forwards.
    fn drop_vanished(&mut self, found: &Vec<RemoteApp>, out: &mut Vec<Effect>)
        ensures
            ({
                let heard = ports_of(remote::models(found@));
                let apps = old(self)@.apps;
                let gone = maps::ordered_keys::<u16, AppWModel>(apps).filter(
                    |p: u16| !heard.contains(p),
                );
                &&& final(self)@ == (HostWModel { apps: apps.restrict(heard), ..old(self)@ })
                &&& maps::views(final(out)@) == maps::views(old(out)@) + match old(self)@.master {
                    MStateModel::Ready(m) => runs(cancels(apps, gone, m.r)),
                    _ => Seq::empty(),
                }
            }),
    {
        let ghost keep = ports_of(remote::models(found@));
        let ghost test = |p: u16| !keep.contains(p);
        let ghost start = self@;
        let keys = self.apps.keys();
        let ghost ks = maps::views(keys@);
        assert(ks =~= keys@);
        let mut gone: Vec<u16> = Vec::new();
        proof {
            reveal(Seq::filter);
            assert(ks.take(0) =~= Seq::<u16>::empty());
            assert(ks.take(0).filter(test) =~= Seq::<u16>::empty());
        }
        for i in 0..keys.len()
            invariant
                ks == keys@,
                keep == ports_of(remote::models(found@)),
                test == |p: u16| !keep.contains(p),
                gone@ == ks.take(i as int).filter(test),
        {
            let p: u16 = keys[i];
            proof {
                reveal(Seq::filter);
                assert(ks.take(i + 1).drop_last() =~= ks.take(i as int));
                assert(ks.take(i + 1).last() == p);
                assert(test(p) == !keep.contains(p));
            }
            if !heard(found, p) {
                gone.push(p);
            }
        }
        proof {
            assert(ks.take(ks.len() as int) =~= ks);
            maps::lemma_dropped(start.apps, ks, keep);
            assert forall|i: int| 0 <= i < gone@.len() implies self@.apps.contains_key(
                #[trigger] gone@[i],
            ) by {
                assert(gone@.contains(gone@[i]));
                ks.lemma_filter_contains_rev(test, gone@[i]);
                assert(ks.to_set().contains(gone@[i]));
            }
        }
        let ghost before = maps::views(out@);
        match &self.master {
            MState::Ready(m) => {
                let commands = cancels_of(&self.apps, &gone, &m.r);
                run_all(&commands, out);
            },
            _ => {
                assert(maps::views(out@) =~= before + Seq::<EffectModel>::empty());
            },
        }
        proof {
            assert(gone@.take(0).to_set() =~= Set::<u16>::empty());
            assert(start.apps.remove_keys(Set::<u16>::empty()) =~= start.apps);
        }
        for i in 0..gone.len()
            invariant
                self@ == (HostWModel {
                    apps: start.apps.remove_keys(gone@.take(i as int).to_set()),
                    ..start
                }),
        {
            let p: u16 = gone[i];
            let _app = self.apps.remove(&p);
            proof {
                assert(gone@.take(i + 1) =~= gone@.take(i as int).push(p));
                gone@.take(i as int).lemma_push_to_set_commute(p);
                assert(start.apps.remove_keys(gone@.take(i + 1).to_set())
                    =~= start.apps.remove_keys(gone@.take(i as int).to_set()).remove(p));
            }
        }
        assert(gone@.take(gone@.len() as int) =~= gone@);
    }

    /// Takes in the listing that a scan has brought.
    pub fn take_listing(
        &mut self,
        found: &Vec<RemoteApp>,
        memory: &State,
        now: u64,
        out: &mut Vec<Effect>,
    )
        ensures
            final(self)@ == old(self)@.scanned(remote::models(found@), memory@, now).0,
            maps::views(final(out)@) == maps::views(old(out)@) + old(self)@.scanned(
                remote::models(found@),
                memory@,
                now,
            ).1,
    {
        self.merge(found, memory);
        self.scanning = false;
        self.last_scan = Some(now);
        self.scan_err = None;
        self.drop_vanished(found, out);
    }

    /// Takes in that a scan has failed.
    pub fn take_failure(&mut self, err: String, now: u64, out: &mut Vec<Effect>)
        ensures
            final(self)@ == old(self)@.scan_failed(err@, now).0,
            maps::views(final(out)@) == maps::views(old(out)@) + old(self)@.scan_failed(
                err@,
                now,
            ).1,
    {
        self.scanning = false;
        self.last_scan = Some(now);
        self.scan_err = Some(err);
        let ghost before = maps::views(out@);
        match &self.master {
            MState::Ready(m) => {
                let e = Effect::CheckAlive { key: self.key.clone(), command: m.alive() };
                out.push(e);
                assert(maps::views(out@) =~= before + seq![e@]);
            },
            _ => {
                assert(maps::views(out@) =~= before + Seq::<EffectModel>::empty());
            },
        }
    }

    /// Takes in that the master is dead.
    pub fn lose(&mut self)
        ensures
            final(self)@ == old(self)@.lost(),
    {
        match &self.master {
            MState::Ready(_) => {
                self.master = MState::Failed { err: "connection lost".to_owned(), at: None };
                turn_off(&mut self.apps, false);
            },
            _ => {},
        }
    }

    /// Takes in how the way to a master has ended.
    pub fn take_master(
        &mut self,
        result: Result<Master, String>,
        now: u64,
        interval: u64,
        out: &mut Vec<Effect>,
    )
        ensures
            final(self)@ == old(self)@.mastered(master_result(result), now, interval).0,
            maps::views(final(out)@) == maps::views(old(out)@) + old(self)@.mastered(
                master_result(result),
                now,
                interval,
            ).1,
    {
        self.connect_inflight = false;
        match result {
            Ok(m) => {
                self.master = MState::Ready(m);
                self.scan_err = None;
                self.spawn_scan(true, now, interval, out);
            },
            Err(err) => {
                self.master = MState::Failed { err, at: Some(now) };
                assert(maps::views(out@) =~= maps::views(out@) + Seq::<EffectModel>::empty());
            },
        }
    }

    /// Cancels the live forwards and turns them off.
    pub fn pause(&mut self, out: &mut Vec<Effect>)
        ensures
            final(self)@ == (HostWModel {
                apps: turned_off(old(self)@.apps, true),
                ..old(self)@
            }),
            maps::views(final(out)@) == maps::views(old(out)@) + match old(self)@.master {
                MStateModel::Ready(m) => runs(
                    cancels(
                        old(self)@.apps,
                        maps::ordered_keys::<u16, AppWModel>(old(self)@.apps),
                        m.r,
                    ),
                ),
                _ => Seq::empty(),
            },
    {
        let ghost before = maps::views(out@);
        match &self.master {
            MState::Ready(m) => {
                let commands = self.cancel_all(&m.r);
                run_all(&commands, out);
            },
            _ => {
                assert(maps::views(out@) =~= before + Seq::<EffectModel>::empty());
            },
        }
        turn_off(&mut self.apps, true);
    }

    /// The commands that cancel all live forwards.
    fn cancel_all(&self, master: &MasterRef) -> (r: Vec<Invocation>)
        ensures
            maps::views(r@) == cancels(
                self@.apps,
                maps::ordered_keys::<u16, AppWModel>(self@.apps),
                master@,
            ),
    {
        let keys = self.apps.keys();
        assert(maps::views(keys@) =~= keys@);
        assert forall|i: int| 0 <= i < keys@.len() implies self@.apps.contains_key(
            #[trigger] keys@[i],
        ) by {
            assert(keys@.to_set().contains(keys@[i]));
        }
        cancels_of(&self.apps, &keys, master)
    }

    /// What ends all that was set up for the host.
    pub fn teardown_host(&self) -> (r: Option<Teardown>)
        ensures
            r is Some <==> self@.teardown() is Some,
            r matches Some(t) ==> self@.teardown() == Some(t@),
    {
        match &self.master {
            MState::Ready(m) => if m.external {
                Some(Teardown { cancels: self.cancel_all(&m.r), close: None })
            } else {
                let t = Teardown { cancels: Vec::new(), close: m.close() };
                assert(maps::views(t.cancels@) =~= Seq::<util::InvocationModel>::empty());
                Some(t)
            },
            _ => None,
        }
    }
}

/// The canonical identity of a host.
pub open spec fn identity(r: discover::ResolvedModel) -> Seq<char> {
    r.user + "@"@ + r.hostname + ":"@ + text::decimal(r.port as nat)
}

/// The forwards that the config gives to the user's sessions, added to those known.
pub open spec fn config_forwards(ext: Map<u16, u16>, fwds: Seq<(u16, u16)>) -> Map<u16, u16>
    decreases fwds.len(),
{
    if fwds.len() == 0 {
        ext
    } else {
        config_forwards(ext, fwds.drop_last()).insert(fwds.last().1, fwds.last().0)
    }
}

/// The forwards to the server itself that a session was started with, added to those known.
pub open spec fn session_forwards(ext: Map<u16, u16>, specs: Seq<Seq<char>>) -> Map<u16, u16>
    decreases specs.len(),
{
    if specs.len() == 0 {
        ext
    } else {
        let before = session_forwards(ext, specs.drop_last());
        match discover::l_spec(specs.last()) {
            Some((lp, host, rp)) => if discover::loopback_host(host) {
                before.insert(rp, lp)
            } else {
                before
            },
            None => before,
        }
    }
}

/// A host that is met for the first time.
pub open spec fn new_host(r: discover::ResolvedModel, conn: discover::ConnModel) -> HostWModel {
    HostWModel {
        key: identity(r),
        title: r.user + "@"@ + r.hostname,
        dest: conn.dest,
        extra: conn.extra,
        sshd_port: r.port,
        control_path: r.control_path,
        ext_forwards: Map::empty(),
        master: MStateModel::Connecting,
        connect_inflight: false,
        apps: Map::empty(),
        scanning: false,
        last_scan: None,
        scan_err: None,
        present: true,
    }
}

impl HostWModel {
    /// The host before the connections are counted anew.
    pub open spec fn unseen(self) -> HostWModel {
        HostWModel { present: false, ext_forwards: Map::empty(), ..self }
    }

    /// The host with one more connection to it.
    pub open spec fn sighted(self, r: discover::ResolvedModel, conn: discover::ConnModel) -> HostWModel {
        HostWModel {
            present: true,
            ext_forwards: session_forwards(
                config_forwards(self.ext_forwards, r.lforwards),
                conn.lforwards,
            ),
            ..self
        }
    }

    /// The host as it is shown: the destination that the user typed stands beside the title where
    /// it says something else.
    pub open spec fn shown(self, paused: bool) -> types::HostModel {
        let ports = maps::ordered_keys::<u16, AppWModel>(self.apps);
        types::HostModel {
            key: self.key,
            title: self.title,
            alias: if self.dest != self.title && !text::ends_with(self.title, self.dest) {
                Some(self.dest)
            } else {
                None
            },
            master: match self.master {
                MStateModel::Connecting => types::MasterModel::Connecting,
                MStateModel::Ready(m) => types::MasterModel::Ready { shared: m.external },
                MStateModel::Failed { err, .. } => types::MasterModel::Failed(err),
            },
            paused,
            scan_err: self.scan_err,
            scanned_once: self.last_scan is Some,
            apps: Seq::new(ports.len(), |i: int| self.apps[ports[i]].shown),
        }
    }
}

/// The canonical identity of a host.
pub fn identity_of(r: &Resolved) -> (key: String)
    ensures
        key@ == identity(r@),
{
    let mut key = r.user.clone();
    key.append("@");
    key.append(r.hostname.as_str());
    key.append(":");
    key.append(text::decimal_of(r.port as u64).as_str());
    key
}

impl HostW {
    /// A host that is met for the first time.
    pub fn new(r: &Resolved, conn: &LocalConn) -> (h: HostW)
        ensures
            h@ == new_host(r@, conn@),
    {
        let mut title = r.user.clone();
        title.append("@");
        title.append(r.hostname.as_str());
        HostW {
            key: identity_of(r),
            title,
            dest: conn.dest.clone(),
            extra: text::copy_strings(&conn.extra),
            sshd_port: r.port,
            control_path: types::copy_opt(&r.control_path),
            ext_forwards: SortedMap::new(),
            master: MState::Connecting,
            connect_inflight: false,
            apps: SortedMap::new(),
            scanning: false,
            last_scan: None,
            scan_err: None,
            present: true,
        }
    }

    /// Forgets which connections there are.
    pub fn unsee(&mut self)
        ensures
            final(self)@ == old(self)@.unseen(),
    {
        self.present = false;
        self.ext_forwards = SortedMap::new();
    }

    /// Takes in one more connection.
    pub fn sight(&mut self, r: &Resolved, conn: &LocalConn)
        ensures
            final(self)@ == old(self)@.sighted(r@, conn@),
    {
        let ghost start = self@;
        self.present = true;
        let ghost fwds = r.lforwards@;
        assert(fwds.take(0) =~= Seq::<(u16, u16)>::empty());
        for i in 0..r.lforwards.len()
            invariant
                fwds == r.lforwards@,
                self@ == (HostWModel {
                    present: true,
                    ext_forwards: config_forwards(start.ext_forwards, fwds.take(i as int)),
                    ..start
                }),
        {
            assert(fwds.take(i + 1).drop_last() =~= fwds.take(i as int));
            let (lp, rp): (u16, u16) = r.lforwards[i];
            self.ext_forwards.insert(rp, lp);
        }
        assert(fwds.take(fwds.len() as int) =~= fwds);
        let ghost base = config_forwards(start.ext_forwards, fwds);
        let ghost specs = text::string_texts(conn.lforwards@);
        assert(specs.take(0) =~= Seq::<Seq<char>>::empty());
        for i in 0..conn.lforwards.len()
            invariant
                specs == text::string_texts(conn.lforwards@),
                self@ == (HostWModel {
                    present: true,
                    ext_forwards: session_forwards(base, specs.take(i as int)),
                    ..start
                }),
        {
            assert(specs.take(i + 1).drop_last() =~= specs.take(i as int));
            assert(specs.take(i + 1).last() == conn.lforwards@[i as int]@);
            match discover::parse_l_spec(conn.lforwards[i].as_str()) {
                Some((lp, host, rp)) => {
                    if discover::is_loopback_host(host.as_str()) {
                        self.ext_forwards.insert(rp, lp);
                    }
                },
                None => {},
            }
        }
        assert(specs.take(specs.len() as int) =~= specs);
    }

    /// The host as it is shown.
    pub fn show(&self, paused: bool) -> (r: HostView)
        ensures
            r@ == self@.shown(paused),
    {
        let title = text::chars_of(self.title.as_str());
        let alias = if !text::same_text(self.dest.as_str(), self.title.as_str()) && !text::ends(
            title.as_slice(),
            self.dest.as_str(),
        ) {
            Some(self.dest.clone())
        } else {
            None
        };
        let master = match &self.master {
            MState::Connecting => MasterView::Connecting,
            MState::Ready(m) => MasterView::Ready { shared: m.external },
            MState::Failed { err, .. } => MasterView::Failed(err.clone()),
        };
        let mut apps: Vec<AppView> = Vec::new();
        let n: usize = self.apps.len();
        let ghost all = self@.shown(paused).apps;
        for i in 0..n
            invariant
                n == maps::ordered_keys::<u16, AppWModel>(self.apps@).len(),
                all == self@.shown(paused).apps,
                types::app_models(apps@) == all.take(i as int),
        {
            let ghost before = types::app_models(apps@);
            let a = self.apps.value_at(i).shown.clone();
            apps.push(a);
            assert(types::app_models(apps@) =~= before.push(a@));
            assert(all.take(i + 1) =~= before.push(a@));
        }
        assert(all.take(n as int) =~= all);
        HostView {
            key: self.key.clone(),
            title: self.title.clone(),
            alias,
            master,
            paused,
            scan_err: types::copy_opt(&self.scan_err),
            scanned_once: self.last_scan.is_some(),
            apps,
        }
    }
}

impl HostWModel {
    /// The host and the effects once it has been connected and a scan started, where that is due.
    pub open spec fn wake(self, now: u64, interval: u64) -> (
        HostWModel,
        Seq<EffectModel>,
    ) {
        let (h, effects) = self.connect(now);
        let (h2, more) = h.scan(false, now, interval);
        (h2, effects + more)
    }

    /// The host and the effects once it has been woken, or else scanned at once.
    pub open spec fn visited(self, waking: bool, now: u64, interval: u64) -> (
        HostWModel,
        Seq<EffectModel>,
    ) {
        if waking {
            self.wake(now, interval)
        } else {
            self.scan(true, now, interval)
        }
    }
}

/// The local ports that the live forwards of a host claim.
pub open spec fn claims(h: HostWModel) -> Set<u16> {
    Set::new(
        |p: u16|
            exists|rport: u16|
                h.apps.contains_key(rport) && live_port(#[trigger] h.apps[rport]) == Some(p),
    )
}

impl HostW {
    /// Adds the local ports that live forwards claim.
    pub fn claim(&self, out: &mut Vec<u16>)
        ensures
            final(out)@.to_set() == old(out)@.to_set().union(claims(self@)),
    {
        let ghost start = out@.to_set();
        let keys = self.apps.keys();
        let ghost ks = keys@;
        assert(maps::views(ks) =~= ks);
        for i in 0..keys.len()
            invariant
                ks == keys@,
                ks.to_set() == self@.apps.dom(),
                forall|p: u16| #[trigger]
                    out@.to_set().contains(p) <==> start.contains(p) || exists|j: int|
                        0 <= j < i && live_port(self@.apps[#[trigger] ks[j]]) == Some(p),
        {
            let k: u16 = keys[i];
            let ghost before = out@;
            assert(ks.to_set().contains(ks[i as int]));
            match self.apps.get(&k) {
                Some(app) => match (&app.shown.status, app.shown.lport) {
                    (FwdView::Active, Some(lp)) | (FwdView::Pending, Some(lp)) => {
                        out.push(lp);
                        proof {
                            before.lemma_push_to_set_commute(lp);
                            assert(live_port(self@.apps[ks[i as int]]) == Some(lp));
                        }
                    },
                    _ => {
                        assert(live_port(self@.apps[ks[i as int]]) is None);
                    },
                },
                None => {},
            }
            assert forall|p: u16| #[trigger] out@.to_set().contains(p) <==> start.contains(p)
                || exists|j: int|
                0 <= j < i + 1 && live_port(self@.apps[#[trigger] ks[j]]) == Some(p) by {
                assert(out@.to_set().contains(p) <==> before.to_set().contains(p)
                    || live_port(self@.apps[ks[i as int]]) == Some(p));
            }
        }
        assert forall|p: u16| #[trigger] out@.to_set().contains(p) <==> start.union(
            claims(self@),
        ).contains(p) by {
            if claims(self@).contains(p) {
                let rport = choose|rport: u16|
                    self@.apps.contains_key(rport) && live_port(#[trigger] self@.apps[rport])
                        == Some(p);
                assert(ks.to_set().contains(rport));
                let j = choose|j: int| 0 <= j < ks.len() && ks[j] == rport;
                assert(live_port(self@.apps[ks[j]]) == Some(p));
            }
            if out@.to_set().contains(p) && !start.contains(p) {
                let j = choose|j: int|
                    0 <= j < ks.len() && live_port(self@.apps[#[trigger] ks[j]]) == Some(p);
                assert(ks.to_set().contains(ks[j]));
                assert(claims(self@).contains(p));
            }
        }
        assert(out@.to_set() =~= start.union(claims(self@)));
    }
}

} // verus!
