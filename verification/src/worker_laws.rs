//! What holds of the worker whatever it is told.
use vstd::prelude::*;
use crate::control;
use crate::discover;
use crate::host;
use crate::laws;
use crate::maps;
use crate::ports;
use crate::remote;
use crate::state;
use crate::text;
use crate::types;
use crate::types::Tier;
use crate::util;
use crate::worker;
use crate::worker::Clock;

verus! {

/// What holds of every app of a host.
pub open spec fn app_ok(
    memory: state::StateModel,
    key: Seq<char>,
    rport: u16,
    app: host::AppWModel,
) -> bool {
    let entry = memory.entry(key, rport);
    let chosen = state::override_tier(entry.tier);
    // It stands under its own port.
    &&& app.shown.rport == rport
    // A forward, asked for here or found, has a local port.
    &&& host::live(app) || app.shown.status is External ==> app.shown.lport is Some
    // What the user said of it is remembered.
    &&& app.shown.muted == entry.muted
    &&& app.shown.comment == entry.comment
    &&& app.shown.overridden == (chosen is Some)
    &&& chosen is Some ==> app.shown.tier == chosen->0
    // Nothing is forwarded for a paused host.
    &&& memory.paused.contains(key) ==> !host::live(app)
}

/// What holds of every host.
pub open spec fn host_ok(memory: state::StateModel, key: Seq<char>, h: host::HostWModel) -> bool {
    &&& h.key == key
    &&& h.apps.dom().finite()
    // Only a host that has no master yet is being connected.
    &&& h.connect_inflight ==> h.master is Connecting
    &&& forall|rport: u16|
        h.apps.contains_key(rport) ==> app_ok(memory, key, rport, #[trigger] h.apps[rport])
}

/// What holds of the worker.
pub open spec fn worker_ok(w: worker::WorkerModel) -> bool {
    &&& w.hosts.dom().finite()
    &&& forall|key: Seq<char>|
        w.hosts.contains_key(key) ==> host_ok(w.memory, key, #[trigger] w.hosts[key])
}

/// Replacing one entry of the memory leaves all the others.
pub proof fn memory_frame(
    memory: state::StateModel,
    key: Seq<char>,
    rport: u16,
    a: state::AssignmentModel,
)
    ensures
        memory.with(key, rport, a).get(key, rport) == Some(a),
        memory.with(key, rport, a).paused == memory.paused,
        forall|k: Seq<char>, p: u16|
            (k, p) != (key, rport) ==> #[trigger] memory.with(key, rport, a).get(k, p)
                == memory.get(k, p),
{
}

/// An app that is fine stays so where the memory says the same of it.
proof fn lemma_same_memory(
    before: state::StateModel,
    after: state::StateModel,
    key: Seq<char>,
    h: host::HostWModel,
)
    requires
        host_ok(before, key, h),
        forall|p: u16| #[trigger] after.get(key, p) == before.get(key, p),
        after.paused.contains(key) ==> before.paused.contains(key),
    ensures
        host_ok(after, key, h),
{
    assert forall|rport: u16| h.apps.contains_key(rport) implies app_ok(
        after,
        key,
        rport,
        #[trigger] h.apps[rport],
    ) by {
        assert(app_ok(before, key, rport, h.apps[rport]));
        assert(after.get(key, rport) == before.get(key, rport));
    }
}

/// Replacing one host by one that is fine keeps the worker fine.
proof fn lemma_with_host(w: worker::WorkerModel, key: Seq<char>, h: host::HostWModel)
    requires
        worker_ok(w),
        host_ok(w.memory, key, h),
    ensures
        worker_ok(w.with_host(key, h)),
{
    let after = w.with_host(key, h);
    assert forall|k: Seq<char>| after.hosts.contains_key(k) implies host_ok(
        after.memory,
        k,
        #[trigger] after.hosts[k],
    ) by {
        if k != key {
            assert(host_ok(w.memory, k, w.hosts[k]));
        }
    }
}

/// Replacing one app and its entry of the memory, so that they agree, keeps the worker fine.
proof fn lemma_with_app(
    w: worker::WorkerModel,
    key: Seq<char>,
    rport: u16,
    app: host::AppWModel,
    memory: state::StateModel,
)
    requires
        worker_ok(w),
        w.has_app(key, rport),
        app_ok(memory, key, rport, app),
        memory.paused == w.memory.paused,
        forall|k: Seq<char>, p: u16|
            (k, p) != (key, rport) ==> #[trigger] memory.get(k, p) == w.memory.get(k, p),
    ensures
        worker_ok(worker::WorkerModel { memory, ..w.with_app(key, rport, app) }),
{
    let after = worker::WorkerModel { memory, ..w.with_app(key, rport, app) };
    assert(host_ok(w.memory, key, w.hosts[key]));
    assert forall|k: Seq<char>| after.hosts.contains_key(k) implies host_ok(
        memory,
        k,
        #[trigger] after.hosts[k],
    ) by {
        if k != key {
            assert(host_ok(w.memory, k, w.hosts[k]));
            lemma_same_memory(w.memory, memory, k, w.hosts[k]);
        } else {
            let h = after.hosts[k];
            assert forall|p: u16| h.apps.contains_key(p) implies app_ok(
                memory,
                k,
                p,
                #[trigger] h.apps[p],
            ) by {
                if p != rport {
                    assert(app_ok(w.memory, k, p, w.hosts[k].apps[p]));
                    assert(memory.get(k, p) == w.memory.get(k, p));
                }
            }
        }
    }
}

/// Taking in what a scan has found keeps the apps fine.
pub(crate) proof fn lemma_merged(
    memory: state::StateModel,
    key: Seq<char>,
    h: host::HostWModel,
    found: Seq<remote::RemoteModel>,
)
    requires
        host_ok(memory, key, h),
    ensures
        host_ok(memory, key, host::HostWModel { apps: h.merged(found, memory), ..h }),
    decreases found.len(),
{
    if found.len() > 0 {
        lemma_merged(memory, key, h, found.drop_last());
        let apps = h.merged(found.drop_last(), memory);
        let f = found.last();
        let app = h.met(apps, f, memory);
        if apps.contains_key(f.port) {
            let sofar = host::HostWModel { apps, ..h };
            assert(app_ok(memory, key, f.port, sofar.apps[f.port]));
        }
        assert(app_ok(memory, key, f.port, app));
        let after = host::HostWModel { apps: h.merged(found, memory), ..h };
        assert forall|p: u16| after.apps.contains_key(p) implies app_ok(
            memory,
            key,
            p,
            #[trigger] after.apps[p],
        ) by {
            if p != f.port {
                let sofar = host::HostWModel { apps, ..h };
                assert(app_ok(memory, key, p, sofar.apps[p]));
            }
        }
    }
}

/// Visiting hosts in a way that leaves their keys and apps, and starts no second connection, keeps
/// the worker fine.
proof fn lemma_visit(
    w: worker::WorkerModel,
    keys: Seq<Seq<char>>,
    f: spec_fn(host::HostWModel) -> (host::HostWModel, Seq<host::EffectModel>),
)
    requires
        worker_ok(w),
        forall|i: int| 0 <= i < keys.len() ==> w.hosts.contains_key(#[trigger] keys[i]),
        forall|h: host::HostWModel| (#[trigger] f(h)).0.apps == h.apps && f(h).0.key == h.key,
        forall|h: host::HostWModel|
            (#[trigger] f(h)).0.connect_inflight && (h.connect_inflight ==> h.master is Connecting)
                ==> f(h).0.master is Connecting,
    ensures
        worker_ok(w.visit(keys, f).0),
        w.visit(keys, f).0.memory == w.memory,
        w.visit(keys, f).0.hosts.dom() == w.hosts.dom(),
        forall|k: Seq<char>|
            w.hosts.contains_key(k) ==> (#[trigger] w.visit(keys, f).0.hosts[k]).apps
                == w.hosts[k].apps,
    decreases keys.len(),
{
    if keys.len() > 0 {
        lemma_visit(w, keys.drop_last(), f);
        let (before, _) = w.visit(keys.drop_last(), f);
        let k = keys.last();
        assert(w.hosts.contains_key(keys[keys.len() - 1]));
        let h = f(before.hosts[k]).0;
        assert(host_ok(before.memory, k, before.hosts[k]));
        assert(host_ok(before.memory, k, h)) by {
            assert forall|p: u16| h.apps.contains_key(p) implies app_ok(
                before.memory,
                k,
                p,
                #[trigger] h.apps[p],
            ) by {
                assert(app_ok(before.memory, k, p, before.hosts[k].apps[p]));
            }
        }
        lemma_with_host(before, k, h);
        assert(before.hosts.insert(k, h).dom() =~= w.hosts.dom());
    }
}

/// The keys of the hosts are those of the listing.
pub(crate) proof fn lemma_keys(w: worker::WorkerModel)
    requires
        w.hosts.dom().finite(),
    ensures
        forall|i: int| 0 <= i < w.keys().len() ==> w.hosts.contains_key(#[trigger] w.keys()[i]),
        forall|k: Seq<char>| w.hosts.contains_key(k) ==> #[trigger] w.keys().contains(k),
{
    maps::lemma_ordered_keys::<String, host::HostWModel>(w.hosts);
    let keys = w.keys();
    assert forall|i: int| 0 <= i < keys.len() implies w.hosts.contains_key(#[trigger] keys[i]) by {
        assert(keys.to_set().contains(keys[i]));
    }
    assert forall|k: Seq<char>| w.hosts.contains_key(k) implies #[trigger] keys.contains(k) by {
        assert(keys.to_set().contains(k));
    }
}

proof fn lemma_turned_off(
    before: state::StateModel,
    after: state::StateModel,
    key: Seq<char>,
    h: host::HostWModel,
    only_live: bool,
)
    requires
        host_ok(before, key, h),
        forall|p: u16| #[trigger] after.get(key, p) == before.get(key, p),
    ensures
        host_ok(
            after,
            key,
            host::HostWModel { apps: host::turned_off(h.apps, only_live), ..h },
        ),
{
    let h2 = host::HostWModel { apps: host::turned_off(h.apps, only_live), ..h };
    assert(h2.apps.dom() =~= h.apps.dom());
    assert forall|p: u16| h2.apps.contains_key(p) implies app_ok(
        after,
        key,
        p,
        #[trigger] h2.apps[p],
    ) by {
        assert(app_ok(before, key, p, h.apps[p]));
        assert(after.get(key, p) == before.get(key, p));
    }
}

proof fn lemma_absorbed(
    w: worker::WorkerModel,
    hosts: Map<Seq<char>, host::HostWModel>,
    conns: Seq<discover::ConnModel>,
)
    requires
        worker_ok(worker::WorkerModel { hosts, ..w }),
    ensures
        worker_ok(
            worker::WorkerModel { hosts: worker::all_absorbed(hosts, w.answers, conns), ..w },
        ),
    decreases conns.len(),
{
    if conns.len() > 0 {
        lemma_absorbed(w, hosts, conns.drop_last());
        let before = worker::WorkerModel {
            hosts: worker::all_absorbed(hosts, w.answers, conns.drop_last()),
            ..w
        };
        let conn = conns.last();
        match host::lookup(w.answers, conn.key()) {
            Some(Some(r)) => {
                let key = host::identity(r);
                let h = if before.hosts.contains_key(key) {
                    before.hosts[key]
                } else {
                    host::new_host(r, conn)
                };
                if before.hosts.contains_key(key) {
                    assert(host_ok(w.memory, key, before.hosts[key]));
                }
                let h2 = h.sighted(r, conn);
                assert forall|p: u16| h2.apps.contains_key(p) implies app_ok(
                    w.memory,
                    key,
                    p,
                    #[trigger] h2.apps[p],
                ) by {
                    assert(app_ok(w.memory, key, p, before.hosts[key].apps[p]));
                }
                lemma_with_host(before, key, h2);
            },
            _ => {},
        }
    }
}

/// The worker with only those hosts that there are connections to.
pub open spec fn kept(w: worker::WorkerModel) -> worker::WorkerModel {
    worker::WorkerModel { hosts: w.hosts.restrict(worker::present(w.hosts)), ..w }
}

/// Counting the connections, and forgetting the hosts without one, keeps the worker fine.
pub(crate) proof fn lemma_kept(w: worker::WorkerModel, conns: Seq<discover::ConnModel>)
    requires
        worker_ok(w),
    ensures
        worker_ok(w.counted(conns)),
        worker_ok(kept(w.counted(conns))),
        kept(w.counted(conns)).hosts.dom() == worker::present(w.counted(conns).hosts),
{
    let unseen = w.hosts.map_values(|h: host::HostWModel| h.unseen());
    let w1 = worker::WorkerModel { hosts: unseen, ..w };
    assert(unseen.dom() =~= w.hosts.dom());
    assert forall|k: Seq<char>| w1.hosts.contains_key(k) implies host_ok(
        w1.memory,
        k,
        #[trigger] w1.hosts[k],
    ) by {
        assert(host_ok(w.memory, k, w.hosts[k]));
        let h = w1.hosts[k];
        assert forall|p: u16| h.apps.contains_key(p) implies app_ok(
            w.memory,
            k,
            p,
            #[trigger] h.apps[p],
        ) by {
            assert(app_ok(w.memory, k, p, w.hosts[k].apps[p]));
        }
    }
    lemma_absorbed(w, unseen, conns);
    let counted = w.counted(conns);
    assert(worker_ok(counted));
    let left = kept(counted);
    assert(left.hosts.dom() =~= worker::present(counted.hosts));
    assert(left.hosts.dom() =~= counted.hosts.dom().intersect(worker::present(counted.hosts)));
    assert forall|k: Seq<char>| left.hosts.contains_key(k) implies host_ok(
        left.memory,
        k,
        #[trigger] left.hosts[k],
    ) by {
        assert(host_ok(counted.memory, k, counted.hosts[k]));
    }
}

proof fn lemma_tick(w: worker::WorkerModel, conns: Seq<discover::ConnModel>, now: u64)
    requires
        worker_ok(w),
    ensures
        worker_ok(w.tick(conns, now).0),
{
    lemma_kept(w, conns);
    let left = kept(w.counted(conns));
    lemma_keys(left);
    let interval = w.interval;
    lemma_visit(left, left.keys(), |h: host::HostWModel| h.wake(now, interval));
}

proof fn lemma_commands(w: worker::WorkerModel, cmd: types::CmdModel, clock: Clock)
    requires
        worker_ok(w),
        !(cmd is Assign),
    ensures
        worker_ok(w.command(cmd, clock).0),
{
    match cmd {
        types::CmdModel::Toggle { host, rport } => {
            if w.has_app(host, rport) {
                assert(host_ok(w.memory, host, w.hosts[host]));
                assert(app_ok(w.memory, host, rport, w.hosts[host].apps[rport]));
                let after = w.toggle(host, rport, clock.unix).0;
                if after != w {
                    let app = after.hosts[host].apps[rport];
                    lemma_with_app(w, host, rport, app, after.memory);
                    assert(after == (worker::WorkerModel {
                        memory: after.memory,
                        ..w.with_app(host, rport, app)
                    }));
                }
            }
        },
        types::CmdModel::SetComment { host, rport, text } => {
            if w.has_app(host, rport) {
                assert(host_ok(w.memory, host, w.hosts[host]));
                assert(app_ok(w.memory, host, rport, w.hosts[host].apps[rport]));
                let after = w.set_comment(host, rport, text, clock.unix).0;
                let app = after.hosts[host].apps[rport];
                lemma_with_app(w, host, rport, app, after.memory);
            }
        },
        types::CmdModel::ToggleHidden { host, rport } => {
            if w.has_app(host, rport) {
                assert(host_ok(w.memory, host, w.hosts[host]));
                assert(app_ok(w.memory, host, rport, w.hosts[host].apps[rport]));
                let after = w.toggle_hidden(host, rport, clock.unix).0;
                let app = after.hosts[host].apps[rport];
                assert("app"@ != "bg"@) by {
                    reveal_strlit("app");
                    reveal_strlit("bg");
                    assert("app"@.len() != "bg"@.len());
                }
                lemma_with_app(w, host, rport, app, after.memory);
            }
        },
        types::CmdModel::ToggleHost { host } => {
            if w.hosts.contains_key(host) {
                let after = w.toggle_host(host).0;
                assert(host_ok(w.memory, host, w.hosts[host]));
                assert(after.hosts.dom() =~= w.hosts.dom());
                assert forall|k: Seq<char>| after.hosts.contains_key(k) implies host_ok(
                    after.memory,
                    k,
                    #[trigger] after.hosts[k],
                ) by {
                    assert(host_ok(w.memory, k, w.hosts[k]));
                    if k == host && !w.memory.paused.contains(host) {
                        lemma_turned_off(w.memory, after.memory, host, w.hosts[host], true);
                    } else {
                        lemma_same_memory(w.memory, after.memory, k, w.hosts[k]);
                    }
                }
            }
        },
        types::CmdModel::Refresh => {
            let interval = w.interval;
            let now = clock.mono;
            lemma_keys(w);
            lemma_visit(w, w.keys(), |h: host::HostWModel| h.scan(true, now, interval));
        },
        types::CmdModel::ToggleAuto => {
            let after = w.toggle_auto().0;
            assert forall|k: Seq<char>| after.hosts.contains_key(k) implies host_ok(
                after.memory,
                k,
                #[trigger] after.hosts[k],
            ) by {
                assert(host_ok(w.memory, k, w.hosts[k]));
            }
        },
        _ => {},
    }
}

proof fn lemma_assign(
    w: worker::WorkerModel,
    key: Seq<char>,
    rport: u16,
    lport: u16,
    user: Option<Option<Seq<char>>>,
    unix: u64,
)
    requires
        worker_ok(w),
    ensures
        worker_ok(w.assign(key, rport, lport, user, unix).0),
{
    let after = w.assign(key, rport, lport, user, unix).0;
    if after != w {
        assert(w.has_app(key, rport));
        assert(host_ok(w.memory, key, w.hosts[key]));
        assert(app_ok(w.memory, key, rport, w.hosts[key].apps[rport]));
        let app = after.hosts[key].apps[rport];
        lemma_with_app(w, key, rport, app, after.memory);
        assert(after == (worker::WorkerModel {
            memory: after.memory,
            ..w.with_app(key, rport, app)
        }));
    }
}

proof fn lemma_fwd_done(
    w: worker::WorkerModel,
    key: Seq<char>,
    rport: u16,
    lport: u16,
    pin: bool,
    result: Result<(), Seq<char>>,
    unix: u64,
)
    requires
        worker_ok(w),
    ensures
        worker_ok(w.fwd_done(key, rport, lport, pin, result, unix).0),
{
    let after = w.fwd_done(key, rport, lport, pin, result, unix).0;
    if after != w {
        assert(w.has_app(key, rport));
        assert(host_ok(w.memory, key, w.hosts[key]));
        assert(app_ok(w.memory, key, rport, w.hosts[key].apps[rport]));
        let app = after.hosts[key].apps[rport];
        lemma_with_app(w, key, rport, app, after.memory);
        assert(after == (worker::WorkerModel {
            memory: after.memory,
            ..w.with_app(key, rport, app)
        }));
    }
}

proof fn lemma_scan_done(
    w: worker::WorkerModel,
    key: Seq<char>,
    result: Result<Seq<remote::RemoteModel>, Seq<char>>,
    now: u64,
)
    requires
        worker_ok(w),
    ensures
        worker_ok(w.scan_done(key, result, now).0),
{
    if w.hosts.contains_key(key) {
        let h = w.hosts[key];
        assert(host_ok(w.memory, key, h));
        match result {
            Ok(found) => {
                let h2 = h.scanned(found, w.memory, now).0;
                lemma_merged(w.memory, key, h, found);
                let all = host::HostWModel { apps: h.merged(found, w.memory), ..h };
                assert(h2.apps.dom() =~= all.apps.dom().intersect(host::ports_of(found)));
                assert forall|p: u16| h2.apps.contains_key(p) implies app_ok(
                    w.memory,
                    key,
                    p,
                    #[trigger] h2.apps[p],
                ) by {
                    assert(app_ok(w.memory, key, p, all.apps[p]));
                }
                lemma_with_host(w, key, h2);
            },
            Err(err) => {
                let h2 = h.scan_failed(err, now).0;
                assert forall|p: u16| h2.apps.contains_key(p) implies app_ok(
                    w.memory,
                    key,
                    p,
                    #[trigger] h2.apps[p],
                ) by {
                    assert(app_ok(w.memory, key, p, h.apps[p]));
                }
                lemma_with_host(w, key, h2);
            },
        }
    }
}

/// Every message keeps the worker fine: each app stands under its own port, a forward has a local
/// port, what the user said of an app agrees with the memory, nothing is forwarded for a paused host,
/// and only a host without a master is being connected.
pub proof fn step_keeps_worker_ok(w: worker::WorkerModel, msg: worker::WMsgModel, clock: Clock)
    requires
        worker_ok(w),
    ensures
        worker_ok(w.step(msg, clock).0),
{
    match msg {
        worker::WMsgModel::Cmd(cmd) => match cmd {
            types::CmdModel::Assign { host, rport, lport } => {
                lemma_assign(w, host, rport, lport, None, clock.unix);
            },
            _ => {
                lemma_commands(w, cmd, clock);
            },
        },
        worker::WMsgModel::Learned { key, result } => {
            let after = w.learned(key, result);
            assert forall|k: Seq<char>| after.hosts.contains_key(k) implies host_ok(
                after.memory,
                k,
                #[trigger] after.hosts[k],
            ) by {
                assert(host_ok(w.memory, k, w.hosts[k]));
            }
        },
        worker::WMsgModel::Tick { conns } => {
            lemma_tick(w, conns, clock.mono);
        },
        worker::WMsgModel::MasterDone { key, result } => {
            if w.hosts.contains_key(key) {
                let h = w.hosts[key];
                let h2 = h.mastered(result, clock.mono, w.interval).0;
                assert(host_ok(w.memory, key, h));
                assert(h2.apps == h.apps);
                assert forall|p: u16| h2.apps.contains_key(p) implies app_ok(
                    w.memory,
                    key,
                    p,
                    #[trigger] h2.apps[p],
                ) by {
                    assert(app_ok(w.memory, key, p, h.apps[p]));
                }
                lemma_with_host(w, key, h2);
            }
        },
        worker::WMsgModel::ScanDone { key, result } => {
            lemma_scan_done(w, key, result, clock.mono);
        },
        worker::WMsgModel::AliveChecked { key, alive } => {
            if w.hosts.contains_key(key) && !alive && w.hosts[key].master is Ready {
                let h = w.hosts[key];
                assert(host_ok(w.memory, key, h));
                lemma_turned_off(w.memory, w.memory, key, h, false);
                let off = host::HostWModel { apps: host::turned_off(h.apps, false), ..h };
                let h2 = h.lost();
                assert forall|p: u16| h2.apps.contains_key(p) implies app_ok(
                    w.memory,
                    key,
                    p,
                    #[trigger] h2.apps[p],
                ) by {
                    assert(app_ok(w.memory, key, p, off.apps[p]));
                }
                lemma_with_host(w, key, h2);
            } else if w.hosts.contains_key(key) && !alive {
                assert(w.hosts.insert(key, w.hosts[key]) =~= w.hosts);
            }
        },
        worker::WMsgModel::Picked { key, rport, free, ephemeral } => {
            let after = w.start_forward(key, rport, free, ephemeral).0;
            if after != w {
                assert(host_ok(w.memory, key, w.hosts[key]));
                assert(app_ok(w.memory, key, rport, w.hosts[key].apps[rport]));
                let app = after.hosts[key].apps[rport];
                lemma_with_app(w, key, rport, app, w.memory);
                assert(after == (worker::WorkerModel {
                    memory: w.memory,
                    ..w.with_app(key, rport, app)
                }));
            }
        },
        worker::WMsgModel::PortChecked { key, rport, lport, user } => {
            lemma_assign(w, key, rport, lport, Some(user), clock.unix);
        },
        worker::WMsgModel::FwdDone { key, rport, lport, pin, result } => {
            lemma_fwd_done(w, key, rport, lport, pin, result, clock.unix);
        },
    }
}

/// A worker that knows no host yet is fine.
pub proof fn new_worker_ok(w: worker::WorkerModel)
    requires
        w.hosts == Map::<Seq<char>, host::HostWModel>::empty(),
    ensures
        worker_ok(w),
{
}

/// Each request for a port that goes out for the apps of a host is for one that is eligible.
proof fn lemma_picks(w: worker::WorkerModel, key: Seq<char>, rports: Seq<u16>, i: int)
    requires
        0 <= i < w.picks(key, rports).len(),
        forall|j: int| 0 <= j < rports.len() ==> w.has_app(key, #[trigger] rports[j]),
    ensures
        w.picks(key, rports)[i] matches host::EffectModel::PickPort { key: k, rport, .. } && k
            == key && w.has_app(key, rport) && worker::eligible(w.hosts[key].apps[rport]),
    decreases rports.len(),
{
    if rports.len() > 0 {
        assert(w.has_app(key, rports[rports.len() - 1]));
        if i < w.picks(key, rports.drop_last()).len() {
            lemma_picks(w, key, rports.drop_last(), i);
        }
    }
}

proof fn lemma_auto_picks(w: worker::WorkerModel, key: Seq<char>, i: int)
    requires
        worker_ok(w),
        0 <= i < w.auto_picks(key).len(),
    ensures
        w.auto_picks(key)[i] matches host::EffectModel::PickPort { key: k, rport, .. } && auto_ok(
            w,
            k,
            rport,
        ),
{
    let h = w.hosts[key];
    assert(host_ok(w.memory, key, h));
    let rports = maps::ordered_keys::<u16, host::AppWModel>(h.apps);
    maps::lemma_ordered_keys::<u16, host::AppWModel>(h.apps);
    assert forall|j: int| 0 <= j < rports.len() implies w.has_app(key, #[trigger] rports[j]) by {
        assert(rports.to_set().contains(rports[j]));
    }
    lemma_picks(w, key, rports, i);
}

proof fn lemma_all_picks(w: worker::WorkerModel, keys: Seq<Seq<char>>, i: int)
    requires
        worker_ok(w),
        0 <= i < w.all_picks(keys).len(),
    ensures
        w.all_picks(keys)[i] matches host::EffectModel::PickPort { key: k, rport, .. } && auto_ok(
            w,
            k,
            rport,
        ),
    decreases keys.len(),
{
    if keys.len() > 0 {
        let n = w.all_picks(keys.drop_last()).len();
        if i < n {
            lemma_all_picks(w, keys.drop_last(), i);
        } else {
            lemma_auto_picks(w, keys.last(), i - n);
        }
    }
}

/// An app may be forwarded without being asked for.
pub open spec fn auto_ok(w: worker::WorkerModel, key: Seq<char>, rport: u16) -> bool {
    &&& w.auto
    &&& w.open(key)
    &&& w.has_app(key, rport)
    &&& worker::eligible(w.hosts[key].apps[rport])
}

/// An effect that neither picks a port nor starts a forward.
pub open spec fn is_quiet(e: host::EffectModel) -> bool {
    !(e is PickPort) && !(e is Forward)
}

/// Visiting hosts in a quiet way is quiet.
proof fn lemma_quiet_visit(
    w: worker::WorkerModel,
    keys: Seq<Seq<char>>,
    f: spec_fn(host::HostWModel) -> (host::HostWModel, Seq<host::EffectModel>),
    i: int,
)
    requires
        forall|h: host::HostWModel, j: int|
            0 <= j < f(h).1.len() ==> is_quiet(#[trigger] f(h).1[j]),
        0 <= i < w.visit(keys, f).1.len(),
    ensures
        is_quiet(w.visit(keys, f).1[i]),
    decreases keys.len(),
{
    if keys.len() > 0 {
        let (before, effects) = w.visit(keys.drop_last(), f);
        if i < effects.len() {
            lemma_quiet_visit(w, keys.drop_last(), f, i);
        } else {
            let h = before.hosts[keys.last()];
            assert(is_quiet(f(h).1[i - effects.len()]));
        }
    }
}

/// A look at the connections asks for no port and no forward.
proof fn lemma_quiet_tick(
    w: worker::WorkerModel,
    conns: Seq<discover::ConnModel>,
    now: u64,
    i: int,
)
    requires
        0 <= i < w.tick(conns, now).1.len(),
    ensures
        is_quiet(w.tick(conns, now).1[i]),
{
    let counted = w.counted(conns);
    let left = kept(counted);
    let interval = w.interval;
    let f = |h: host::HostWModel| h.wake(now, interval);
    let torn = worker::tear_effects(worker::tears(counted.hosts, counted.vanished()));
    if i >= torn.len() {
        lemma_quiet_visit(left, left.keys(), f, i - torn.len());
    }
}

/// Nor does a scan of every host.
proof fn lemma_quiet_refresh(w: worker::WorkerModel, now: u64, i: int)
    requires
        0 <= i < w.refresh(now).1.len(),
    ensures
        is_quiet(w.refresh(now).1[i]),
{
    let interval = w.interval;
    lemma_quiet_visit(w, w.keys(), |h: host::HostWModel| h.scan(true, now, interval), i);
}

/// Without being asked for, only a real app is forwarded: one that is not hidden, not turned off by
/// the user and idle, while auto-forwarding is on and its host is connected and not paused.
pub proof fn auto_forwards_only_eligible_apps(
    w: worker::WorkerModel,
    msg: worker::WMsgModel,
    clock: Clock,
    i: int,
)
    requires
        worker_ok(w),
        !(msg matches worker::WMsgModel::Cmd(cmd) && cmd is Toggle),
        0 <= i < w.step(msg, clock).1.len(),
    ensures
        w.step(msg, clock).1[i] matches host::EffectModel::PickPort { key, rport, .. } ==> auto_ok(
            w.step(msg, clock).0,
            key,
            rport,
        ),
{
    let (after, effects) = w.step(msg, clock);
    step_keeps_worker_ok(w, msg, clock);
    match msg {
        worker::WMsgModel::Cmd(cmd) => match cmd {
            types::CmdModel::ToggleHidden { host, rport } => {
                if i > 0 {
                    assert(effects[i] == after.auto_picks(host)[i - 1]);
                    lemma_auto_picks(after, host, i - 1);
                }
            },
            types::CmdModel::ToggleHost { host } => {
                if i > 0 && w.memory.paused.contains(host) {
                    assert(effects[i] == after.auto_picks(host)[i - 1]);
                    lemma_auto_picks(after, host, i - 1);
                }
            },
            types::CmdModel::Refresh => {
                lemma_quiet_refresh(w, clock.mono, i);
            },
            types::CmdModel::ToggleAuto => {
                if i > 0 {
                    assert(effects[i] == after.all_picks(after.keys())[i - 1]);
                    lemma_all_picks(after, after.keys(), i - 1);
                }
            },
            types::CmdModel::Assign { host, rport, lport } => {},
            _ => {},
        },
        worker::WMsgModel::Tick { conns } => {
            lemma_quiet_tick(w, conns, clock.mono, i);
        },
        worker::WMsgModel::ScanDone { key, result } => {
            if w.hosts.contains_key(key) {
                match result {
                    Ok(found) => {
                        let n = w.hosts[key].scanned(found, w.memory, clock.mono).1.len();
                        if i >= n {
                            assert(effects[i] == after.auto_picks(key)[i - n]);
                            lemma_auto_picks(after, key, i - n);
                        }
                    },
                    Err(err) => {},
                }
            }
        },
        worker::WMsgModel::FwdDone { key, rport, lport, pin, result } => {
            if effects[i] is PickPort {
                lemma_auto_picks(after, key, i);
            }
        },
        _ => {},
    }
}

/// A forward is asked for only on a connected host that is not paused, with the command for exactly
/// the port pair that its app then waits for.
#[verifier::rlimit(40)]
pub proof fn forwards_are_pending(
    w: worker::WorkerModel,
    msg: worker::WMsgModel,
    clock: Clock,
    i: int,
)
    requires
        worker_ok(w),
        0 <= i < w.step(msg, clock).1.len(),
    ensures
        w.step(msg, clock).1[i] matches host::EffectModel::Forward {
            key,
            rport,
            lport,
            pin,
            first,
            command,
        } ==> {
            let after = w.step(msg, clock).0;
            &&& after.open(key)
            &&& after.has_app(key, rport)
            &&& after.hosts[key].apps[rport].shown.status is Pending
            &&& after.hosts[key].apps[rport].shown.lport == Some(lport)
            &&& command == after.hosts[key].master->Ready_0.r.mux("forward"@, lport, rport)
        },
{
    let (after, effects) = w.step(msg, clock);
    step_keeps_worker_ok(w, msg, clock);
    match msg {
        worker::WMsgModel::Cmd(cmd) => match cmd {
            types::CmdModel::ToggleHidden { host, rport } => {
                if i > 0 {
                    assert(effects[i] == after.auto_picks(host)[i - 1]);
                    lemma_auto_picks(after, host, i - 1);
                }
            },
            types::CmdModel::ToggleHost { host } => {
                if i > 0 && w.memory.paused.contains(host) {
                    assert(effects[i] == after.auto_picks(host)[i - 1]);
                    lemma_auto_picks(after, host, i - 1);
                }
            },
            types::CmdModel::Refresh => {
                lemma_quiet_refresh(w, clock.mono, i);
            },
            types::CmdModel::ToggleAuto => {
                if i > 0 {
                    assert(effects[i] == after.all_picks(after.keys())[i - 1]);
                    lemma_all_picks(after, after.keys(), i - 1);
                }
            },
            _ => {},
        },
        worker::WMsgModel::Tick { conns } => {
            lemma_quiet_tick(w, conns, clock.mono, i);
        },
        worker::WMsgModel::ScanDone { key, result } => {
            if w.hosts.contains_key(key) {
                match result {
                    Ok(found) => {
                        let n = w.hosts[key].scanned(found, w.memory, clock.mono).1.len();
                        if i >= n {
                            assert(effects[i] == after.auto_picks(key)[i - n]);
                            lemma_auto_picks(after, key, i - n);
                        }
                    },
                    Err(err) => {},
                }
            }
        },
        worker::WMsgModel::FwdDone { key, rport, lport, pin, result } => {
            if effects[i] is Forward {
                lemma_auto_picks(after, key, i);
            }
        },
        _ => {},
    }
}

/// A forward that came to stand is remembered with its port, and the memory is saved; everything
/// else that is remembered stays.
pub proof fn success_is_remembered(
    w: worker::WorkerModel,
    key: Seq<char>,
    rport: u16,
    lport: u16,
    pin: bool,
    unix: u64,
)
    requires
        w.has_app(key, rport),
        w.hosts[key].apps[rport].shown.lport == Some(lport),
        !w.memory.paused.contains(key),
    ensures
        ({
            let (after, effects) = w.fwd_done(key, rport, lport, pin, Ok(()), unix);
            let a = after.memory.get(key, rport);
            &&& a is Some
            &&& a->0.local_port == Some(lport)
            &&& a->0.pinned == pin
            &&& after.hosts[key].apps[rport].shown.status is Active
            &&& effects == seq![host::EffectModel::Save]
            &&& forall|k: Seq<char>, p: u16|
                (k, p) != (key, rport) ==> #[trigger] after.memory.get(k, p) == w.memory.get(k, p)
        }),
{
    let after = w.fwd_done(key, rport, lport, pin, Ok(()), unix).0;
    memory_frame(w.memory, key, rport, after.memory.entry(key, rport));
}

/// Where a remembered port is free, not claimed and not privileged, an idle app gets it again, on
/// whatever run: the forward is requested on the remembered port.
pub proof fn remembered_port_is_reused(
    w: worker::WorkerModel,
    key: Seq<char>,
    rport: u16,
    free: Seq<u16>,
    ephemeral: Option<u16>,
    lport: u16,
)
    requires
        w.open(key),
        w.has_app(key, rport),
        w.hosts[key].apps[rport].shown.status is Off,
        !w.hosts[key].apps[rport].shown.muted,
        w.hosts[key].apps[rport].shown.lport is None,
        w.memory.entry(key, rport).local_port == Some(lport),
        lport >= 1024,
        !worker::claimed(w.hosts).contains(lport),
        free.contains(lport),
    ensures
        w.pick(key, rport) matches host::EffectModel::PickPort { tries, .. } && tries.len() > 0
            && tries[0] == lport,
        w.start_forward(key, rport, free, ephemeral).1 == seq![
            host::EffectModel::Forward {
                key,
                rport,
                lport,
                pin: w.hosts[key].apps[rport].shown.pinned,
                first: None,
                command: w.hosts[key].master->Ready_0.r.mux("forward"@, lport, rport),
            },
        ],
{
    let prefs = w.prefs(key, rport);
    let taken = worker::claimed(w.hosts);
    assert(prefs =~= seq![lport, rport]);
    assert(prefs.drop_last() =~= seq![lport]);
    assert(seq![lport].drop_last() =~= Seq::<u16>::empty());
    assert(ports::candidates(Seq::<u16>::empty(), taken) =~= Seq::<u16>::empty());
    assert(ports::candidates(seq![lport], taken) =~= seq![lport]);
    assert(ports::candidates(prefs, taken)[0] == lport);
    assert(prefs[0] == lport);
    assert(ports::picked(prefs, taken, free, ephemeral) == Some(lport));
}

/// The local port of an app is the same on the next run: what a forward that came to stand left in
/// the memory is what a later worker with that memory asks for, where the port can be had.
pub proof fn ports_come_back_on_the_next_run(
    w: worker::WorkerModel,
    key: Seq<char>,
    rport: u16,
    lport: u16,
    pin: bool,
    unix: u64,
    later: worker::WorkerModel,
    free: Seq<u16>,
    ephemeral: Option<u16>,
)
    requires
        w.has_app(key, rport),
        w.hosts[key].apps[rport].shown.lport == Some(lport),
        !w.memory.paused.contains(key),
        later.memory == w.fwd_done(key, rport, lport, pin, Ok(()), unix).0.memory,
        later.open(key),
        later.has_app(key, rport),
        later.hosts[key].apps[rport].shown.status is Off,
        later.hosts[key].apps[rport].shown.lport is None,
        !later.hosts[key].apps[rport].shown.muted,
        lport >= 1024,
        !worker::claimed(later.hosts).contains(lport),
        free.contains(lport),
    ensures
        ({
            let effects = later.start_forward(key, rport, free, ephemeral).1;
            effects.len() == 1 && (effects[0] matches host::EffectModel::Forward {
                key: k,
                rport: r,
                lport: l,
                ..
            } && k == key && r == rport && l == lport)
        }),
{
    success_is_remembered(w, key, rport, lport, pin, unix);
    remembered_port_is_reused(later, key, rport, free, ephemeral, lport);
}

/// A port that cannot be used is refused: nothing changes, and the user is told exactly why.
pub proof fn refused_assignment_changes_nothing(
    w: worker::WorkerModel,
    key: Seq<char>,
    rport: u16,
    lport: u16,
    who: Seq<char>,
    unix: u64,
)
    requires
        w.open(key),
        w.has_app(key, rport),
        !(w.hosts[key].apps[rport].shown.status is External),
        host::live_port(w.hosts[key].apps[rport]) != Some(lport),
    ensures
        worker::claimed(w.hosts).contains(lport) ==> w.assign(key, rport, lport, None, unix) == (
            w,
            seq![
                host::toast(worker::cannot_use(lport, "already forwarding another app on it"@)),
            ],
        ),
        !worker::claimed(w.hosts).contains(lport) ==> w.assign(
            key,
            rport,
            lport,
            Some(Some(who)),
            unix,
        ) == (w, seq![host::toast(worker::cannot_use(lport, who))]),
{
}

/// A port that is assigned by hand becomes pinned, and success remembers it as pinned.
pub proof fn assignment_pins(
    w: worker::WorkerModel,
    key: Seq<char>,
    rport: u16,
    lport: u16,
    unix: u64,
)
    requires
        w.open(key),
        w.has_app(key, rport),
        !(w.hosts[key].apps[rport].shown.status is External),
        !(w.hosts[key].apps[rport].shown.status is Active
            && w.hosts[key].apps[rport].shown.lport == Some(lport)),
        !worker::claimed(w.hosts).contains(lport),
    ensures
        ({
            let (after, effects) = w.assign(key, rport, lport, Some(None), unix);
            let done = after.fwd_done(key, rport, lport, true, Ok(()), unix).0;
            &&& after.hosts[key].apps[rport].shown.pinned
            &&& !after.hosts[key].apps[rport].shown.muted
            &&& effects.len() > 0
            &&& effects.last() matches host::EffectModel::Forward { lport: l, pin, .. } && l == lport
                && pin
            &&& done.hosts[key].apps[rport].shown.status is Active
            &&& done.memory.entry(key, rport).pinned
            &&& done.memory.entry(key, rport).local_port == Some(lport)
            &&& !done.memory.entry(key, rport).muted
        }),
{
    let after = w.assign(key, rport, lport, Some(None), unix).0;
    if host::live_port(w.hosts[key].apps[rport]) == Some(lport) {
        let h = w.hosts[key];
        assert(host::live_port(h.apps[rport]) == Some(lport));
        assert(host::claims(h).contains(lport));
        assert(worker::claimed(w.hosts).contains(lport));
    }
    assert(after.hosts[key].apps[rport].shown.lport == Some(lport));
    success_is_remembered(after, key, rport, lport, true, unix);
    let entry = after.memory.entry(key, rport);
    assert(!entry.muted);
    let done = after.fwd_done(key, rport, lport, true, Ok(()), unix).0;
    memory_frame(after.memory, key, rport, done.memory.entry(key, rport));
}

/// A port that the user's own session forwards is shown and not managed: no command of the user and
/// no pick of a port touches its forward, and none of them has a command run for it.
pub proof fn external_forwards_are_left_alone(
    w: worker::WorkerModel,
    key: Seq<char>,
    rport: u16,
    lport: u16,
    user: Option<Option<Seq<char>>>,
    free: Seq<u16>,
    ephemeral: Option<u16>,
    unix: u64,
)
    requires
        w.has_app(key, rport),
        w.hosts[key].apps[rport].shown.status is External,
    ensures
        w.toggle(key, rport, unix).0 == w,
        w.assign(key, rport, lport, user, unix).0 == w,
        w.start_forward(key, rport, free, ephemeral) == (w, Seq::<host::EffectModel>::empty()),
        w.toggle(key, rport, unix).1.len() == 1 && w.toggle(key, rport, unix).1[0] is Tell,
        w.assign(key, rport, lport, user, unix).1.len() == 1 && w.assign(
            key,
            rport,
            lport,
            user,
            unix,
        ).1[0] is Tell,
        w.toggle_host(key).0.hosts[key].apps[rport] == w.hosts[key].apps[rport],
{
}

/// Each command that cancels forwards is for a live forward.
pub(crate) proof fn lemma_cancels(
    apps: Map<u16, host::AppWModel>,
    rports: Seq<u16>,
    master: control::MasterRefModel,
    i: int,
)
    requires
        0 <= i < host::cancels(apps, rports, master).len(),
    ensures
        exists|rport: u16|
            rports.contains(rport) && host::live_port(#[trigger] apps[rport]) is Some
                && host::cancels(apps, rports, master)[i] == master.mux(
                "cancel"@,
                host::live_port(apps[rport])->0,
                rport,
            ),
    decreases rports.len(),
{
    if rports.len() > 0 {
        let before = host::cancels(apps, rports.drop_last(), master);
        if i < before.len() {
            lemma_cancels(apps, rports.drop_last(), master, i);
            let rport = choose|rport: u16|
                rports.drop_last().contains(rport) && host::live_port(#[trigger] apps[rport]) is Some
                    && before[i] == master.mux(
                    "cancel"@,
                    host::live_port(apps[rport])->0,
                    rport,
                );
            let j = choose|j: int| 0 <= j < rports.drop_last().len() && rports.drop_last()[j] == rport;
            assert(rports[j] == rport);
            assert(host::live_port(apps[rport]) is Some);
        } else {
            let rport = rports.last();
            assert(rports[rports.len() - 1] == rport);
            assert(host::live_port(apps[rport]) is Some);
        }
    }
}

/// Each live forward among those of the ports has a command that cancels it.
pub(crate) proof fn lemma_cancelled(
    apps: Map<u16, host::AppWModel>,
    rports: Seq<u16>,
    master: control::MasterRefModel,
    rport: u16,
)
    requires
        rports.contains(rport),
        host::live_port(apps[rport]) is Some,
    ensures
        host::cancels(apps, rports, master).contains(
            master.mux("cancel"@, host::live_port(apps[rport])->0, rport),
        ),
    decreases rports.len(),
{
    let c = master.mux("cancel"@, host::live_port(apps[rport])->0, rport);
    let all = host::cancels(apps, rports, master);
    let before = host::cancels(apps, rports.drop_last(), master);
    if rports.last() == rport {
        assert(all[all.len() - 1] == c);
    } else {
        let j = choose|j: int| 0 <= j < rports.len() && rports[j] == rport;
        assert(rports.drop_last()[j] == rport);
        lemma_cancelled(apps, rports.drop_last(), master, rport);
        let k = choose|k: int| 0 <= k < before.len() && before[k] == c;
        assert(all[k] == c);
    }
}

/// A command that cancels a live forward of a host.
pub open spec fn cancels_live(h: host::HostWModel, command: util::InvocationModel) -> bool {
    exists|rport: u16|
        h.apps.contains_key(rport) && host::live_port(#[trigger] h.apps[rport]) is Some && command
            == h.master->Ready_0.r.mux("cancel"@, host::live_port(h.apps[rport])->0, rport)
}

/// Tearing a host down never ends the user's own master: on it exactly the forwards that were asked
/// for here are cancelled, and the user's own stay untouched. A master that was opened here is
/// ended.
pub proof fn teardown_spares_the_users_master(memory: state::StateModel, h: host::HostWModel)
    requires
        host_ok(memory, h.key, h),
        h.master is Ready,
    ensures
        h.teardown() is Some,
        h.master->Ready_0.external ==> ({
            let m = h.master->Ready_0.r;
            let t = h.teardown()->0;
            &&& t.close is None
            &&& forall|i: int|
                0 <= i < t.cancels.len() ==> cancels_live(h, #[trigger] t.cancels[i])
            &&& forall|rport: u16|
                h.apps.contains_key(rport) && host::live(#[trigger] h.apps[rport])
                    ==> t.cancels.contains(m.mux("cancel"@, h.apps[rport].shown.lport->0, rport))
        }),
        !h.master->Ready_0.external ==> h.teardown() == Some(
            host::TeardownModel {
                cancels: Seq::empty(),
                close: Some(h.master->Ready_0.shutdown()),
            },
        ),
{
    if h.master->Ready_0.external {
        let m = h.master->Ready_0.r;
        let t = h.teardown()->0;
        let rports = maps::ordered_keys::<u16, host::AppWModel>(h.apps);
        maps::lemma_ordered_keys::<u16, host::AppWModel>(h.apps);
        assert forall|i: int| 0 <= i < t.cancels.len() implies cancels_live(
            h,
            #[trigger] t.cancels[i],
        ) by {
            lemma_cancels(h.apps, rports, m, i);
            let rport = choose|rport: u16|
                rports.contains(rport) && host::live_port(#[trigger] h.apps[rport]) is Some
                    && t.cancels[i] == m.mux("cancel"@, host::live_port(h.apps[rport])->0, rport);
            assert(rports.to_set().contains(rport));
            assert(host::live_port(h.apps[rport]) is Some);
        }
        assert forall|rport: u16|
            h.apps.contains_key(rport) && host::live(#[trigger] h.apps[rport]) implies t.cancels.contains(
            m.mux("cancel"@, h.apps[rport].shown.lport->0, rport),
        ) by {
            assert(app_ok(memory, h.key, rport, h.apps[rport]));
            assert(rports.to_set().contains(rport));
            lemma_cancelled(h.apps, rports, m, rport);
        }
    }
}

/// A local port that could not be bound is replaced by a fresh one only once: the second failure
/// is shown.
pub proof fn bind_failures_retry_once(
    w: worker::WorkerModel,
    key: Seq<char>,
    rport: u16,
    first: u16,
    second: u16,
    free: Seq<u16>,
    ephemeral: Option<u16>,
    pin: bool,
    err: Seq<char>,
    unix: u64,
)
    requires
        w.open(key),
        w.has_app(key, rport),
        w.hosts[key].apps[rport].shown.lport == Some(first),
        !w.hosts[key].apps[rport].shown.muted,
        !w.hosts[key].apps[rport].retried_new_port,
        worker::bindish(err),
        ({
            let w1 = w.fwd_done(key, rport, first, pin, Err(err), unix).0;
            ports::picked(w1.prefs(key, rport), worker::claimed(w1.hosts), free, ephemeral) == Some(
                second,
            )
        }),
    ensures
        ({
            let w1 = w.fwd_done(key, rport, first, pin, Err(err), unix).0;
            let w2 = w1.start_forward(key, rport, free, ephemeral).0;
            let w3 = w2.fwd_done(key, rport, second, pin, Err(err), unix).0;
            &&& w1.hosts[key].apps[rport].shown.status is Off
            &&& w1.hosts[key].apps[rport].shown.lport is None
            &&& w2.hosts[key].apps[rport].shown.status is Pending
            &&& w2.hosts[key].apps[rport].shown.lport == Some(second)
            &&& w3.hosts[key].apps[rport].shown.status == types::FwdModel::Error(err)
        }),
{
}

/// An app that was turned off and on again asks for the local port that it had.
pub proof fn toggling_twice_asks_for_the_same_port(
    w: worker::WorkerModel,
    key: Seq<char>,
    rport: u16,
    unix: u64,
)
    requires
        w.open(key),
        w.has_app(key, rport),
        host::live(w.hosts[key].apps[rport]),
        w.hosts[key].apps[rport].shown.lport is Some,
    ensures
        ({
            let w1 = w.toggle(key, rport, unix).0;
            let (w2, effects) = w1.toggle(key, rport, unix);
            let off = w1.hosts[key].apps[rport].shown;
            let on = w2.hosts[key].apps[rport].shown;
            &&& off.muted && off.status is Off
            &&& w1.memory.entry(key, rport).muted
            &&& !on.muted && on.status is Off
            &&& !w2.memory.entry(key, rport).muted
            &&& effects.last() == w2.pick(key, rport)
            &&& w2.prefs(key, rport)[0] == w.hosts[key].apps[rport].shown.lport->0
        }),
{
    let w1 = w.toggle(key, rport, unix).0;
    let w2 = w1.toggle(key, rport, unix).0;
    assert(w2.prefs(key, rport)[0] == w2.hosts[key].apps[rport].shown.lport->0);
}

/// Pausing a host and resuming it leaves the memory as it was; hiding a real app and unhiding it
/// makes it a real app again; turning auto-forwarding off and on changes nothing.
pub proof fn toggles_undo_themselves(
    w: worker::WorkerModel,
    key: Seq<char>,
    rport: u16,
    unix: u64,
)
    requires
        w.has_app(key, rport),
        !w.memory.paused.contains(key),
        w.hosts[key].apps[rport].shown.tier == Tier::App,
    ensures
        w.toggle_host(key).0.memory.paused.contains(key),
        w.toggle_host(key).0.toggle_host(key).0.memory == w.memory,
        w.toggle_hidden(key, rport, unix).0.hosts[key].apps[rport].shown.tier == Tier::Bg,
        w.toggle_hidden(key, rport, unix).0.toggle_hidden(
            key,
            rport,
            unix,
        ).0.hosts[key].apps[rport].shown.tier == Tier::App,
        w.toggle_auto().0.toggle_auto().0 == w,
{
    assert(w.memory.paused.insert(key).remove(key) =~= w.memory.paused);
}

/// A note of the user is remembered as it was written, and an empty one clears it.
pub proof fn notes_are_remembered(
    w: worker::WorkerModel,
    key: Seq<char>,
    rport: u16,
    note: Seq<char>,
    unix: u64,
)
    requires
        w.has_app(key, rport),
    ensures
        ({
            let after = w.set_comment(key, rport, note, unix).0;
            let kept = if note.len() == 0 {
                None
            } else {
                Some(note)
            };
            &&& after.memory.entry(key, rport).comment == kept
            &&& after.hosts[key].apps[rport].shown.comment == kept
        }),
{
}

/// One of the connections is to this host, as ssh resolved it.
pub open spec fn connected_to(
    w: worker::WorkerModel,
    conns: Seq<discover::ConnModel>,
    key: Seq<char>,
) -> bool {
    exists|i: int|
        0 <= i < conns.len() && leads_to(w, #[trigger] conns[i], key)
}

/// The connection is to this host, as ssh resolved it.
pub open spec fn leads_to(w: worker::WorkerModel, conn: discover::ConnModel, key: Seq<char>) -> bool {
    host::lookup(w.answers, conn.key()) matches Some(Some(r)) && host::identity(r) == key
}

pub(crate) proof fn lemma_counted(
    w: worker::WorkerModel,
    hosts: Map<Seq<char>, host::HostWModel>,
    conns: Seq<discover::ConnModel>,
    key: Seq<char>,
)
    ensures
        ({
            let after = worker::all_absorbed(hosts, w.answers, conns);
            &&& connected_to(w, conns, key) ==> after.contains_key(key) && after[key].present
            &&& !connected_to(w, conns, key) ==> (after.contains_key(key) <==> hosts.contains_key(
                key,
            )) && (hosts.contains_key(key) ==> after[key] == hosts[key])
            &&& hosts.contains_key(key) ==> after.contains_key(key) && after[key]
                == (host::HostWModel {
                present: after[key].present,
                ext_forwards: after[key].ext_forwards,
                ..hosts[key]
            })
        }),
    decreases conns.len(),
{
    if conns.len() > 0 {
        let fewer = conns.drop_last();
        lemma_counted(w, hosts, fewer, key);
        if connected_to(w, fewer, key) {
            let i = choose|i: int| 0 <= i < fewer.len() && leads_to(w, #[trigger] fewer[i], key);
            assert(leads_to(w, conns[i], key));
        }
        if leads_to(w, conns.last(), key) {
            assert(leads_to(w, conns[conns.len() - 1], key));
        } else if connected_to(w, conns, key) {
            let i = choose|i: int| 0 <= i < conns.len() && leads_to(w, #[trigger] conns[i], key);
            assert(leads_to(w, fewer[i], key));
        }
    }
}

proof fn lemma_tears(
    hosts: Map<Seq<char>, host::HostWModel>,
    keys: Seq<Seq<char>>,
    key: Seq<char>,
)
    requires
        keys.contains(key),
        hosts[key].teardown() is Some,
    ensures
        worker::tears(hosts, keys).contains(hosts[key].teardown()->0),
    decreases keys.len(),
{
    let t = hosts[key].teardown()->0;
    let all = worker::tears(hosts, keys);
    let before = worker::tears(hosts, keys.drop_last());
    if keys.last() == key {
        assert(all[all.len() - 1] == t);
    } else {
        let j = choose|j: int| 0 <= j < keys.len() && keys[j] == key;
        assert(keys.drop_last()[j] == key);
        lemma_tears(hosts, keys.drop_last(), key);
        let k = choose|k: int| 0 <= k < before.len() && before[k] == t;
        assert(all[k] == t);
    }
}

/// After a look at the connections exactly the hosts with a connection are there; a host that keeps
/// its connection keeps its apps, and what was set up for one that lost it is torn down.
pub proof fn hosts_follow_connections(
    w: worker::WorkerModel,
    conns: Seq<discover::ConnModel>,
    now: u64,
    key: Seq<char>,
)
    requires
        worker_ok(w),
    ensures
        ({
            let (after, effects) = w.tick(conns, now);
            &&& after.hosts.contains_key(key) <==> connected_to(w, conns, key)
            &&& connected_to(w, conns, key) && w.hosts.contains_key(key) ==> after.hosts[key].apps
                == w.hosts[key].apps
            &&& !connected_to(w, conns, key) && w.hosts.contains_key(key) && w.hosts[key].master is Ready
                ==> effects.contains(host::EffectModel::Tear(w.hosts[key].teardown()->0))
        }),
{
    let unseen = w.hosts.map_values(|h: host::HostWModel| h.unseen());
    lemma_counted(w, unseen, conns, key);
    lemma_kept(w, conns);
    let counted = w.counted(conns);
    let keep = worker::present(counted.hosts);
    let left = kept(counted);
    lemma_keys(left);
    let interval = w.interval;
    lemma_visit(left, left.keys(), |h: host::HostWModel| h.wake(now, interval));
    let (after, effects) = w.tick(conns, now);
    if !connected_to(w, conns, key) && w.hosts.contains_key(key) && w.hosts[key].master is Ready {
        lemma_keys(counted);
        let test = |k: Seq<char>| !keep.contains(k);
        let keys = counted.keys();
        assert(keys.contains(key));
        let j = choose|j: int| 0 <= j < keys.len() && keys[j] == key;
        assert(test(keys[j]));
        assert(counted.vanished().contains(keys[j]));
        let h = counted.hosts[key];
        assert(h.apps == w.hosts[key].apps);
        assert(h.teardown() == w.hosts[key].teardown());
        lemma_tears(counted.hosts, counted.vanished(), key);
        let all = worker::tears(counted.hosts, counted.vanished());
        let n = choose|n: int| 0 <= n < all.len() && all[n] == h.teardown()->0;
        assert(effects[n] == host::EffectModel::Tear(all[n]));
    }
}

/// A host that is visited once is changed once, and all the effects of it go out.
pub(crate) proof fn lemma_visited(
    w: worker::WorkerModel,
    keys: Seq<Seq<char>>,
    f: spec_fn(host::HostWModel) -> (host::HostWModel, Seq<host::EffectModel>),
    key: Seq<char>,
)
    requires
        maps::is_ordered::<String>(keys),
    ensures
        ({
            let (after, effects) = w.visit(keys, f);
            let (h, wanted) = f(w.hosts[key]);
            &&& !keys.contains(key) ==> after.hosts[key] == w.hosts[key]
            &&& keys.contains(key) ==> after.hosts[key] == h
            &&& keys.contains(key) ==> forall|n: int|
                0 <= n < wanted.len() ==> effects.contains(#[trigger] wanted[n])
        }),
    decreases keys.len(),
{
    if keys.len() > 0 {
        let fewer = keys.drop_last();
        let last = keys.last();
        assert(maps::is_ordered::<String>(fewer));
        lemma_visited(w, fewer, f, key);
        let (before, effects) = w.visit(fewer, f);
        let everything = w.visit(keys, f).1;
        let (h, wanted) = f(w.hosts[key]);
        let more = f(before.hosts[last]).1;
        assert(everything == effects + more);
        if key == last {
            assert(keys[keys.len() - 1] == key);
            if fewer.contains(key) {
                let j = choose|j: int| 0 <= j < fewer.len() && fewer[j] == key;
                assert(<String as maps::MapKey>::before(keys[j], keys[keys.len() - 1]));
                <String as maps::MapKey>::before_irreflexive(key);
            }
            assert forall|n: int| 0 <= n < wanted.len() implies everything.contains(
                #[trigger] wanted[n],
            ) by {
                assert(everything[effects.len() + n] == wanted[n]);
            }
        } else if keys.contains(key) {
            let j = choose|j: int| 0 <= j < keys.len() && keys[j] == key;
            assert(fewer[j] == key);
            assert forall|n: int| 0 <= n < wanted.len() implies everything.contains(
                #[trigger] wanted[n],
            ) by {
                assert(effects.contains(wanted[n]));
                let m = choose|m: int| 0 <= m < effects.len() && effects[m] == wanted[n];
                assert(everything[m] == wanted[n]);
            }
        } else if fewer.contains(key) {
            let j = choose|j: int| 0 <= j < fewer.len() && fewer[j] == key;
            assert(keys[j] == key);
        }
    }
}

/// A look at the connections wakes each host that there is one to.
pub(crate) proof fn lemma_woken(
    w: worker::WorkerModel,
    conns: Seq<discover::ConnModel>,
    now: u64,
    key: Seq<char>,
)
    requires
        worker_ok(w),
        connected_to(w, conns, key),
    ensures
        ({
            let (after, effects) = w.tick(conns, now);
            let (h, wanted) = w.counted(conns).hosts[key].wake(now, w.interval);
            &&& after.hosts.contains_key(key)
            &&& after.hosts[key] == h
            &&& forall|n: int| 0 <= n < wanted.len() ==> effects.contains(#[trigger] wanted[n])
        }),
{
    let counted = w.counted(conns);
    hosts_follow_connections(w, conns, now, key);
    lemma_counted(w, w.hosts.map_values(|h: host::HostWModel| h.unseen()), conns, key);
    lemma_kept(w, conns);
    let left = kept(counted);
    lemma_keys(left);
    maps::lemma_ordered_keys::<String, host::HostWModel>(left.hosts);
    assert(left.keys().contains(key));
    let interval = w.interval;
    let f = |h: host::HostWModel| h.wake(now, interval);
    lemma_visited(left, left.keys(), f, key);
    let (after, effects) = w.tick(conns, now);
    let more = left.visit(left.keys(), f).1;
    let torn = worker::tear_effects(worker::tears(counted.hosts, counted.vanished()));
    let wanted = counted.hosts[key].wake(now, interval).1;
    assert(left.hosts[key] == counted.hosts[key]);
    assert(f(left.hosts[key]).1 == wanted);
    assert forall|n: int| 0 <= n < wanted.len() implies effects.contains(#[trigger] wanted[n]) by {
        assert(more.contains(wanted[n]));
        let m = choose|m: int| 0 <= m < more.len() && more[m] == wanted[n];
        assert(effects[torn.len() + m] == wanted[n]);
    }
}

/// Whenever the master of a host is found dead, the next look at the connections asks for a new one
/// at once, however early that is.
pub proof fn lost_masters_are_reconnected_at_once(
    w: worker::WorkerModel,
    conns: Seq<discover::ConnModel>,
    now: u64,
    key: Seq<char>,
)
    requires
        worker_ok(w),
        w.hosts.contains_key(key),
        w.hosts[key].master is Ready,
        connected_to(w, conns, key),
    ensures
        ({
            let h = w.hosts[key];
            let (after, effects) = w.alive_checked(key, false).tick(conns, now);
            &&& after.hosts.contains_key(key)
            &&& after.hosts[key].master is Connecting
            &&& after.hosts[key].connect_inflight
            &&& effects.contains(
                host::EffectModel::Connect {
                    key,
                    dest: h.dest,
                    extra: h.extra,
                    control_path: h.control_path,
                },
            )
        }),
{
    let h = w.hosts[key];
    let w1 = w.alive_checked(key, false);
    assert(host_ok(w.memory, key, h));
    step_keeps_worker_ok(
        w,
        worker::WMsgModel::AliveChecked { key, alive: false },
        Clock { mono: now, unix: 0 },
    );
    let i = choose|i: int| 0 <= i < conns.len() && leads_to(w, #[trigger] conns[i], key);
    assert(leads_to(w1, conns[i], key));
    lemma_counted(w1, w1.hosts.map_values(|h: host::HostWModel| h.unseen()), conns, key);
    lemma_woken(w1, conns, now, key);
    let counted = w1.counted(conns).hosts[key];
    assert(counted.connect_due(now));
    let wanted = counted.wake(now, w1.interval).1;
    assert(wanted[0] == counted.connect(now).1[0]);
}

/// At the end every connected host is torn down.
pub proof fn quitting_tears_down_every_host(w: worker::WorkerModel, key: Seq<char>)
    requires
        worker_ok(w),
        w.hosts.contains_key(key),
        w.hosts[key].master is Ready,
    ensures
        worker::tears(w.hosts, w.keys()).contains(w.hosts[key].teardown()->0),
{
    lemma_keys(w);
    assert(w.keys().contains(key));
    lemma_tears(w.hosts, w.keys(), key);
}

/// The ports of the apps once a listing has been taken in, and what became of live forwards and of
/// forwards of the user.
proof fn lemma_merged_ports(
    h: host::HostWModel,
    found: Seq<remote::RemoteModel>,
    memory: state::StateModel,
)
    ensures
        ({
            let apps = h.merged(found, memory);
            &&& forall|p: u16| #[trigger]
                apps.contains_key(p) <==> h.apps.contains_key(p) || host::ports_of(
                    found,
                ).contains(p)
            &&& forall|p: u16|
                h.apps.contains_key(p) && host::live(#[trigger] h.apps[p]) ==> apps[p].shown.status
                    == h.apps[p].shown.status && apps[p].shown.lport == h.apps[p].shown.lport
            &&& forall|p: u16|
                host::ports_of(found).contains(p) && h.ext_forwards.contains_key(p) && !(
                h.apps.contains_key(p) && host::live(h.apps[p])) ==> (#[trigger] apps[p]).shown.status is External
                    && apps[p].shown.lport == Some(h.ext_forwards[p])
        }),
    decreases found.len(),
{
    if found.len() > 0 {
        let fewer = found.drop_last();
        lemma_merged_ports(h, fewer, memory);
        let before = h.merged(fewer, memory);
        let f = found.last();
        let apps = h.merged(found, memory);
        assert forall|p: u16|
            host::ports_of(found).contains(p) <==> host::ports_of(fewer).contains(p) || p == f.port by {
            if host::ports_of(found).contains(p) {
                let i = choose|i: int| 0 <= i < found.len() && (#[trigger] found[i]).port == p;
                if i < fewer.len() {
                    assert(fewer[i].port == p);
                }
            }
            if host::ports_of(fewer).contains(p) {
                let i = choose|i: int| 0 <= i < fewer.len() && (#[trigger] fewer[i]).port == p;
                assert(found[i].port == p);
            }
            assert(found[found.len() - 1].port == f.port);
        }
        assert forall|p: u16|
            host::ports_of(found).contains(p) && h.ext_forwards.contains_key(p) && !(
            h.apps.contains_key(p) && host::live(h.apps[p])) implies (#[trigger] apps[p]).shown.status is External
            && apps[p].shown.lport == Some(h.ext_forwards[p]) by {
            if p == f.port {
                if before.contains_key(p) {
                    if host::ports_of(fewer).contains(p) {
                        assert(before[p].shown.status is External);
                    } else {
                        lemma_unfound(h, fewer, memory, p);
                        assert(before[p] == h.apps[p]);
                    }
                }
            } else {
                assert(apps[p] == before[p]);
            }
        }
        assert forall|p: u16|
            h.apps.contains_key(p) && host::live(#[trigger] h.apps[p]) implies apps[p].shown.status
            == h.apps[p].shown.status && apps[p].shown.lport == h.apps[p].shown.lport by {
            assert(before.contains_key(p));
            assert(before[p].shown.status == h.apps[p].shown.status);
        }
    }
}

/// An app that a scan has not found is left as it was while the rest is taken in.
pub(crate) proof fn lemma_unfound(
    h: host::HostWModel,
    found: Seq<remote::RemoteModel>,
    memory: state::StateModel,
    p: u16,
)
    requires
        !host::ports_of(found).contains(p),
    ensures
        h.merged(found, memory).contains_key(p) <==> h.apps.contains_key(p),
        h.apps.contains_key(p) ==> h.merged(found, memory)[p] == h.apps[p],
    decreases found.len(),
{
    if found.len() > 0 {
        let fewer = found.drop_last();
        assert(found[found.len() - 1].port == found.last().port);
        assert(found.last().port != p);
        if host::ports_of(fewer).contains(p) {
            let i = choose|i: int| 0 <= i < fewer.len() && (#[trigger] fewer[i]).port == p;
            assert(found[i].port == p);
        }
        lemma_unfound(h, fewer, memory, p);
    }
}

/// After a scan exactly the listeners that it found are apps. Live forwards of apps that are still
/// there are untouched, and those of apps that vanished are cancelled.
pub proof fn apps_follow_scans(
    h: host::HostWModel,
    found: Seq<remote::RemoteModel>,
    memory: state::StateModel,
    now: u64,
)
    requires
        host_ok(memory, h.key, h),
    ensures
        ({
            let (after, effects) = h.scanned(found, memory, now);
            &&& after.apps.dom() == host::ports_of(found)
            &&& forall|p: u16|
                h.apps.contains_key(p) && host::live(#[trigger] h.apps[p]) && after.apps.contains_key(p)
                    ==> after.apps[p].shown.status == h.apps[p].shown.status
                    && after.apps[p].shown.lport == h.apps[p].shown.lport
            &&& forall|p: u16|
                h.master is Ready && h.apps.contains_key(p) && host::live(#[trigger] h.apps[p])
                    && !after.apps.contains_key(p) ==> effects.contains(
                    host::EffectModel::Run(
                        h.master->Ready_0.r.mux("cancel"@, h.apps[p].shown.lport->0, p),
                    ),
                )
        }),
{
    let (after, effects) = h.scanned(found, memory, now);
    let apps = h.merged(found, memory);
    let heard = host::ports_of(found);
    lemma_merged_ports(h, found, memory);
    lemma_merged(memory, h.key, h, found);
    assert(after.apps.dom() =~= heard);
    let all = host::HostWModel { apps, ..h };
    assert(host_ok(memory, h.key, all));
    assert forall|p: u16|
        h.master is Ready && h.apps.contains_key(p) && host::live(#[trigger] h.apps[p])
            && !after.apps.contains_key(p) implies effects.contains(
        host::EffectModel::Run(h.master->Ready_0.r.mux("cancel"@, h.apps[p].shown.lport->0, p)),
    ) by {
        let m = h.master->Ready_0.r;
        assert(app_ok(memory, h.key, p, h.apps[p]));
        lemma_unfound(h, found, memory, p);
        maps::lemma_ordered_keys::<u16, host::AppWModel>(apps);
        let keys = maps::ordered_keys::<u16, host::AppWModel>(apps);
        let test = |q: u16| !heard.contains(q);
        assert(keys.to_set().contains(p));
        let j = choose|j: int| 0 <= j < keys.len() && keys[j] == p;
        assert(test(keys[j]));
        let gone = h.vanished(found, memory);
        assert(gone.contains(keys[j]));
        lemma_cancelled(apps, gone, m, p);
        let commands = host::cancels(apps, gone, m);
        let c = m.mux("cancel"@, h.apps[p].shown.lport->0, p);
        let k = choose|k: int| 0 <= k < commands.len() && commands[k] == c;
        assert(effects[k] == host::EffectModel::Run(c));
    }
}

/// A port that the user's own session already forwards, by its config or by -L, is shown as such on
/// the local port that the session uses, unless a forward asked for here was there first; it is
/// then not forwarded a second time.
pub proof fn user_forwards_are_shown(
    w: worker::WorkerModel,
    key: Seq<char>,
    found: Seq<remote::RemoteModel>,
    now: u64,
    rport: u16,
)
    requires
        w.hosts.contains_key(key),
        host::ports_of(found).contains(rport),
        w.hosts[key].ext_forwards.contains_key(rport),
        !(w.has_app(key, rport) && host::live(w.hosts[key].apps[rport])),
    ensures
        ({
            let after = w.scan_done(key, Ok(found), now).0;
            let app = after.hosts[key].apps[rport];
            &&& after.has_app(key, rport)
            &&& app.shown.status is External
            &&& app.shown.lport == Some(w.hosts[key].ext_forwards[rport])
            &&& !worker::eligible(app)
        }),
{
    lemma_merged_ports(w.hosts[key], found, w.memory);
}

/// A forward to the server itself that the user's session was started with is known after the
/// session has been counted; of several for one remote port the last counts.
pub proof fn session_forwards_are_known(
    ext: Map<u16, u16>,
    specs: Seq<Seq<char>>,
    i: int,
    lport: u16,
    rport: u16,
)
    requires
        0 <= i < specs.len(),
        discover::l_spec(specs[i]) matches Some((l, name, r)) && discover::loopback_host(name) && l
            == lport && r == rport,
        forall|j: int|
            i < j < specs.len() ==> !(discover::l_spec(#[trigger] specs[j]) matches Some((l, name, r))
                && r == rport),
    ensures
        host::session_forwards(ext, specs).contains_key(rport),
        host::session_forwards(ext, specs)[rport] == lport,
    decreases specs.len(),
{
    if i < specs.len() - 1 {
        let fewer = specs.drop_last();
        assert(fewer[i] == specs[i]);
        assert forall|j: int| i < j < fewer.len() implies !(discover::l_spec(
            #[trigger] fewer[j],
        ) matches Some((l, name, r)) && r == rport) by {
            assert(fewer[j] == specs[j]);
        }
        session_forwards_are_known(ext, fewer, i, lport, rport);
        assert(specs[specs.len() - 1] == specs.last());
    }
}

/// Forwards that are known stay known, and so does each that a session was started with.
pub(crate) proof fn lemma_session_forwards(ext: Map<u16, u16>, specs: Seq<Seq<char>>, rport: u16)
    ensures
        ext.contains_key(rport) ==> host::session_forwards(ext, specs).contains_key(rport),
        (exists|j: int| 0 <= j < specs.len() && forwards_to(#[trigger] specs[j], rport))
            ==> host::session_forwards(ext, specs).contains_key(rport),
    decreases specs.len(),
{
    if specs.len() > 0 {
        let fewer = specs.drop_last();
        lemma_session_forwards(ext, fewer, rport);
        if exists|j: int| 0 <= j < specs.len() && forwards_to(#[trigger] specs[j], rport) {
            let j = choose|j: int| 0 <= j < specs.len() && forwards_to(#[trigger] specs[j], rport);
            if j < fewer.len() {
                assert(forwards_to(fewer[j], rport));
            }
        }
    }
}

pub(crate) proof fn lemma_config_forwards(ext: Map<u16, u16>, fwds: Seq<(u16, u16)>, rport: u16)
    ensures
        ext.contains_key(rport) ==> host::config_forwards(ext, fwds).contains_key(rport),
    decreases fwds.len(),
{
    if fwds.len() > 0 {
        lemma_config_forwards(ext, fwds.drop_last(), rport);
    }
}

/// The text of a -L asks for a forward to this port of the server itself.
pub open spec fn forwards_to(spec: Seq<char>, rport: u16) -> bool {
    discover::l_spec(spec) matches Some((l, name, r)) && discover::loopback_host(name) && r == rport
}

/// The forwards of every connection to a host are known once the connections are counted.
proof fn lemma_absorbed_forwards(
    w: worker::WorkerModel,
    hosts: Map<Seq<char>, host::HostWModel>,
    conns: Seq<discover::ConnModel>,
    n: int,
    spec: Seq<char>,
    key: Seq<char>,
    rport: u16,
)
    requires
        0 <= n < conns.len(),
        leads_to(w, conns[n], key),
        conns[n].lforwards.contains(spec),
        forwards_to(spec, rport),
    ensures
        worker::all_absorbed(hosts, w.answers, conns).contains_key(key),
        worker::all_absorbed(hosts, w.answers, conns)[key].ext_forwards.contains_key(rport),
    decreases conns.len(),
{
    let fewer = conns.drop_last();
    let before = worker::all_absorbed(hosts, w.answers, fewer);
    let conn = conns.last();
    if n < fewer.len() {
        assert(fewer[n] == conns[n]);
        lemma_absorbed_forwards(w, hosts, fewer, n, spec, key, rport);
    }
    if leads_to(w, conn, key) {
        let r = host::lookup(w.answers, conn.key())->0->0;
        let h = if before.contains_key(key) {
            before[key]
        } else {
            host::new_host(r, conn)
        };
        lemma_config_forwards(h.ext_forwards, r.lforwards, rport);
        let ext = host::config_forwards(h.ext_forwards, r.lforwards);
        lemma_session_forwards(ext, conn.lforwards, rport);
        if n == fewer.len() {
            let j = choose|j: int| 0 <= j < conn.lforwards.len() && conn.lforwards[j] == spec;
            assert(forwards_to(conn.lforwards[j], rport));
        }
    }
}

/// Whatever session in the process table was started with a -L to a port of the server itself, the
/// forward of that port is known after the look at the table, also where other sessions go to the
/// same server. A scan that finds the port then shows it as the user's own, on that local port, and
/// it is not forwarded a second time, unless a forward asked for here was there first.
pub proof fn forwards_in_the_process_table_are_known(
    w: worker::WorkerModel,
    out: Seq<char>,
    now: u64,
    i: int,
    spec: Seq<char>,
    key: Seq<char>,
    rport: u16,
    found: Seq<remote::RemoteModel>,
    later: u64,
)
    requires
        worker_ok(w),
        0 <= i < text::lines(out).len(),
        discover::ps_line(text::lines(out)[i]) matches Some(c) && leads_to(w, c, key)
            && c.lforwards.contains(spec),
        forwards_to(spec, rport),
    ensures
        ({
            let seen = w.tick(discover::session_listing(out), now).0;
            let after = seen.scan_done(key, Ok(found), later).0;
            let app = after.hosts[key].apps[rport];
            &&& seen.hosts.contains_key(key)
            &&& seen.hosts[key].ext_forwards.contains_key(rport)
            &&& host::ports_of(found).contains(rport) && !(seen.has_app(key, rport) && host::live(
                seen.hosts[key].apps[rport],
            )) ==> {
                &&& after.has_app(key, rport)
                &&& app.shown.status is External
                &&& app.shown.lport == Some(seen.hosts[key].ext_forwards[rport])
                &&& !worker::eligible(app)
            }
        }),
{
    let c = discover::ps_line(text::lines(out)[i])->0;
    let conns = discover::session_listing(out);
    laws::sessions_keep_their_forwards(out, i);
    let n = choose|n: int|
        0 <= n < conns.len() && (#[trigger] conns[n]).key() == c.key() && forall|j: int|
            0 <= j < c.lforwards.len() ==> conns[n].lforwards.contains(#[trigger] c.lforwards[j]);
    let j = choose|j: int| 0 <= j < c.lforwards.len() && c.lforwards[j] == spec;
    assert(conns[n].lforwards.contains(c.lforwards[j]));
    assert(leads_to(w, conns[n], key));
    let unseen = w.hosts.map_values(|h: host::HostWModel| h.unseen());
    lemma_absorbed_forwards(w, unseen, conns, n, spec, key, rport);
    lemma_woken(w, conns, now, key);
    let seen = w.tick(conns, now).0;
    if host::ports_of(found).contains(rport) && !(seen.has_app(key, rport) && host::live(
        seen.hosts[key].apps[rport],
    )) {
        user_forwards_are_shown(seen, key, found, later, rport);
    }
}

proof fn lemma_refreshed(
    w: worker::WorkerModel,
    keys: Seq<Seq<char>>,
    f: spec_fn(host::HostWModel) -> (host::HostWModel, Seq<host::EffectModel>),
    now: u64,
    interval: u64,
    key: Seq<char>,
)
    requires
        f == |h: host::HostWModel| h.scan(true, now, interval),
    ensures
        keys.contains(key) && w.hosts[key].master is Ready ==> w.visit(
            keys,
            f,
        ).0.hosts[key].scanning,
        w.visit(keys, f).0.hosts[key].master == w.hosts[key].master,
    decreases keys.len(),
{
    if keys.len() > 0 {
        let fewer = keys.drop_last();
        lemma_refreshed(w, fewer, f, now, interval, key);
        let before = w.visit(fewer, f).0;
        let last = keys.last();
        assert(f(before.hosts[last]) == before.hosts[last].scan(true, now, interval));
        if keys.contains(key) && key != last {
            let j = choose|j: int| 0 <= j < keys.len() && keys[j] == key;
            assert(fewer[j] == key);
        }
    }
}

/// A rescan reaches every connected host.
pub proof fn refreshing_scans_every_host(w: worker::WorkerModel, now: u64, key: Seq<char>)
    requires
        worker_ok(w),
        w.hosts.contains_key(key),
        w.hosts[key].master is Ready,
    ensures
        w.refresh(now).0.hosts[key].scanning,
{
    let interval = w.interval;
    lemma_keys(w);
    assert(w.keys().contains(key));
    lemma_refreshed(
        w,
        w.keys(),
        |h: host::HostWModel| h.scan(true, now, interval),
        now,
        interval,
        key,
    );
}

} // verus!
