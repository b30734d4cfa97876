//! Which forwards are asked for, and what becomes of them.
use vstd::prelude::*;
use crate::host;
use crate::maps;
use crate::ports;
use crate::remote;
use crate::state;
use crate::text;
use crate::types;
use crate::types::Tier;
use crate::util;
use crate::worker;
use crate::worker_laws;

verus! {

/// The local port is in use by a forward that was asked for here: one that stands or is under way, of
/// whatever app on whatever host.
pub open spec fn in_use(w: worker::WorkerModel, p: u16) -> bool {
    exists|key: Seq<char>, rport: u16| #[trigger] uses(w, key, rport, p)
}

/// The app has a forward on the local port that stands or is under way.
pub open spec fn uses(w: worker::WorkerModel, key: Seq<char>, rport: u16, p: u16) -> bool {
    &&& w.hosts.contains_key(key)
    &&& w.hosts[key].apps.contains_key(rport)
    &&& w.hosts[key].apps[rport].shown.lport == Some(p)
    &&& w.hosts[key].apps[rport].shown.status is Active
        || w.hosts[key].apps[rport].shown.status is Pending
}

/// The claimed ports are those in use.
pub proof fn claimed_ports_are_in_use(w: worker::WorkerModel, p: u16)
    ensures
        worker::claimed(w.hosts).contains(p) <==> in_use(w, p),
{
    if worker::claimed(w.hosts).contains(p) {
        let key = choose|key: Seq<char>|
            w.hosts.contains_key(key) && host::claims(#[trigger] w.hosts[key]).contains(p);
        let h = w.hosts[key];
        let rport = choose|rport: u16|
            h.apps.contains_key(rport) && host::live_port(#[trigger] h.apps[rport]) == Some(p);
        assert(uses(w, key, rport, p));
    }
    if in_use(w, p) {
        let (key, rport) = choose|key: Seq<char>, rport: u16| #[trigger] uses(w, key, rport, p);
        let h = w.hosts[key];
        assert(host::live_port(h.apps[rport]) == Some(p));
        assert(host::claims(h).contains(p));
    }
}

/// The local ports that are thought of for an app: the one that it has or had, the one that is
/// remembered, and the one that it has on the remote.
pub open spec fn thought_of(w: worker::WorkerModel, key: Seq<char>, rport: u16) -> Seq<u16> {
    (match w.hosts[key].apps[rport].shown.lport {
        Some(p) => seq![p],
        None => Seq::empty(),
    }) + (match w.memory.get(key, rport) {
        Some(a) => match a.local_port {
            Some(p) => seq![p],
            None => Seq::empty(),
        },
        None => Seq::empty(),
    }) + seq![rport]
}

proof fn lemma_candidates(ps: Seq<u16>, taken: Set<u16>)
    ensures
        ports::candidates(ps, taken) == ps.filter(|p: u16| p >= 1024 && !taken.contains(p)),
    decreases ps.len(),
{
    reveal(Seq::filter);
    if ps.len() > 0 {
        lemma_candidates(ps.drop_last(), taken);
    }
}

/// The ports to try for an app are those thought of for it, in this order, without the privileged ones
/// and without those in use.
pub proof fn ports_are_tried_in_order(w: worker::WorkerModel, key: Seq<char>, rport: u16)
    ensures
        w.pick(key, rport) == (host::EffectModel::PickPort {
            key,
            rport,
            tries: thought_of(w, key, rport).filter(|p: u16| p >= 1024 && !in_use(w, p)),
        }),
{
    let taken = worker::claimed(w.hosts);
    let ps = thought_of(w, key, rport);
    assert(w.prefs(key, rport) =~= ps);
    lemma_candidates(ps, taken);
    let a = |p: u16| p >= 1024 && !taken.contains(p);
    let b = |p: u16| p >= 1024 && !in_use(w, p);
    assert forall|p: u16| #[trigger] a(p) == b(p) by {
        claimed_ports_are_in_use(w, p);
    }
    assert(a =~= b);
}

proof fn lemma_picked(w: worker::WorkerModel, key: Seq<char>, rports: Seq<u16>, rport: u16)
    requires
        rports.contains(rport),
        w.hosts[key].apps[rport].shown.tier == Tier::App,
        !w.hosts[key].apps[rport].shown.muted,
        w.hosts[key].apps[rport].shown.status is Off,
    ensures
        w.picks(key, rports).contains(w.pick(key, rport)),
    decreases rports.len(),
{
    let fewer = rports.drop_last();
    let before = w.picks(key, fewer);
    let all = w.picks(key, rports);
    if rports.last() == rport {
        assert(all[all.len() - 1] == w.pick(key, rport));
    } else {
        let j = choose|j: int| 0 <= j < rports.len() && rports[j] == rport;
        assert(fewer[j] == rport);
        lemma_picked(w, key, fewer, rport);
        let k = choose|k: int| 0 <= k < before.len() && before[k] == w.pick(key, rport);
        assert(all[k] == w.pick(key, rport));
    }
}

/// The app is a real one, idle, and not turned off by the user.
pub open spec fn waits(w: worker::WorkerModel, key: Seq<char>, rport: u16) -> bool {
    &&& w.hosts.contains_key(key)
    &&& w.hosts[key].apps.contains_key(rport)
    &&& w.hosts[key].apps[rport].shown.tier == Tier::App
    &&& !w.hosts[key].apps[rport].shown.muted
    &&& w.hosts[key].apps[rport].shown.status is Off
}

/// Forwards are started by themselves on the host: auto-forwarding is on, it is connected, and it is
/// not paused.
pub open spec fn forwards_by_itself(w: worker::WorkerModel, key: Seq<char>) -> bool {
    &&& w.auto
    &&& w.hosts.contains_key(key)
    &&& w.hosts[key].master is Ready
    &&& !w.memory.paused.contains(key)
}

/// The request for a local port for an app goes out.
pub open spec fn asks_for(
    w: worker::WorkerModel,
    effects: Seq<host::EffectModel>,
    key: Seq<char>,
    rport: u16,
) -> bool {
    effects.contains(
        host::EffectModel::PickPort {
            key,
            rport,
            tries: thought_of(w, key, rport).filter(|p: u16| p >= 1024 && !in_use(w, p)),
        },
    )
}

proof fn lemma_asked(w: worker::WorkerModel, key: Seq<char>, rport: u16)
    requires
        worker_laws::worker_ok(w),
        forwards_by_itself(w, key),
        waits(w, key, rport),
    ensures
        asks_for(w, w.auto_picks(key), key, rport),
{
    let apps = w.hosts[key].apps;
    assert(worker_laws::host_ok(w.memory, key, w.hosts[key]));
    maps::lemma_ordered_keys::<u16, host::AppWModel>(apps);
    let keys = maps::ordered_keys::<u16, host::AppWModel>(apps);
    assert(keys.to_set().contains(rport));
    lemma_picked(w, key, keys, rport);
    ports_are_tried_in_order(w, key, rport);
}

proof fn lemma_asked_within(
    w: worker::WorkerModel,
    before: Seq<host::EffectModel>,
    key: Seq<char>,
    rport: u16,
)
    requires
        worker_laws::worker_ok(w),
        forwards_by_itself(w, key),
        waits(w, key, rport),
    ensures
        asks_for(w, before + w.auto_picks(key), key, rport),
{
    lemma_asked(w, key, rport);
    let e = w.pick(key, rport);
    ports_are_tried_in_order(w, key, rport);
    let more = w.auto_picks(key);
    let k = choose|k: int| 0 <= k < more.len() && more[k] == e;
    assert((before + more)[before.len() + k] == e);
}

/// After a scan of a host on which forwards are started by themselves, a local port is asked for for
/// every real app that is idle and that the user did not turn off, whatever else is known of it:
/// pinned or not, with a note or without, with a process or without.
pub proof fn scans_forward_every_idle_app(
    w: worker::WorkerModel,
    key: Seq<char>,
    found: Seq<remote::RemoteModel>,
    now: u64,
    rport: u16,
)
    requires
        worker_laws::worker_ok(w),
        forwards_by_itself(w, key),
        waits(w.scan_done(key, Ok(found), now).0, key, rport),
    ensures
        ({
            let (after, effects) = w.scan_done(key, Ok(found), now);
            asks_for(after, effects, key, rport)
        }),
{
    let after = w.scan_done(key, Ok(found), now).0;
    worker_laws::step_keeps_worker_ok(
        w,
        worker::WMsgModel::ScanDone { key, result: Ok(found) },
        worker::Clock { mono: now, unix: 0 },
    );
    let effects = w.hosts[key].scanned(found, w.memory, now).1;
    lemma_asked_within(after, effects, key, rport);
}

/// The same holds when a host is resumed, ...
pub proof fn resuming_forwards_every_idle_app(w: worker::WorkerModel, key: Seq<char>, rport: u16)
    requires
        worker_laws::worker_ok(w),
        w.memory.paused.contains(key),
        forwards_by_itself(w.toggle_host(key).0, key),
        waits(w.toggle_host(key).0, key, rport),
    ensures
        ({
            let (after, effects) = w.toggle_host(key);
            asks_for(after, effects, key, rport)
        }),
{
    let after = w.toggle_host(key).0;
    worker_laws::step_keeps_worker_ok(
        w,
        worker::WMsgModel::Cmd(types::CmdModel::ToggleHost { host: key }),
        worker::Clock { mono: 0, unix: 0 },
    );
    lemma_asked_within(after, seq![host::EffectModel::Save], key, rport);
}

/// ... when a port is unhidden, ...
pub proof fn unhiding_forwards_every_idle_app(
    w: worker::WorkerModel,
    key: Seq<char>,
    hidden: u16,
    unix: u64,
    rport: u16,
)
    requires
        worker_laws::worker_ok(w),
        w.has_app(key, hidden),
        w.hosts[key].apps[hidden].shown.tier != Tier::App,
        forwards_by_itself(w, key),
        waits(w.toggle_hidden(key, hidden, unix).0, key, rport),
    ensures
        ({
            let (after, effects) = w.toggle_hidden(key, hidden, unix);
            asks_for(after, effects, key, rport)
        }),
{
    let after = w.toggle_hidden(key, hidden, unix).0;
    worker_laws::step_keeps_worker_ok(
        w,
        worker::WMsgModel::Cmd(types::CmdModel::ToggleHidden { host: key, rport: hidden }),
        worker::Clock { mono: 0, unix },
    );
    lemma_asked_within(after, seq![host::EffectModel::Save], key, rport);
}

proof fn lemma_all_asked(
    w: worker::WorkerModel,
    keys: Seq<Seq<char>>,
    key: Seq<char>,
    rport: u16,
)
    requires
        worker_laws::worker_ok(w),
        forwards_by_itself(w, key),
        waits(w, key, rport),
        keys.contains(key),
    ensures
        asks_for(w, w.all_picks(keys), key, rport),
    decreases keys.len(),
{
    let fewer = keys.drop_last();
    let before = w.all_picks(fewer);
    if keys.last() == key {
        lemma_asked_within(w, before, key, rport);
    } else {
        let j = choose|j: int| 0 <= j < keys.len() && keys[j] == key;
        assert(fewer[j] == key);
        lemma_all_asked(w, fewer, key, rport);
        ports_are_tried_in_order(w, key, rport);
        let e = w.pick(key, rport);
        let k = choose|k: int| 0 <= k < before.len() && before[k] == e;
        assert(w.all_picks(keys)[k] == e);
    }
}

/// ... and, on every host, when auto-forwarding is turned on.
pub proof fn turning_on_forwards_every_idle_app(
    w: worker::WorkerModel,
    key: Seq<char>,
    rport: u16,
)
    requires
        worker_laws::worker_ok(w),
        !w.auto,
        forwards_by_itself(w.toggle_auto().0, key),
        waits(w.toggle_auto().0, key, rport),
    ensures
        ({
            let (after, effects) = w.toggle_auto();
            &&& asks_for(after, effects, key, rport)
            &&& after == (worker::WorkerModel { auto: true, ..w })
            &&& effects[0] == host::EffectModel::Tell(types::EvModel::AutoMode(true))
        }),
{
    let after = w.toggle_auto().0;
    worker_laws::step_keeps_worker_ok(
        w,
        worker::WMsgModel::Cmd(types::CmdModel::ToggleAuto),
        worker::Clock { mono: 0, unix: 0 },
    );
    worker_laws::lemma_keys(after);
    assert(after.keys().contains(key));
    lemma_all_asked(after, after.keys(), key, rport);
    ports_are_tried_in_order(after, key, rport);
    let e = after.pick(key, rport);
    let more = after.all_picks(after.keys());
    let k = choose|k: int| 0 <= k < more.len() && more[k] == e;
    assert(w.toggle_auto().1[k + 1] == e);
}

/// Turning auto-forwarding off tells so and does nothing else.
pub proof fn turning_off_does_nothing_else(w: worker::WorkerModel)
    requires
        w.auto,
    ensures
        w.toggle_auto() == (
            worker::WorkerModel { auto: false, ..w },
            seq![host::EffectModel::Tell(types::EvModel::AutoMode(false))],
        ),
{
}

proof fn lemma_met(
    h: host::HostWModel,
    found: Seq<remote::RemoteModel>,
    memory: state::StateModel,
    i: int,
)
    requires
        0 <= i < found.len(),
        forall|j: int| 0 <= j < found.len() && j != i ==> (#[trigger] found[j]).port != found[i].port,
    ensures
        h.merged(found, memory).contains_key(found[i].port),
        h.merged(found, memory)[found[i].port] == h.met(h.apps, found[i], memory),
    decreases found.len(),
{
    let fewer = found.drop_last();
    if i < fewer.len() {
        assert forall|j: int| 0 <= j < fewer.len() && j != i implies (#[trigger] fewer[j]).port
            != fewer[i].port by {
            assert(fewer[j] == found[j]);
        }
        lemma_met(h, fewer, memory, i);
        assert(found[found.len() - 1].port != found[i].port);
    } else {
        lemma_unmet(h, fewer, memory, found[i].port);
    }
}

proof fn lemma_unmet(
    h: host::HostWModel,
    found: Seq<remote::RemoteModel>,
    memory: state::StateModel,
    p: u16,
)
    requires
        forall|j: int| 0 <= j < found.len() ==> (#[trigger] found[j]).port != p,
    ensures
        h.merged(found, memory).contains_key(p) <==> h.apps.contains_key(p),
        h.apps.contains_key(p) ==> h.merged(found, memory)[p] == h.apps[p],
    decreases found.len(),
{
    if found.len() > 0 {
        let fewer = found.drop_last();
        assert forall|j: int| 0 <= j < fewer.len() implies (#[trigger] fewer[j]).port != p by {
            assert(fewer[j] == found[j]);
        }
        lemma_unmet(h, fewer, memory, p);
        assert(found[found.len() - 1].port != p);
    }
}

/// The tier that an app gets: what the user said of it, or else whether it is a system service.
pub open spec fn due_tier(
    h: host::HostWModel,
    f: remote::RemoteModel,
    memory: state::StateModel,
) -> (Tier, bool) {
    let said = match memory.get(h.key, f.port) {
        Some(a) => a.tier,
        None => None,
    };
    if said == Some("app"@) {
        (Tier::App, true)
    } else if said == Some("bg"@) {
        (Tier::Bg, true)
    } else if remote::system_service(f.port, f.process, h.sshd_port) {
        (Tier::System, false)
    } else {
        (Tier::App, false)
    }
}

/// An app that a scan has found for the first time is shown as it was found, with the note, the pin
/// and the off switch that are remembered of it. It is idle, unless the user's own session forwards
/// its port already.
pub proof fn new_apps_are_as_found(
    w: worker::WorkerModel,
    key: Seq<char>,
    found: Seq<remote::RemoteModel>,
    now: u64,
    i: int,
)
    requires
        w.hosts.contains_key(key),
        0 <= i < found.len(),
        forall|j: int| 0 <= j < found.len() && j != i ==> (#[trigger] found[j]).port != found[i].port,
        !w.has_app(key, found[i].port),
    ensures
        ({
            let f = found[i];
            let h = w.hosts[key];
            let after = w.scan_done(key, Ok(found), now).0;
            let app = after.hosts[key].apps[f.port];
            let said = w.memory.get(h.key, f.port);
            &&& after.has_app(key, f.port)
            &&& app.shown.rport == f.port
            &&& app.shown.addr == f.addr
            &&& app.shown.process == f.process
            &&& app.shown.pid == f.pid
            &&& app.shown.cmdline == f.cmdline
            &&& (app.shown.tier, app.shown.overridden) == due_tier(h, f, w.memory)
            &&& said matches Some(a) ==> app.shown.comment == a.comment && app.shown.pinned == a.pinned
                && app.shown.muted == a.muted
            &&& said is None ==> app.shown.comment is None && !app.shown.pinned && !app.shown.muted
            &&& !app.retried_new_port
            &&& h.ext_forwards.contains_key(f.port) ==> app.shown.status is External
                && app.shown.lport == Some(h.ext_forwards[f.port])
            &&& !h.ext_forwards.contains_key(f.port) ==> app.shown.status is Off
                && app.shown.lport is None
        }),
{
    lemma_met(w.hosts[key], found, w.memory, i);
    assert(host::ports_of(found).contains(found[i].port));
    lemma_tier_names();
}

proof fn lemma_tier_names()
    ensures
        "app"@ != "bg"@,
{
    reveal_strlit("app");
    reveal_strlit("bg");
    assert("app"@.len() != "bg"@.len());
}

/// An app that a scan finds again keeps what the scan cannot tell: the note, the pin, the off switch,
/// and the forward that was asked for here. What the scan tells replaces what was known; what it does
/// not tell stays known. The user's own forward of its port takes over where none was asked for here,
/// and when that forward is gone the app is idle again.
pub proof fn known_apps_are_kept(
    w: worker::WorkerModel,
    key: Seq<char>,
    found: Seq<remote::RemoteModel>,
    now: u64,
    i: int,
)
    requires
        0 <= i < found.len(),
        forall|j: int| 0 <= j < found.len() && j != i ==> (#[trigger] found[j]).port != found[i].port,
        w.has_app(key, found[i].port),
    ensures
        ({
            let f = found[i];
            let h = w.hosts[key];
            let before = h.apps[f.port];
            let after = w.scan_done(key, Ok(found), now).0;
            let app = after.hosts[key].apps[f.port];
            let ext = h.ext_forwards.contains_key(f.port);
            &&& after.has_app(key, f.port)
            &&& app.shown.rport == before.shown.rport
            &&& app.shown.addr == f.addr
            &&& app.shown.process == (if f.process is Some {
                f.process
            } else {
                before.shown.process
            })
            &&& app.shown.pid == (if f.pid is Some {
                f.pid
            } else {
                before.shown.pid
            })
            &&& app.shown.cmdline == (if f.cmdline is Some {
                f.cmdline
            } else {
                before.shown.cmdline
            })
            &&& (app.shown.tier, app.shown.overridden) == due_tier(h, f, w.memory)
            &&& app.shown.comment == before.shown.comment
            &&& app.shown.pinned == before.shown.pinned
            &&& app.shown.muted == before.shown.muted
            &&& app.retried_new_port == before.retried_new_port
            &&& before.shown.status is Active || before.shown.status is Pending ==> app.shown.status
                == before.shown.status && app.shown.lport == before.shown.lport
            &&& ext && !(before.shown.status is Active || before.shown.status is Pending)
                ==> app.shown.status is External && app.shown.lport == Some(h.ext_forwards[f.port])
            &&& !ext && before.shown.status is External ==> app.shown.status is Off
                && app.shown.lport is None
            &&& !ext && (before.shown.status is Off || before.shown.status is Error)
                ==> app.shown.status == before.shown.status && app.shown.lport == before.shown.lport
        }),
{
    lemma_met(w.hosts[key], found, w.memory, i);
    assert(host::ports_of(found).contains(found[i].port));
    lemma_tier_names();
}

/// A scan changes nothing but the host that was scanned, and of it only its apps and what is known of
/// the scan: when it was, and that it went well.
pub proof fn scans_touch_one_host(
    w: worker::WorkerModel,
    key: Seq<char>,
    found: Seq<remote::RemoteModel>,
    now: u64,
)
    ensures
        ({
            let after = w.scan_done(key, Ok(found), now).0;
            &&& !w.hosts.contains_key(key) ==> w.scan_done(key, Ok(found), now) == (
                w,
                Seq::<host::EffectModel>::empty(),
            )
            &&& w.hosts.contains_key(key) ==> after == (worker::WorkerModel {
                hosts: w.hosts.insert(key, after.hosts[key]),
                ..w
            })
            &&& w.hosts.contains_key(key) ==> after.hosts[key] == (host::HostWModel {
                apps: after.hosts[key].apps,
                scanning: false,
                last_scan: Some(now),
                scan_err: None,
                ..w.hosts[key]
            })
        }),
{
}

/// A scan that failed is told, and changes no app; where the host is connected it is found out whether
/// its master still lives.
pub proof fn failed_scans_are_told(w: worker::WorkerModel, key: Seq<char>, err: Seq<char>, now: u64)
    requires
        w.hosts.contains_key(key),
    ensures
        ({
            let h = w.hosts[key];
            let (after, effects) = w.scan_done(key, Err(err), now);
            &&& after == (worker::WorkerModel {
                hosts: w.hosts.insert(
                    key,
                    host::HostWModel {
                        scanning: false,
                        last_scan: Some(now),
                        scan_err: Some(err),
                        ..h
                    },
                ),
                ..w
            })
            &&& h.master is Ready ==> effects == seq![
                host::EffectModel::CheckAlive { key: h.key, command: h.master->Ready_0.r.check() },
            ]
            &&& !(h.master is Ready) ==> effects.len() == 0
        }),
{
}

/// The worker with one app and its entry of the memory changed, and nothing else.
pub open spec fn only_app_changed(
    w: worker::WorkerModel,
    after: worker::WorkerModel,
    key: Seq<char>,
    rport: u16,
) -> bool {
    let h = w.hosts[key];
    &&& after.auto == w.auto
    &&& after.interval == w.interval
    &&& after.answers == w.answers
    &&& after.memory.paused == w.memory.paused
    &&& forall|k: Seq<char>, p: u16|
        (k, p) != (key, rport) ==> #[trigger] after.memory.get(k, p) == w.memory.get(k, p)
    &&& after.hosts.dom() =~= w.hosts.dom()
    &&& forall|k: Seq<char>| k != key && w.hosts.contains_key(k) ==> #[trigger] after.hosts[k]
        == w.hosts[k]
    &&& w.hosts.contains_key(key) ==> after.hosts[key] == (host::HostWModel {
        apps: after.hosts[key].apps,
        ..h
    })
    &&& w.hosts.contains_key(key) ==> after.hosts[key].apps.dom() =~= h.apps.dom()
    &&& forall|p: u16|
        w.hosts.contains_key(key) && p != rport && h.apps.contains_key(p)
            ==> #[trigger] after.hosts[key].apps[p] == h.apps[p]
}

/// What is done about one app leaves every other app, every other host and everything else that is
/// remembered.
pub proof fn apps_are_changed_alone(
    w: worker::WorkerModel,
    key: Seq<char>,
    rport: u16,
    lport: u16,
    pin: bool,
    note: Seq<char>,
    user: Option<Option<Seq<char>>>,
    free: Seq<u16>,
    ephemeral: Option<u16>,
    result: Result<(), Seq<char>>,
    unix: u64,
)
    ensures
        only_app_changed(w, w.assign(key, rport, lport, user, unix).0, key, rport),
        only_app_changed(w, w.toggle(key, rport, unix).0, key, rport),
        only_app_changed(w, w.set_comment(key, rport, note, unix).0, key, rport),
        only_app_changed(w, w.toggle_hidden(key, rport, unix).0, key, rport),
        only_app_changed(w, w.start_forward(key, rport, free, ephemeral).0, key, rport),
        only_app_changed(w, w.fwd_done(key, rport, lport, pin, result, unix).0, key, rport),
{
    lemma_assign_alone(w, key, rport, lport, user, unix);
    lemma_toggle_alone(w, key, rport, unix);
    lemma_note_alone(w, key, rport, note, unix);
    lemma_hidden_alone(w, key, rport, unix);
    lemma_start_alone(w, key, rport, free, ephemeral);
    lemma_done_alone(w, key, rport, lport, pin, result, unix);
}

proof fn lemma_assign_alone(
    w: worker::WorkerModel,
    key: Seq<char>,
    rport: u16,
    lport: u16,
    user: Option<Option<Seq<char>>>,
    unix: u64,
)
    ensures
        only_app_changed(w, w.assign(key, rport, lport, user, unix).0, key, rport),
{
}

proof fn lemma_toggle_alone(w: worker::WorkerModel, key: Seq<char>, rport: u16, unix: u64)
    ensures
        only_app_changed(w, w.toggle(key, rport, unix).0, key, rport),
{
}

proof fn lemma_note_alone(
    w: worker::WorkerModel,
    key: Seq<char>,
    rport: u16,
    note: Seq<char>,
    unix: u64,
)
    ensures
        only_app_changed(w, w.set_comment(key, rport, note, unix).0, key, rport),
{
}

proof fn lemma_hidden_alone(w: worker::WorkerModel, key: Seq<char>, rport: u16, unix: u64)
    ensures
        only_app_changed(w, w.toggle_hidden(key, rport, unix).0, key, rport),
{
}

proof fn lemma_start_alone(
    w: worker::WorkerModel,
    key: Seq<char>,
    rport: u16,
    free: Seq<u16>,
    ephemeral: Option<u16>,
)
    ensures
        only_app_changed(w, w.start_forward(key, rport, free, ephemeral).0, key, rport),
{
}

proof fn lemma_done_alone(
    w: worker::WorkerModel,
    key: Seq<char>,
    rport: u16,
    lport: u16,
    pin: bool,
    result: Result<(), Seq<char>>,
    unix: u64,
)
    ensures
        only_app_changed(w, w.fwd_done(key, rport, lport, pin, result, unix).0, key, rport),
{
}

/// The command that sets a forward up between these ports, or takes it away, on the master of a host.
pub open spec fn ssh_forward(
    h: host::HostWModel,
    op: Seq<char>,
    lport: u16,
    rport: u16,
) -> util::InvocationModel {
    let m = h.master->Ready_0.r;
    util::InvocationModel {
        program: "ssh"@,
        args: seq![
            "-F"@,
            "/dev/null"@,
            "-o"@,
            "BatchMode=yes"@,
            "-o"@,
            "ProxyCommand=false"@,
            "-S"@,
            m.socket,
            "-O"@,
            op,
            "-L"@,
            "127.0.0.1:"@ + text::decimal(lport as nat) + ":localhost:"@ + text::decimal(
                rport as nat,
            ),
            m.dest,
        ],
        stdin: None,
        timeout_secs: 10,
    }
}

pub(crate) proof fn lemma_ssh_forward(h: host::HostWModel, op: Seq<char>, lport: u16, rport: u16)
    ensures
        h.master->Ready_0.r.mux(op, lport, rport) == ssh_forward(h, op, lport, rport),
{
    let m = h.master->Ready_0.r;
    assert(m.mux(op, lport, rport).args =~= ssh_forward(h, op, lport, rport).args);
}

/// Once it is known which ports are free, an idle app gets the first of those thought of for it that
/// is free, neither privileged nor in use, or else the ephemeral one; the forward on it is asked for
/// and nothing else about the app changes. Without any port the app says so.
pub proof fn idle_apps_get_a_port(
    w: worker::WorkerModel,
    key: Seq<char>,
    rport: u16,
    free: Seq<u16>,
    ephemeral: Option<u16>,
)
    requires
        w.hosts.contains_key(key),
        w.hosts[key].master is Ready,
        !w.memory.paused.contains(key),
        w.hosts[key].apps.contains_key(rport),
        w.hosts[key].apps[rport].shown.status is Off,
        !w.hosts[key].apps[rport].shown.muted,
    ensures
        ({
            let before = w.hosts[key].apps[rport];
            let (after, effects) = w.start_forward(key, rport, free, ephemeral);
            let app = after.hosts[key].apps[rport];
            let fit = |q: u16| q >= 1024 && !in_use(w, q) && free.contains(q);
            let fits = thought_of(w, key, rport).filter(fit);
            let port = if fits.len() > 0 {
                Some(fits[0])
            } else {
                ephemeral
            };
            &&& port matches Some(p) ==> effects == seq![
                host::EffectModel::Forward {
                    key,
                    rport,
                    lport: p,
                    pin: before.shown.pinned,
                    first: None,
                    command: ssh_forward(w.hosts[key], "forward"@, p, rport),
                },
            ] && app == (host::AppWModel {
                shown: types::AppModel {
                    status: types::FwdModel::Pending,
                    lport: Some(p),
                    ..before.shown
                },
                ..before
            })
            &&& port is None ==> effects.len() == 0 && app == (host::AppWModel {
                shown: types::AppModel {
                    status: types::FwdModel::Error("no free local port"@),
                    ..before.shown
                },
                ..before
            })
            &&& after.memory == w.memory
        }),
{
    let taken = worker::claimed(w.hosts);
    let ps = thought_of(w, key, rport);
    assert(w.prefs(key, rport) =~= ps);
    let a = |q: u16| q >= 1024 && !taken.contains(q) && free.contains(q);
    let fit = |q: u16| q >= 1024 && !in_use(w, q) && free.contains(q);
    assert forall|q: u16| #[trigger] a(q) == fit(q) by {
        claimed_ports_are_in_use(w, q);
    }
    assert(a =~= fit);
    lemma_first_fit(ps, taken, free, ephemeral);
    match ports::picked(ps, taken, free, ephemeral) {
        Some(q) => {
            lemma_ssh_forward(w.hosts[key], "forward"@, q, rport);
        },
        None => {},
    }
}

proof fn lemma_first_fit(
    ps: Seq<u16>,
    taken: Set<u16>,
    free: Seq<u16>,
    ephemeral: Option<u16>,
)
    ensures
        ({
            let fits = ps.filter(|q: u16| q >= 1024 && !taken.contains(q) && free.contains(q));
            ports::picked(ps, taken, free, ephemeral) == (if fits.len() > 0 {
                Some(fits[0])
            } else {
                ephemeral
            })
        }),
    decreases ps.len(),
{
    let fit = |q: u16| q >= 1024 && !taken.contains(q) && free.contains(q);
    reveal(Seq::filter);
    if ps.len() > 0 {
        let rest = ps.drop_first();
        lemma_first_fit(rest, taken, free, ephemeral);
        let one = seq![ps[0]];
        assert(ps =~= one + rest);
        Seq::filter_distributes_over_add(one, rest, fit);
        assert(one.drop_last() =~= Seq::<u16>::empty());
        assert(Seq::<u16>::empty().filter(fit) =~= Seq::<u16>::empty());
        if fit(ps[0]) {
            assert(one.filter(fit) =~= one);
        } else {
            assert(one.filter(fit) =~= Seq::<u16>::empty());
            assert(Seq::<u16>::empty() + rest.filter(fit) =~= rest.filter(fit));
        }
    }
}

/// No forward is started for an app that is not idle or that the user turned off, nor on a host that
/// is gone, not connected, or paused.
pub proof fn other_apps_get_no_port(
    w: worker::WorkerModel,
    key: Seq<char>,
    rport: u16,
    free: Seq<u16>,
    ephemeral: Option<u16>,
)
    requires
        !w.hosts.contains_key(key) || !(w.hosts[key].master is Ready) || w.memory.paused.contains(key)
            || !w.hosts[key].apps.contains_key(rport) || !(w.hosts[key].apps[rport].shown.status is Off)
            || w.hosts[key].apps[rport].shown.muted,
    ensures
        w.start_forward(key, rport, free, ephemeral) == (w, Seq::<host::EffectModel>::empty()),
{
}

/// A forward that came to stand makes its app active, pinned as it was asked for, and is remembered
/// with its port, its process and the time; the note, the off switch and the tier that are remembered
/// stay as they are.
pub proof fn forwards_that_stand_are_remembered(
    w: worker::WorkerModel,
    key: Seq<char>,
    rport: u16,
    lport: u16,
    pin: bool,
    unix: u64,
)
    requires
        w.hosts.contains_key(key),
        w.hosts[key].apps.contains_key(rport),
        w.hosts[key].apps[rport].shown.lport == Some(lport),
        !w.memory.paused.contains(key),
    ensures
        ({
            let before = w.hosts[key].apps[rport];
            let (after, effects) = w.fwd_done(key, rport, lport, pin, Ok(()), unix);
            let said = w.memory.get(key, rport);
            let now = after.memory.get(key, rport);
            &&& effects == seq![host::EffectModel::Save]
            &&& after.hosts[key].apps[rport] == (host::AppWModel {
                shown: types::AppModel {
                    status: types::FwdModel::Active,
                    pinned: pin,
                    ..before.shown
                },
                retried_new_port: false,
            })
            &&& now is Some
            &&& now->0.local_port == Some(lport)
            &&& now->0.process == before.shown.process
            &&& now->0.pinned == pin
            &&& now->0.updated_at == unix
            &&& said matches Some(a) ==> now->0.muted == a.muted && now->0.comment == a.comment
                && now->0.tier == a.tier
            &&& said is None ==> !now->0.muted && now->0.comment is None && now->0.tier is None
        }),
{
}

/// A forward that was superseded meanwhile, because its app is gone or has another local port or the
/// host was paused, is cancelled if it came to stand, and changes nothing.
pub proof fn superseded_forwards_are_cancelled(
    w: worker::WorkerModel,
    key: Seq<char>,
    rport: u16,
    lport: u16,
    pin: bool,
    result: Result<(), Seq<char>>,
    unix: u64,
)
    requires
        !w.hosts.contains_key(key) || !w.hosts[key].apps.contains_key(rport)
            || w.hosts[key].apps[rport].shown.lport != Some(lport) || w.memory.paused.contains(key),
    ensures
        ({
            let (after, effects) = w.fwd_done(key, rport, lport, pin, result, unix);
            &&& after == w
            &&& result is Ok && w.hosts.contains_key(key) && w.hosts[key].master is Ready ==> effects
                == seq![
                host::EffectModel::Run(ssh_forward(w.hosts[key], "cancel"@, lport, rport)),
            ]
            &&& !(result is Ok && w.hosts.contains_key(key) && w.hosts[key].master is Ready)
                ==> effects.len() == 0
        }),
{
    lemma_ssh_forward(w.hosts[key], "cancel"@, lport, rport);
}

/// A failure to bind, one whose words speak of binding, an address or listening.
pub open spec fn speaks_of_binding(err: Seq<char>) -> bool {
    text::contains_text(err, "bind"@) || text::contains_text(err, "address"@) || text::contains_text(
        err,
        "listen"@,
    )
}

/// A forward that failed is shown with its reason and keeps its port; only the first failure to bind
/// makes its app idle again, without a port, so that another is looked for. Nothing is remembered of
/// failures.
pub proof fn failed_forwards_are_shown(
    w: worker::WorkerModel,
    key: Seq<char>,
    rport: u16,
    lport: u16,
    pin: bool,
    err: Seq<char>,
    unix: u64,
)
    requires
        w.hosts.contains_key(key),
        w.hosts[key].apps.contains_key(rport),
        w.hosts[key].apps[rport].shown.lport == Some(lport),
        !w.memory.paused.contains(key),
    ensures
        ({
            let before = w.hosts[key].apps[rport];
            let (after, effects) = w.fwd_done(key, rport, lport, pin, Err(err), unix);
            let app = after.hosts[key].apps[rport];
            let again = speaks_of_binding(err) && !before.retried_new_port;
            &&& after.memory == w.memory
            &&& again ==> app == (host::AppWModel {
                shown: types::AppModel {
                    status: types::FwdModel::Off,
                    lport: None,
                    ..before.shown
                },
                retried_new_port: true,
            })
            &&& !again ==> effects.len() == 0 && app == (host::AppWModel {
                shown: types::AppModel { status: types::FwdModel::Error(err), ..before.shown },
                ..before
            })
        }),
{
}

/// After the first failure to bind another port is asked for, where forwards are started by
/// themselves and the app waits for one.
pub proof fn failures_to_bind_look_for_another_port(
    w: worker::WorkerModel,
    key: Seq<char>,
    rport: u16,
    lport: u16,
    pin: bool,
    err: Seq<char>,
    unix: u64,
)
    requires
        worker_laws::worker_ok(w),
        forwards_by_itself(w, key),
        w.hosts[key].apps.contains_key(rport),
        w.hosts[key].apps[rport].shown.lport == Some(lport),
        w.hosts[key].apps[rport].shown.tier == Tier::App,
        !w.hosts[key].apps[rport].shown.muted,
        !w.hosts[key].apps[rport].retried_new_port,
        speaks_of_binding(err),
    ensures
        ({
            let (after, effects) = w.fwd_done(key, rport, lport, pin, Err(err), unix);
            asks_for(after, effects, key, rport)
        }),
{
    let after = w.fwd_done(key, rport, lport, pin, Err(err), unix).0;
    worker_laws::step_keeps_worker_ok(
        w,
        worker::WMsgModel::FwdDone { key, rport, lport, pin, result: Err(err) },
        worker::Clock { mono: 0, unix },
    );
    lemma_asked(after, key, rport);
}

/// Turning the forward of an app off takes it away, and that the user did so is shown and remembered;
/// the port that it had stays with it.
pub proof fn turning_off_cancels(
    w: worker::WorkerModel,
    key: Seq<char>,
    rport: u16,
    unix: u64,
    lport: u16,
)
    requires
        w.hosts.contains_key(key),
        w.hosts[key].master is Ready,
        w.hosts[key].apps.contains_key(rport),
        w.hosts[key].apps[rport].shown.status is Active
            || w.hosts[key].apps[rport].shown.status is Pending,
        w.hosts[key].apps[rport].shown.lport == Some(lport),
    ensures
        ({
            let before = w.hosts[key].apps[rport];
            let (after, effects) = w.toggle(key, rport, unix);
            let cancel = host::EffectModel::Run(ssh_forward(w.hosts[key], "cancel"@, lport, rport));
            &&& after.hosts[key].apps[rport] == (host::AppWModel {
                shown: types::AppModel {
                    muted: true,
                    status: types::FwdModel::Off,
                    ..before.shown
                },
                ..before
            })
            &&& after.memory.get(key, rport) is Some && after.memory.get(key, rport)->0.muted
            &&& effects == (if w.memory.get(key, rport) matches Some(a) && a.muted {
                seq![cancel]
            } else {
                seq![host::EffectModel::Save, cancel]
            })
        }),
{
    lemma_ssh_forward(w.hosts[key], "cancel"@, lport, rport);
    let effects = w.toggle(key, rport, unix).1;
    let cancel = host::EffectModel::Run(ssh_forward(w.hosts[key], "cancel"@, lport, rport));
    assert(effects =~= (if w.memory.get(key, rport) matches Some(a) && a.muted {
        seq![cancel]
    } else {
        seq![host::EffectModel::Save, cancel]
    }));
}

/// Turning the forward of an app on makes it idle, asks for a port for it whatever it is, and forgets
/// that the user had turned it off. It is refused on a paused host, for the user's own forwards, and
/// on a host that is not connected, with the reason told and nothing changed.
pub proof fn turning_on_asks_for_a_port(w: worker::WorkerModel, key: Seq<char>, rport: u16, unix: u64)
    requires
        w.hosts.contains_key(key),
        w.hosts[key].apps.contains_key(rport),
        !(w.hosts[key].apps[rport].shown.status is Active
            || w.hosts[key].apps[rport].shown.status is Pending) || !(w.hosts[key].master is Ready),
    ensures
        ({
            let before = w.hosts[key].apps[rport];
            let (after, effects) = w.toggle(key, rport, unix);
            let connected = w.hosts[key].master is Ready;
            let theirs = before.shown.status is External;
            let paused = w.memory.paused.contains(key);
            &&& connected && !theirs && !paused ==> {
                &&& after.hosts[key].apps[rport] == (host::AppWModel {
                    shown: types::AppModel {
                        muted: false,
                        status: types::FwdModel::Off,
                        ..before.shown
                    },
                    retried_new_port: false,
                })
                &&& after.memory.get(key, rport) matches Some(a) ==> !a.muted
                &&& asks_for(after, effects, key, rport)
            }
            &&& !(connected && !theirs && !paused) ==> after == w
            &&& !connected ==> effects == seq![host::toast(key + ": not connected yet"@)]
            &&& connected && theirs ==> effects == seq![
                host::toast(
                    "remote :"@ + text::decimal(rport as nat)
                        + " is forwarded by your own ssh session (-L/LocalForward) — close it there"@,
                ),
            ]
            &&& connected && !theirs && paused ==> effects == seq![
                host::toast(key + ": forwarding is paused"@),
            ]
        }),
{
    let (after, effects) = w.toggle(key, rport, unix);
    if w.hosts[key].master is Ready && !(w.hosts[key].apps[rport].shown.status is External)
        && !w.memory.paused.contains(key) {
        ports_are_tried_in_order(after, key, rport);
        assert(effects[effects.len() - 1] == after.pick(key, rport));
    }
}

/// Assigning a port is refused, with the reason told and nothing changed, where the host is not
/// connected or paused, where the user's own session forwards the app, and where the port is in use by
/// another forward or by another process.
pub proof fn assignments_may_be_refused(
    w: worker::WorkerModel,
    key: Seq<char>,
    rport: u16,
    lport: u16,
    user: Option<Option<Seq<char>>>,
    unix: u64,
)
    requires
        w.hosts.contains_key(key),
        w.hosts[key].apps.contains_key(rport),
    ensures
        ({
            let app = w.hosts[key].apps[rport];
            let result = w.assign(key, rport, lport, user, unix);
            let told = |msg: Seq<char>| result == (w, seq![host::toast(msg)]);
            let connected = w.hosts[key].master is Ready;
            let theirs = app.shown.status is External;
            let paused = w.memory.paused.contains(key);
            let own = uses(w, key, rport, lport);
            &&& !connected ==> told(key + ": not connected yet"@)
            &&& connected && theirs ==> told(
                "remote :"@ + text::decimal(rport as nat)
                    + " is already forwarded by your own ssh session (-L/LocalForward) — manage it there"@,
            )
            &&& connected && !theirs && paused ==> told(key + ": forwarding is paused"@)
            &&& connected && !theirs && !paused && !own && in_use(w, lport) ==> told(
                "can't use "@ + text::decimal(lport as nat)
                    + ": already forwarding another app on it"@,
            )
            &&& connected && !theirs && !paused && !own && !in_use(w, lport) && user is None ==> result
                == (w, seq![host::EffectModel::CheckPort { key, rport, lport }])
            &&& connected && !theirs && !paused && !own && !in_use(w, lport) && user is Some
                && user->0 is Some ==> told(
                "can't use "@ + text::decimal(lport as nat) + ": "@ + user->0->0,
            )
        }),
{
    claimed_ports_are_in_use(w, lport);
    let app = w.hosts[key].apps[rport];
    assert(host::live_port(app) == Some(lport) <==> uses(w, key, rport, lport));
    reveal_strlit(": ");
    reveal_strlit(": already forwarding another app on it");
    reveal_strlit("already forwarding another app on it");
    let d = "can't use "@ + text::decimal(lport as nat);
    assert(d + ": "@ + "already forwarding another app on it"@ =~= d
        + ": already forwarding another app on it"@);
}

/// Assigning a free port moves the forward of the app there, whatever its tier: the one that it has is
/// cancelled first, it is pinned and no longer off, and the forward is asked for. Assigning the port
/// that it is active on only pins it, and remembers that.
pub proof fn assignments_move_the_forward(
    w: worker::WorkerModel,
    key: Seq<char>,
    rport: u16,
    lport: u16,
    unix: u64,
)
    requires
        w.hosts.contains_key(key),
        w.hosts[key].master is Ready,
        w.hosts[key].apps.contains_key(rport),
        !(w.hosts[key].apps[rport].shown.status is External),
        !w.memory.paused.contains(key),
        uses(w, key, rport, lport) || !in_use(w, lport),
    ensures
        ({
            let before = w.hosts[key].apps[rport];
            let (after, effects) = w.assign(key, rport, lport, Some(None), unix);
            let app = after.hosts[key].apps[rport];
            let said = w.memory.get(key, rport);
            let now = after.memory.get(key, rport);
            let live = before.shown.status is Active || before.shown.status is Pending;
            let same = before.shown.status is Active && before.shown.lport == Some(lport);
            &&& !same ==> {
                &&& app == (host::AppWModel {
                    shown: types::AppModel {
                        pinned: true,
                        muted: false,
                        status: types::FwdModel::Pending,
                        lport: Some(lport),
                        ..before.shown
                    },
                    retried_new_port: false,
                })
                &&& now matches Some(a) ==> !a.muted
                &&& effects.len() > 0
                &&& effects.last() == (host::EffectModel::Forward {
                    key,
                    rport,
                    lport,
                    pin: true,
                    first: if live && before.shown.lport is Some {
                        Some(ssh_forward(w.hosts[key], "cancel"@, before.shown.lport->0, rport))
                    } else {
                        None
                    },
                    command: ssh_forward(w.hosts[key], "forward"@, lport, rport),
                })
            }
            &&& same ==> {
                &&& app == (host::AppWModel {
                    shown: types::AppModel { pinned: true, ..before.shown },
                    ..before
                })
                &&& now is Some && now->0.local_port == Some(lport) && now->0.pinned
                    && now->0.updated_at == unix && now->0.process == before.shown.process
                &&& said matches Some(a) ==> now->0.muted == a.muted && now->0.comment == a.comment
                    && now->0.tier == a.tier
                &&& effects == seq![
                    host::EffectModel::Save,
                    host::toast("port "@ + text::decimal(lport as nat) + " pinned"@),
                ]
            }
        }),
{
    claimed_ports_are_in_use(w, lport);
    let app = w.hosts[key].apps[rport];
    assert(host::live_port(app) == Some(lport) <==> uses(w, key, rport, lport));
    lemma_ssh_forward(w.hosts[key], "forward"@, lport, rport);
    if app.shown.lport is Some {
        lemma_ssh_forward(w.hosts[key], "cancel"@, app.shown.lport->0, rport);
    }
}

/// What is asked of an app or a host that is not there changes nothing and does nothing.
pub proof fn what_is_not_there_is_left(
    w: worker::WorkerModel,
    key: Seq<char>,
    rport: u16,
    lport: u16,
    note: Seq<char>,
    user: Option<Option<Seq<char>>>,
    unix: u64,
)
    requires
        !w.hosts.contains_key(key) || !w.hosts[key].apps.contains_key(rport),
    ensures
        w.assign(key, rport, lport, user, unix).0 == w,
        w.toggle(key, rport, unix).0 == w,
        w.set_comment(key, rport, note, unix) == (w, Seq::<host::EffectModel>::empty()),
        w.toggle_hidden(key, rport, unix) == (w, Seq::<host::EffectModel>::empty()),
        !w.hosts.contains_key(key) ==> w.toggle_host(key) == (w, Seq::<host::EffectModel>::empty()),
        !w.hosts.contains_key(key) || w.hosts[key].master is Ready ==> w.toggle(key, rport, unix).1.len()
            == 0 && w.assign(key, rport, lport, user, unix).1.len() == 0,
{
}

/// Hiding and unhiding, and notes, change what they are about in the app and in the memory, and what
/// the user chose is saved.
pub proof fn choices_are_remembered(
    w: worker::WorkerModel,
    key: Seq<char>,
    rport: u16,
    note: Seq<char>,
    unix: u64,
)
    requires
        w.hosts.contains_key(key),
        w.hosts[key].apps.contains_key(rport),
    ensures
        ({
            let before = w.hosts[key].apps[rport];
            let said = w.memory.entry(key, rport);
            let (hid, e1) = w.toggle_hidden(key, rport, unix);
            let (noted, e2) = w.set_comment(key, rport, note, unix);
            let hides = before.shown.tier == Tier::App;
            let kept = if note.len() > 0 {
                Some(note)
            } else {
                None
            };
            &&& hid.hosts[key].apps[rport] == (host::AppWModel {
                shown: types::AppModel {
                    tier: if hides {
                        Tier::Bg
                    } else {
                        Tier::App
                    },
                    overridden: true,
                    ..before.shown
                },
                ..before
            })
            &&& hid.memory.get(key, rport) == Some(
                state::AssignmentModel {
                    tier: Some(
                        if hides {
                            "bg"@
                        } else {
                            "app"@
                        },
                    ),
                    updated_at: unix,
                    ..said
                },
            )
            &&& e1.len() > 0 && e1[0] == host::EffectModel::Save
            &&& hides ==> e1.len() == 1
            &&& noted.hosts[key].apps[rport] == (host::AppWModel {
                shown: types::AppModel { comment: kept, ..before.shown },
                ..before
            })
            &&& noted.memory.get(key, rport) == Some(
                state::AssignmentModel { comment: kept, updated_at: unix, ..said },
            )
            &&& e2 == seq![host::EffectModel::Save]
        }),
{
}

/// Pausing a host takes every forward away that stands or is under way on it, makes their apps idle
/// without forgetting their ports, leaves all others, and is remembered.
pub proof fn pausing_cancels_every_forward(w: worker::WorkerModel, key: Seq<char>, rport: u16)
    requires
        worker_laws::worker_ok(w),
        w.hosts.contains_key(key),
        !w.memory.paused.contains(key),
    ensures
        ({
            let h = w.hosts[key];
            let before = h.apps[rport];
            let live = before.shown.status is Active || before.shown.status is Pending;
            let (after, effects) = w.toggle_host(key);
            let app = after.hosts[key].apps[rport];
            &&& after.memory.paused == w.memory.paused.insert(key)
            &&& after.memory.assignments == w.memory.assignments
            &&& effects.len() > 0 && effects[0] == host::EffectModel::Save
            &&& after.hosts[key].apps.dom() == h.apps.dom()
            &&& h.apps.contains_key(rport) && live ==> app == (host::AppWModel {
                shown: types::AppModel { status: types::FwdModel::Off, ..before.shown },
                ..before
            })
            &&& h.apps.contains_key(rport) && !live ==> app == before
            &&& h.apps.contains_key(rport) && live && h.master is Ready ==> effects.contains(
                host::EffectModel::Run(
                    ssh_forward(h, "cancel"@, before.shown.lport->0, rport),
                ),
            )
            &&& forall|k: Seq<char>| k != key ==> #[trigger] after.hosts[k] == w.hosts[k]
        }),
{
    let h = w.hosts[key];
    let before = h.apps[rport];
    let (after, effects) = w.toggle_host(key);
    assert(worker_laws::host_ok(w.memory, key, h));
    assert(after.hosts[key].apps.dom() =~= h.apps.dom());
    if h.apps.contains_key(rport) && host::live(before) && h.master is Ready {
        assert(worker_laws::app_ok(w.memory, key, rport, before));
        let m = h.master->Ready_0.r;
        let keys = maps::ordered_keys::<u16, host::AppWModel>(h.apps);
        maps::lemma_ordered_keys::<u16, host::AppWModel>(h.apps);
        assert(keys.to_set().contains(rport));
        worker_laws::lemma_cancelled(h.apps, keys, m, rport);
        lemma_ssh_forward(h, "cancel"@, before.shown.lport->0, rport);
        let c = m.mux("cancel"@, before.shown.lport->0, rport);
        let all = host::cancels(h.apps, keys, m);
        let k = choose|k: int| 0 <= k < all.len() && all[k] == c;
        assert(effects[k + 1] == host::EffectModel::Run(c));
    }
}

/// Resuming a host changes no app of it, and is remembered.
pub proof fn resuming_changes_no_app(w: worker::WorkerModel, key: Seq<char>)
    requires
        w.hosts.contains_key(key),
        w.memory.paused.contains(key),
    ensures
        ({
            let (after, effects) = w.toggle_host(key);
            &&& after.hosts == w.hosts
            &&& after.memory.paused == w.memory.paused.remove(key)
            &&& after.memory.assignments == w.memory.assignments
            &&& effects.len() > 0 && effects[0] == host::EffectModel::Save
        }),
{
}

/// What is remembered once an app has been muted, or is no longer: all that was remembered before, but
/// for that; nothing is written where that was remembered already.
pub open spec fn remembers_muted(
    before: state::StateModel,
    after: state::StateModel,
    key: Seq<char>,
    rport: u16,
    muted: bool,
    unix: u64,
) -> bool {
    match before.get(key, rport) {
        Some(a) => if a.muted == muted {
            after == before
        } else {
            after.get(key, rport) == Some(state::AssignmentModel { muted, updated_at: unix, ..a })
        },
        None => if muted {
            after.get(key, rport) == Some(
                state::AssignmentModel {
                    local_port: None,
                    process: None,
                    pinned: false,
                    muted: true,
                    comment: None,
                    tier: None,
                    updated_at: unix,
                },
            )
        } else {
            after == before
        },
    }
}

/// Turning an app off or on, or moving it to another port, changes what is remembered of it in whether
/// it is muted, and in nothing else.
pub proof fn turning_keeps_what_is_remembered(
    w: worker::WorkerModel,
    key: Seq<char>,
    rport: u16,
    lport: u16,
    unix: u64,
)
    requires
        w.hosts.contains_key(key),
        w.hosts[key].master is Ready,
        w.hosts[key].apps.contains_key(rport),
        !(w.hosts[key].apps[rport].shown.status is External),
    ensures
        ({
            let app = w.hosts[key].apps[rport];
            let live = app.shown.status is Active || app.shown.status is Pending;
            let paused = w.memory.paused.contains(key);
            let same = app.shown.status is Active && app.shown.lport == Some(lport);
            let turned = w.toggle(key, rport, unix).0.memory;
            let moved = w.assign(key, rport, lport, Some(None), unix).0.memory;
            &&& live ==> remembers_muted(w.memory, turned, key, rport, true, unix)
            &&& !live && !paused ==> remembers_muted(w.memory, turned, key, rport, false, unix)
            &&& !paused && !same && (uses(w, key, rport, lport) || !in_use(w, lport))
                ==> remembers_muted(w.memory, moved, key, rport, false, unix)
        }),
{
    worker_laws::memory_frame(
        w.memory,
        key,
        rport,
        state::AssignmentModel { muted: true, updated_at: unix, ..w.memory.entry(key, rport) },
    );
    worker_laws::memory_frame(
        w.memory,
        key,
        rport,
        state::AssignmentModel { muted: false, updated_at: unix, ..w.memory.entry(key, rport) },
    );
    claimed_ports_are_in_use(w, lport);
}

/// Turning an app on asks for its port, and moving it asks for the forward, with the memory saved
/// before it where the app was muted there; nothing else is asked for.
pub proof fn turning_on_asks_for_nothing_else(
    w: worker::WorkerModel,
    key: Seq<char>,
    rport: u16,
    lport: u16,
    unix: u64,
)
    requires
        w.hosts.contains_key(key),
        w.hosts[key].master is Ready,
        w.hosts[key].apps.contains_key(rport),
        !(w.hosts[key].apps[rport].shown.status is External),
        !w.memory.paused.contains(key),
    ensures
        ({
            let app = w.hosts[key].apps[rport];
            let live = app.shown.status is Active || app.shown.status is Pending;
            let same = app.shown.status is Active && app.shown.lport == Some(lport);
            let was_muted = w.memory.get(key, rport) matches Some(a) && a.muted;
            let turned = w.toggle(key, rport, unix).1;
            let moved = w.assign(key, rport, lport, Some(None), unix).1;
            let n: nat = if was_muted {
                2
            } else {
                1
            };
            &&& !live ==> turned.len() == n && turned.last() is PickPort && (was_muted ==> turned[0]
                == host::EffectModel::Save)
            &&& !same && (uses(w, key, rport, lport) || !in_use(w, lport)) ==> moved.len() == n
                && moved.last() is Forward && (was_muted ==> moved[0] == host::EffectModel::Save)
        }),
{
    claimed_ports_are_in_use(w, lport);
}

} // verus!
