//! What the worker asks for on each message, and that it asks for nothing else.
use vstd::prelude::*;
use crate::discover;
use crate::forward_laws;
use crate::host;
use crate::maps;
use crate::remote;
use crate::types;
use crate::worker;
use crate::worker::Clock;
use crate::worker_laws;

verus! {

/// Every command of the user is carried out by the operation it names, on the host and the port it
/// names, at the time that the clock shows.
pub proof fn commands_have_their_operations(
    w: worker::WorkerModel,
    host: Seq<char>,
    rport: u16,
    lport: u16,
    text: Seq<char>,
    clock: Clock,
)
    ensures
        ({
            let does = |cmd: types::CmdModel| w.step(worker::WMsgModel::Cmd(cmd), clock);
            &&& does(types::CmdModel::Assign { host, rport, lport }) == w.assign(
                host,
                rport,
                lport,
                None,
                clock.unix,
            )
            &&& does(types::CmdModel::Toggle { host, rport }) == w.toggle(host, rport, clock.unix)
            &&& does(types::CmdModel::SetComment { host, rport, text }) == w.set_comment(
                host,
                rport,
                text,
                clock.unix,
            )
            &&& does(types::CmdModel::ToggleHidden { host, rport }) == w.toggle_hidden(
                host,
                rport,
                clock.unix,
            )
            &&& does(types::CmdModel::ToggleHost { host }) == w.toggle_host(host)
            &&& does(types::CmdModel::Refresh) == w.refresh(clock.mono)
            &&& does(types::CmdModel::ToggleAuto) == w.toggle_auto()
            &&& does(types::CmdModel::Quit) == (w, Seq::<host::EffectModel>::empty())
        }),
{
}

/// What comes back of an earlier request is taken in by the operation that waits for it.
pub proof fn answers_have_their_operations(
    w: worker::WorkerModel,
    key: Seq<char>,
    rport: u16,
    lport: u16,
    pin: bool,
    alive: bool,
    conns: Seq<discover::ConnModel>,
    found: Result<Seq<remote::RemoteModel>, Seq<char>>,
    user: Option<Seq<char>>,
    free: Seq<u16>,
    ephemeral: Option<u16>,
    result: Result<(), Seq<char>>,
    clock: Clock,
)
    ensures
        w.step(worker::WMsgModel::Tick { conns }, clock) == w.tick(conns, clock.mono),
        w.step(worker::WMsgModel::ScanDone { key, result: found }, clock) == w.scan_done(
            key,
            found,
            clock.mono,
        ),
        w.step(worker::WMsgModel::AliveChecked { key, alive }, clock) == (
            w.alive_checked(key, alive),
            Seq::<host::EffectModel>::empty(),
        ),
        w.step(worker::WMsgModel::Picked { key, rport, free, ephemeral }, clock) == w.start_forward(
            key,
            rport,
            free,
            ephemeral,
        ),
        w.step(worker::WMsgModel::PortChecked { key, rport, lport, user }, clock) == w.assign(
            key,
            rport,
            lport,
            Some(user),
            clock.unix,
        ),
        w.step(worker::WMsgModel::FwdDone { key, rport, lport, pin, result }, clock) == w.fwd_done(
            key,
            rport,
            lport,
            pin,
            result,
            clock.unix,
        ),
{
}

/// The same of what ssh says about a connection and of a way to a master that has ended.
pub proof fn links_have_their_operations(
    w: worker::WorkerModel,
    conn: (Seq<char>, Seq<Seq<char>>),
    told: Option<discover::ResolvedModel>,
    key: Seq<char>,
    link: Result<crate::control::LinkModel, Seq<char>>,
    clock: Clock,
)
    ensures
        w.step(worker::WMsgModel::Learned { key: conn, result: told }, clock) == (
            w.learned(conn, told),
            Seq::<host::EffectModel>::empty(),
        ),
        w.step(worker::WMsgModel::MasterDone { key, result: link }, clock) == w.master_done(
            key,
            link,
            clock.mono,
        ),
        w.hosts.contains_key(key) ==> w.master_done(key, link, clock.mono) == (
            worker::WorkerModel {
                hosts: w.hosts.insert(key, w.hosts[key].mastered(link, clock.mono, w.interval).0),
                ..w
            },
            w.hosts[key].mastered(link, clock.mono, w.interval).1,
        ),
        !w.hosts.contains_key(key) && link is Err ==> w.master_done(key, link, clock.mono) == (
            w,
            Seq::<host::EffectModel>::empty(),
        ),
{
}

/// A request for a port for an app of this host.
pub open spec fn wants_port(e: host::EffectModel, key: Seq<char>) -> bool {
    e matches host::EffectModel::PickPort { key: k, .. } && k == key
}

/// A command that takes back the forward of a live app of this host on the port `rport`.
pub open spec fn takes_back(e: host::EffectModel, h: host::HostWModel, rport: u16) -> bool {
    &&& h.master is Ready
    &&& h.apps.contains_key(rport)
    &&& h.apps[rport].shown.status is Active || h.apps[rport].shown.status is Pending
    &&& h.apps[rport].shown.lport is Some
    &&& e == host::EffectModel::Run(
        forward_laws::ssh_forward(h, "cancel"@, h.apps[rport].shown.lport->0, rport),
    )
}

proof fn lemma_picks_only(w: worker::WorkerModel, key: Seq<char>, rports: Seq<u16>, i: int)
    requires
        0 <= i < w.picks(key, rports).len(),
    ensures
        wants_port(w.picks(key, rports)[i], key),
    decreases rports.len(),
{
    if rports.len() > 0 {
        let before = w.picks(key, rports.drop_last());
        if i < before.len() {
            lemma_picks_only(w, key, rports.drop_last(), i);
        }
    }
}

proof fn lemma_auto_only(w: worker::WorkerModel, key: Seq<char>, i: int)
    requires
        0 <= i < w.auto_picks(key).len(),
    ensures
        wants_port(w.auto_picks(key)[i], key),
{
    lemma_picks_only(
        w,
        key,
        maps::ordered_keys::<u16, host::AppWModel>(w.hosts[key].apps),
        i,
    );
}

proof fn lemma_all_only(w: worker::WorkerModel, keys: Seq<Seq<char>>, i: int)
    requires
        0 <= i < w.all_picks(keys).len(),
    ensures
        w.all_picks(keys)[i] is PickPort,
    decreases keys.len(),
{
    if keys.len() > 0 {
        let before = w.all_picks(keys.drop_last());
        if i < before.len() {
            lemma_all_only(w, keys.drop_last(), i);
        } else {
            lemma_auto_only(w, keys.last(), i - before.len());
        }
    }
}

/// A scan takes back the forwards of live apps that it has not found, asks for ports for the apps of
/// its host, and does nothing else.
pub proof fn scans_ask_for_nothing_else(
    w: worker::WorkerModel,
    key: Seq<char>,
    found: Seq<remote::RemoteModel>,
    now: u64,
    i: int,
)
    requires
        worker_laws::worker_ok(w),
        w.hosts.contains_key(key),
        0 <= i < w.scan_done(key, Ok(found), now).1.len(),
    ensures
        ({
            let e = w.scan_done(key, Ok(found), now).1[i];
            wants_port(e, key) || exists|p: u16|
                takes_back(e, w.hosts[key], p) && !#[trigger] host::ports_of(found).contains(p)
        }),
{
    let h = w.hosts[key];
    assert(worker_laws::host_ok(w.memory, key, h));
    let (after, mine) = h.scanned(found, w.memory, now);
    let w1 = w.with_host(key, after);
    if i >= mine.len() {
        lemma_auto_only(w1, key, i - mine.len());
    } else {
        let apps = h.merged(found, w.memory);
        let gone = h.vanished(found, w.memory);
        let m = h.master->Ready_0.r;
        worker_laws::lemma_cancels(apps, gone, m, i);
        let p = choose|p: u16|
            gone.contains(p) && host::live_port(#[trigger] apps[p]) is Some && host::cancels(
                apps,
                gone,
                m,
            )[i] == m.mux("cancel"@, host::live_port(apps[p])->0, p);
        let heard = host::ports_of(found);
        let test = |q: u16| !heard.contains(q);
        let all = maps::ordered_keys::<u16, host::AppWModel>(apps);
        let n = choose|n: int| 0 <= n < gone.len() && gone[n] == p;
        assert(test(gone[n]));
        all.lemma_filter_contains_rev(test, p);
        worker_laws::lemma_merged(w.memory, key, h, found);
        maps::lemma_ordered_keys::<u16, host::AppWModel>(apps);
        assert(all.to_set().contains(p));
        assert(apps.contains_key(p));
        worker_laws::lemma_unfound(h, found, w.memory, p);
        forward_laws::lemma_ssh_forward(h, "cancel"@, h.apps[p].shown.lport->0, p);
        assert(takes_back(mine[i], h, p) && !host::ports_of(found).contains(p));
    }
}

/// Pausing a host saves the choice and takes back forwards of its live apps; resuming it, and showing
/// an app again, saves the choice and asks for ports for the apps of the host.
pub proof fn pauses_ask_for_nothing_else(
    w: worker::WorkerModel,
    key: Seq<char>,
    rport: u16,
    unix: u64,
    i: int,
)
    requires
        worker_laws::worker_ok(w),
        w.hosts.contains_key(key),
        i > 0,
    ensures
        i < w.toggle_host(key).1.len() && w.memory.paused.contains(key) ==> wants_port(
            w.toggle_host(key).1[i],
            key,
        ),
        i < w.toggle_host(key).1.len() && !w.memory.paused.contains(key) ==> exists|p: u16|
            #[trigger] takes_back(w.toggle_host(key).1[i], w.hosts[key], p),
        w.hosts[key].apps.contains_key(rport) && i < w.toggle_hidden(key, rport, unix).1.len()
            ==> wants_port(w.toggle_hidden(key, rport, unix).1[i], key),
{
    let h = w.hosts[key];
    assert(worker_laws::host_ok(w.memory, key, h));
    if w.memory.paused.contains(key) {
        let w1 = worker::WorkerModel { memory: w.memory.with_paused(key, false), ..w };
        if i < w.toggle_host(key).1.len() {
            lemma_auto_only(w1, key, i - 1);
        }
    } else if i < w.toggle_host(key).1.len() {
        let all = maps::ordered_keys::<u16, host::AppWModel>(h.apps);
        let m = h.master->Ready_0.r;
        worker_laws::lemma_cancels(h.apps, all, m, i - 1);
        let p = choose|p: u16|
            all.contains(p) && host::live_port(#[trigger] h.apps[p]) is Some && host::cancels(
                h.apps,
                all,
                m,
            )[i - 1] == m.mux("cancel"@, host::live_port(h.apps[p])->0, p);
        maps::lemma_ordered_keys::<u16, host::AppWModel>(h.apps);
        assert(all.to_set().contains(p));
        forward_laws::lemma_ssh_forward(h, "cancel"@, h.apps[p].shown.lport->0, p);
        assert(takes_back(w.toggle_host(key).1[i], h, p));
    }
    if h.apps.contains_key(rport) && i < w.toggle_hidden(key, rport, unix).1.len() {
        lemma_auto_only(w.toggle_hidden(key, rport, unix).0, key, i - 1);
    }
}

/// Turning forwarding on tells so and asks for ports; a forward that failed to bind leads to requests
/// for ports of its host; neither leads to anything else.
pub proof fn other_requests_are_for_ports(
    w: worker::WorkerModel,
    key: Seq<char>,
    rport: u16,
    lport: u16,
    pin: bool,
    err: Seq<char>,
    unix: u64,
    i: int,
)
    requires
        0 <= i,
    ensures
        0 < i < w.toggle_auto().1.len() ==> w.toggle_auto().1[i] is PickPort,
        w.has_app(key, rport) && i < w.fwd_done(key, rport, lport, pin, Err(err), unix).1.len()
            ==> wants_port(w.fwd_done(key, rport, lport, pin, Err(err), unix).1[i], key),
{
    let (on, effects) = w.toggle_auto();
    if 0 < i < effects.len() {
        lemma_all_only(on, on.keys(), i - 1);
    }
    let (after, asked) = w.fwd_done(key, rport, lport, pin, Err(err), unix);
    if w.has_app(key, rport) && i < asked.len() {
        lemma_auto_only(after, key, i);
    }
}

proof fn lemma_visit_frame(
    w: worker::WorkerModel,
    keys: Seq<Seq<char>>,
    f: spec_fn(host::HostWModel) -> (host::HostWModel, Seq<host::EffectModel>),
)
    ensures
        w.visit(keys, f).0 == (worker::WorkerModel { hosts: w.visit(keys, f).0.hosts, ..w }),
    decreases keys.len(),
{
    if keys.len() > 0 {
        lemma_visit_frame(w, keys.drop_last(), f);
    }
}

/// A host that there is a session to stays as it is, but for the forwards of the user, which are
/// counted anew, and for the connection or the scan that is due; a look at the sessions changes
/// nothing but the hosts.
pub proof fn known_hosts_are_woken(
    w: worker::WorkerModel,
    conns: Seq<discover::ConnModel>,
    now: u64,
    key: Seq<char>,
)
    requires
        worker_laws::worker_ok(w),
        w.hosts.contains_key(key),
        worker_laws::connected_to(w, conns, key),
    ensures
        ({
            let (after, effects) = w.tick(conns, now);
            let h = host::HostWModel {
                present: true,
                ext_forwards: after.hosts[key].ext_forwards,
                ..w.hosts[key]
            };
            let (woken, wanted) = h.wake(now, w.interval);
            &&& after.hosts.contains_key(key)
            &&& after.hosts[key] == woken
            &&& forall|n: int| 0 <= n < wanted.len() ==> effects.contains(#[trigger] wanted[n])
            &&& after == (worker::WorkerModel { hosts: after.hosts, ..w })
        }),
{
    let unseen = w.hosts.map_values(|h: host::HostWModel| h.unseen());
    worker_laws::lemma_counted(w, unseen, conns, key);
    worker_laws::lemma_woken(w, conns, now, key);
    let counted = w.counted(conns);
    let kept = worker::WorkerModel {
        hosts: counted.hosts.restrict(worker::present(counted.hosts)),
        ..counted
    };
    let interval = w.interval;
    lemma_visit_frame(kept, kept.keys(), |h: host::HostWModel| h.wake(now, interval));
}

/// This session to the host forwards the local port to the port of the server itself, by the
/// configuration or by an option -L.
pub open spec fn gives(
    w: worker::WorkerModel,
    conn: discover::ConnModel,
    key: Seq<char>,
    lport: u16,
    rport: u16,
) -> bool {
    &&& worker_laws::leads_to(w, conn, key)
    &&& host::lookup(w.answers, conn.key())->0->0.lforwards.contains((lport, rport)) || exists|j: int|
        0 <= j < conn.lforwards.len() && (discover::l_spec(#[trigger] conn.lforwards[j]) matches Some((
            l,
            name,
            r,
        )) && l == lport && r == rport && discover::loopback_host(name))
}

proof fn lemma_config_source(ext: Map<u16, u16>, fwds: Seq<(u16, u16)>, rport: u16)
    ensures
        ({
            let after = host::config_forwards(ext, fwds);
            after.contains_key(rport) ==> (ext.contains_key(rport) && after[rport] == ext[rport])
                || fwds.contains((after[rport], rport))
        }),
    decreases fwds.len(),
{
    if fwds.len() > 0 {
        let fewer = fwds.drop_last();
        lemma_config_source(ext, fewer, rport);
        let before = host::config_forwards(ext, fewer);
        assert(fwds[fwds.len() - 1] == fwds.last());
        if fwds.last().1 != rport && before.contains_key(rport) && fewer.contains(
            (before[rport], rport),
        ) {
            let j = choose|j: int| 0 <= j < fewer.len() && fewer[j] == (before[rport], rport);
            assert(fwds[j] == fewer[j]);
        }
    }
}

proof fn lemma_session_source(ext: Map<u16, u16>, specs: Seq<Seq<char>>, rport: u16)
    ensures
        ({
            let after = host::session_forwards(ext, specs);
            after.contains_key(rport) ==> (ext.contains_key(rport) && after[rport] == ext[rport])
                || exists|j: int|
                0 <= j < specs.len() && (discover::l_spec(#[trigger] specs[j]) matches Some((
                    l,
                    name,
                    r,
                )) && l == after[rport] && r == rport && discover::loopback_host(name))
        }),
    decreases specs.len(),
{
    if specs.len() > 0 {
        let fewer = specs.drop_last();
        lemma_session_source(ext, fewer, rport);
        let before = host::session_forwards(ext, fewer);
        let after = host::session_forwards(ext, specs);
        assert(specs[specs.len() - 1] == specs.last());
        if after.contains_key(rport) && !(ext.contains_key(rport) && after[rport] == ext[rport]) {
            if before.contains_key(rport) && before[rport] == after[rport] {
                let j = choose|j: int|
                    0 <= j < fewer.len() && (discover::l_spec(#[trigger] fewer[j]) matches Some((
                        l,
                        name,
                        r,
                    )) && l == before[rport] && r == rport && discover::loopback_host(name));
                assert(specs[j] == fewer[j]);
            }
        }
    }
}

proof fn lemma_source(
    w: worker::WorkerModel,
    hosts: Map<Seq<char>, host::HostWModel>,
    conns: Seq<discover::ConnModel>,
    key: Seq<char>,
    rport: u16,
)
    requires
        hosts.contains_key(key) ==> !hosts[key].ext_forwards.contains_key(rport),
    ensures
        ({
            let after = worker::all_absorbed(hosts, w.answers, conns);
            after.contains_key(key) && after[key].ext_forwards.contains_key(rport) ==> exists|n: int|
                0 <= n < conns.len() && gives(
                    w,
                    #[trigger] conns[n],
                    key,
                    after[key].ext_forwards[rport],
                    rport,
                )
        }),
    decreases conns.len(),
{
    if conns.len() > 0 {
        let fewer = conns.drop_last();
        let c = conns.last();
        lemma_source(w, hosts, fewer, key, rport);
        let before = worker::all_absorbed(hosts, w.answers, fewer);
        let after = worker::all_absorbed(hosts, w.answers, conns);
        if after.contains_key(key) && after[key].ext_forwards.contains_key(rport) {
            let lport = after[key].ext_forwards[rport];
            assert(conns[conns.len() - 1] == c);
            if before.contains_key(key) && before[key].ext_forwards.contains_key(rport)
                && before[key].ext_forwards[rport] == lport {
                let n = choose|n: int|
                    0 <= n < fewer.len() && gives(w, #[trigger] fewer[n], key, lport, rport);
                assert(conns[n] == fewer[n]);
            } else {
                assert(worker_laws::leads_to(w, c, key));
                let r = host::lookup(w.answers, c.key())->0->0;
                let ext = if before.contains_key(key) {
                    before[key].ext_forwards
                } else {
                    Map::empty()
                };
                lemma_config_source(ext, r.lforwards, rport);
                lemma_session_source(host::config_forwards(ext, r.lforwards), c.lforwards, rport);
                assert(gives(w, c, key, lport, rport));
            }
        }
    }
}

/// The forwards of the user that a host is known to have are those of the sessions that there are
/// now: each is given by one of them, and none is left over from sessions that have ended.
pub proof fn forwards_end_with_their_sessions(
    w: worker::WorkerModel,
    conns: Seq<discover::ConnModel>,
    now: u64,
    key: Seq<char>,
    rport: u16,
)
    requires
        worker_laws::worker_ok(w),
    ensures
        ({
            let after = w.tick(conns, now).0;
            after.hosts.contains_key(key) && after.hosts[key].ext_forwards.contains_key(rport)
                ==> exists|n: int|
                0 <= n < conns.len() && gives(
                    w,
                    #[trigger] conns[n],
                    key,
                    after.hosts[key].ext_forwards[rport],
                    rport,
                )
        }),
{
    let unseen = w.hosts.map_values(|h: host::HostWModel| h.unseen());
    worker_laws::hosts_follow_connections(w, conns, now, key);
    if worker_laws::connected_to(w, conns, key) {
        worker_laws::lemma_woken(w, conns, now, key);
        lemma_source(w, unseen, conns, key, rport);
        let counted = w.counted(conns);
        let after = w.tick(conns, now).0;
        assert(counted.hosts == worker::all_absorbed(unseen, w.answers, conns));
        assert(after.hosts[key].ext_forwards == counted.hosts[key].ext_forwards);
        if after.hosts[key].ext_forwards.contains_key(rport) {
            worker_laws::lemma_counted(w, unseen, conns, key);
            let lport = after.hosts[key].ext_forwards[rport];
            let n = choose|n: int|
                0 <= n < conns.len() && gives(w, #[trigger] conns[n], key, lport, rport);
            assert(gives(w, conns[n], key, lport, rport));
        }
    }
}

/// A refresh scans every connected host that is not being scanned, and leaves the others as they are.
pub proof fn refreshes_scan_at_once(w: worker::WorkerModel, now: u64, key: Seq<char>)
    requires
        worker_laws::worker_ok(w),
        w.hosts.contains_key(key),
    ensures
        ({
            let h = w.hosts[key];
            let (after, effects) = w.refresh(now);
            let due = h.master is Ready && !h.scanning;
            &&& due ==> after.hosts[key] == (host::HostWModel { scanning: true, ..h })
                && effects.contains(
                host::EffectModel::Scan { key: h.key, command: h.master->Ready_0.r.scan() },
            )
            &&& !due ==> after.hosts[key] == h
            &&& after == (worker::WorkerModel { hosts: after.hosts, ..w })
        }),
{
    let h = w.hosts[key];
    let interval = w.interval;
    let f = |h: host::HostWModel| h.scan(true, now, interval);
    worker_laws::lemma_keys(w);
    maps::lemma_ordered_keys::<String, host::HostWModel>(w.hosts);
    assert(w.keys().contains(key));
    worker_laws::lemma_visited(w, w.keys(), f, key);
    lemma_visit_frame(w, w.keys(), f);
    if h.master is Ready && !h.scanning {
        assert(f(h).1[0] == (host::EffectModel::Scan {
            key: h.key,
            command: h.master->Ready_0.r.scan(),
        }));
    }
}

proof fn lemma_tear_source(
    hosts: Map<Seq<char>, host::HostWModel>,
    keys: Seq<Seq<char>>,
    i: int,
)
    requires
        0 <= i < worker::tears(hosts, keys).len(),
    ensures
        exists|n: int|
            0 <= n < keys.len() && hosts[#[trigger] keys[n]].teardown() == Some(
                worker::tears(hosts, keys)[i],
            ),
    decreases keys.len(),
{
    if keys.len() > 0 {
        let fewer = keys.drop_last();
        let before = worker::tears(hosts, fewer);
        assert(keys[keys.len() - 1] == keys.last());
        if i < before.len() {
            lemma_tear_source(hosts, fewer, i);
            let n = choose|n: int|
                0 <= n < fewer.len() && hosts[#[trigger] fewer[n]].teardown() == Some(before[i]);
            assert(keys[n] == fewer[n]);
        }
    }
}

/// What is torn down at the end is what connected hosts have, and nothing else.
pub proof fn only_hosts_are_torn_down(w: worker::WorkerModel, i: int)
    requires
        worker_laws::worker_ok(w),
        0 <= i < worker::tears(w.hosts, w.keys()).len(),
    ensures
        exists|key: Seq<char>|
            w.hosts.contains_key(key) && (#[trigger] w.hosts[key]).master is Ready
                && w.hosts[key].teardown() == Some(worker::tears(w.hosts, w.keys())[i]),
{
    worker_laws::lemma_keys(w);
    lemma_tear_source(w.hosts, w.keys(), i);
    let n = choose|n: int|
        0 <= n < w.keys().len() && w.hosts[#[trigger] w.keys()[n]].teardown() == Some(
            worker::tears(w.hosts, w.keys())[i],
        );
    assert(w.hosts.contains_key(w.keys()[n]));
    assert(w.hosts[w.keys()[n]].master is Ready);
}

proof fn lemma_visit_source(
    w: worker::WorkerModel,
    keys: Seq<Seq<char>>,
    f: spec_fn(host::HostWModel) -> (host::HostWModel, Seq<host::EffectModel>),
    i: int,
)
    requires
        maps::is_ordered::<String>(keys),
        0 <= i < w.visit(keys, f).1.len(),
    ensures
        exists|n: int|
            0 <= n < keys.len() && f(w.hosts[#[trigger] keys[n]]).1.contains(w.visit(keys, f).1[i]),
    decreases keys.len(),
{
    if keys.len() > 0 {
        let fewer = keys.drop_last();
        let last = keys.last();
        assert(maps::is_ordered::<String>(fewer));
        let (before, effects) = w.visit(fewer, f);
        let e = w.visit(keys, f).1[i];
        if i < effects.len() {
            lemma_visit_source(w, fewer, f, i);
            let n = choose|n: int|
                0 <= n < fewer.len() && f(w.hosts[#[trigger] fewer[n]]).1.contains(effects[i]);
            assert(keys[n] == fewer[n]);
        } else {
            worker_laws::lemma_visited(w, fewer, f, last);
            if fewer.contains(last) {
                let j = choose|j: int| 0 <= j < fewer.len() && fewer[j] == last;
                assert(<String as maps::MapKey>::before(keys[j], keys[keys.len() - 1]));
                <String as maps::MapKey>::before_irreflexive(last);
            }
            let more = f(w.hosts[last]).1;
            assert(more[i - effects.len()] == e);
            assert(keys[keys.len() - 1] == last);
        }
    }
}

proof fn lemma_fresh(
    w: worker::WorkerModel,
    hosts: Map<Seq<char>, host::HostWModel>,
    conns: Seq<discover::ConnModel>,
    key: Seq<char>,
)
    requires
        !hosts.contains_key(key),
    ensures
        ({
            let after = worker::all_absorbed(hosts, w.answers, conns);
            after.contains_key(key) ==> after[key].master is Connecting
        }),
    decreases conns.len(),
{
    if conns.len() > 0 {
        lemma_fresh(w, hosts, conns.drop_last(), key);
    }
}

/// A look at the sessions tears down what the hosts had that no session leads to, connects hosts that
/// are neither connected nor being connected, scans connected hosts that are not being scanned, and
/// asks for nothing else.
pub proof fn looks_ask_for_nothing_else(
    w: worker::WorkerModel,
    conns: Seq<discover::ConnModel>,
    now: u64,
    i: int,
)
    requires
        worker_laws::worker_ok(w),
        0 <= i < w.tick(conns, now).1.len(),
    ensures
        match w.tick(conns, now).1[i] {
            host::EffectModel::Tear(t) => exists|key: Seq<char>|
                w.hosts.contains_key(key) && !worker_laws::connected_to(w, conns, key)
                    && #[trigger] w.hosts[key].teardown() == Some(t),
            host::EffectModel::Connect { key, .. } => {
                &&& worker_laws::connected_to(w, conns, key)
                &&& w.hosts.contains_key(key) ==> !w.hosts[key].connect_inflight
                    && !(w.hosts[key].master is Ready)
            },
            host::EffectModel::Scan { key, command } => {
                &&& worker_laws::connected_to(w, conns, key)
                &&& w.hosts.contains_key(key)
                &&& w.hosts[key].master is Ready
                &&& !w.hosts[key].scanning
                &&& command == w.hosts[key].master->Ready_0.r.scan()
            },
            _ => false,
        },
{
    let (after, effects) = w.tick(conns, now);
    let unseen = w.hosts.map_values(|h: host::HostWModel| h.unseen());
    let counted = w.counted(conns);
    assert(counted.hosts == worker::all_absorbed(unseen, w.answers, conns));
    let kept = worker_laws::kept(counted);
    let gone = counted.vanished();
    let tears = worker::tears(counted.hosts, gone);
    worker_laws::lemma_kept(w, conns);
    if i < tears.len() {
        lemma_tear_source(counted.hosts, gone, i);
        let n = choose|n: int|
            0 <= n < gone.len() && counted.hosts[#[trigger] gone[n]].teardown() == Some(tears[i]);
        let key = gone[n];
        let keep = worker::present(counted.hosts);
        let test = |k: Seq<char>| !keep.contains(k);
        assert(gone.contains(key));
        assert(test(gone[n]));
        counted.keys().lemma_filter_contains_rev(test, key);
        worker_laws::lemma_keys(counted);
        let j = choose|j: int| 0 <= j < counted.keys().len() && counted.keys()[j] == key;
        assert(counted.hosts.contains_key(counted.keys()[j]));
        worker_laws::lemma_counted(w, unseen, conns, key);
        assert(w.hosts[key].teardown() == Some(tears[i]));
        assert(effects[i] == host::EffectModel::Tear(tears[i]));
    } else {
        let interval = w.interval;
        let f = |h: host::HostWModel| h.wake(now, interval);
        maps::lemma_ordered_keys::<String, host::HostWModel>(kept.hosts);
        worker_laws::lemma_keys(kept);
        lemma_visit_source(kept, kept.keys(), f, i - tears.len());
        let e = effects[i];
        let n = choose|n: int|
            0 <= n < kept.keys().len() && f(kept.hosts[#[trigger] kept.keys()[n]]).1.contains(e);
        let key = kept.keys()[n];
        assert(kept.hosts.contains_key(kept.keys()[n]));
        let h = kept.hosts[key];
        worker_laws::lemma_counted(w, unseen, conns, key);
        assert(worker_laws::host_ok(kept.memory, key, h));
        assert(h.wake(now, interval).1.contains(e));
        let m = choose|m: int|
            0 <= m < h.wake(now, interval).1.len() && h.wake(now, interval).1[m] == e;
        if !w.hosts.contains_key(key) {
            lemma_fresh(w, unseen, conns, key);
        }
        assert(e is Connect || e is Scan);
    }
}

} // verus!
