use ssh_autoport::control::{Master, MasterRef};
use ssh_autoport::discover::{parse_ps, ConnKey, LocalConn, Resolved};
use ssh_autoport::host::{Effect, Teardown};
use ssh_autoport::remote::RemoteApp;
use ssh_autoport::state::State;
use ssh_autoport::types::{AppView, Cmd, Ev, FwdView, HostView, MasterView, Tier};
use ssh_autoport::worker::{Clock, Options, WMsg, Worker};

const KEY: &str = "bob@web01:22";
const SECOND: u64 = 1_000_000_000;

fn at(secs: u64) -> Clock {
    Clock { mono: secs * SECOND, unix: 1000 + secs }
}

fn mref() -> MasterRef {
    MasterRef { dest: "web01".into(), socket: "/s".into() }
}

fn conn(lforwards: &[&str]) -> LocalConn {
    LocalConn {
        pid: 1,
        dest: "web01".into(),
        extra: vec![],
        lforwards: lforwards.iter().map(|s| s.to_string()).collect(),
    }
}

fn resolved() -> Resolved {
    Resolved {
        user: "bob".into(),
        hostname: "web01".into(),
        port: 22,
        lforwards: vec![],
        control_path: None,
    }
}

fn ck() -> ConnKey {
    ConnKey { dest: "web01".into(), extra: vec![] }
}

fn listener(port: u16, process: &str) -> RemoteApp {
    RemoteApp {
        port,
        addr: "lo".into(),
        process: Some(process.into()),
        pid: Some(7),
        cmdline: None,
    }
}

fn toast(msg: &str) -> Effect {
    Effect::Tell(Ev::Toast(msg.into()))
}

fn new_worker(auto: bool, memory: State) -> Worker {
    let (w, first) = Worker::new(Options { interval: 3 * SECOND, auto }, memory);
    assert_eq!(first, vec![Effect::Tell(Ev::AutoMode(auto))]);
    w
}

/// A worker with one connected host.
fn connected(auto: bool, external: bool, memory: State) -> Worker {
    let mut w = new_worker(auto, memory);
    assert_eq!(w.unresolved(&vec![conn(&[])]).len(), 1);
    assert!(w.handle(WMsg::Learned { key: ck(), result: Some(resolved()) }, at(0)).is_empty());
    assert!(w.unresolved(&vec![conn(&[])]).is_empty());
    let effects = w.handle(WMsg::Tick { conns: vec![conn(&[])] }, at(0));
    assert_eq!(
        effects,
        vec![Effect::Connect {
            key: KEY.into(),
            dest: "web01".into(),
            extra: vec![],
            control_path: None,
        }]
    );
    let m = Master { r: mref(), external, child: None };
    let effects = w.handle(WMsg::MasterDone { key: KEY.into(), result: Ok(m) }, at(1));
    assert_eq!(effects, vec![Effect::Scan { key: KEY.into(), command: mref().scan() }]);
    w
}

fn scan(w: &mut Worker, found: Vec<RemoteApp>, secs: u64) -> Vec<Effect> {
    w.handle(WMsg::ScanDone { key: KEY.into(), result: Ok(found) }, at(secs))
}

fn pick(rport: u16, tries: &[u16]) -> Effect {
    Effect::PickPort { key: KEY.into(), rport, tries: tries.to_vec() }
}

fn picked(w: &mut Worker, rport: u16, free: &[u16], ephemeral: Option<u16>) -> Vec<Effect> {
    w.handle(
        WMsg::Picked { key: KEY.into(), rport, free: free.to_vec(), ephemeral },
        at(2),
    )
}

fn done(w: &mut Worker, rport: u16, lport: u16, pin: bool, err: Option<&str>) -> Vec<Effect> {
    let result = match err {
        Some(e) => Err(e.to_string()),
        None => Ok(()),
    };
    w.handle(WMsg::FwdDone { key: KEY.into(), rport, lport, pin, result }, at(3))
}

fn forward(rport: u16, lport: u16, pin: bool, old: Option<u16>) -> Effect {
    Effect::Forward {
        key: KEY.into(),
        rport,
        lport,
        pin,
        first: old.map(|o| mref().cancel(o, rport)),
        command: mref().forward(lport, rport),
    }
}

fn host(w: &Worker) -> HostView {
    w.snapshot().remove(0)
}

fn app(w: &Worker, rport: u16) -> AppView {
    host(w).apps.into_iter().find(|a| a.rport == rport).unwrap()
}

fn cmd(w: &mut Worker, c: Cmd) -> Vec<Effect> {
    w.handle(WMsg::Cmd(c), at(4))
}

fn assign(rport: u16, lport: u16) -> Cmd {
    Cmd::Assign { host: KEY.into(), rport, lport }
}

fn toggle(rport: u16) -> Cmd {
    Cmd::Toggle { host: KEY.into(), rport }
}

/// A worker with one app that is forwarded on its own port.
fn forwarded(external: bool) -> Worker {
    let mut w = connected(true, external, State::default());
    assert_eq!(scan(&mut w, vec![listener(3000, "node")], 2), vec![pick(3000, &[3000])]);
    assert_eq!(picked(&mut w, 3000, &[3000], Some(40000)), vec![forward(3000, 3000, false, None)]);
    assert_eq!(done(&mut w, 3000, 3000, false, None), vec![Effect::Save]);
    w
}

#[test]
fn apps_are_forwarded_and_remembered() {
    let w = forwarded(false);
    let a = app(&w, 3000);
    assert_eq!(a.status, FwdView::Active);
    assert_eq!(a.lport, Some(3000));
    assert_eq!(a.process.as_deref(), Some("node"));
    assert_eq!(a.tier, Tier::App);
    let m = w.memory().get(KEY, 3000).unwrap();
    assert_eq!(m.local_port, Some(3000));
    assert_eq!(m.process.as_deref(), Some("node"));
    assert!(!m.pinned);
    assert_eq!(m.updated_at, 1003);
}

#[test]
fn remembered_ports_come_first() {
    let mut memory = State::default();
    memory.entry(KEY, 3000).local_port = Some(4444);
    let mut w = connected(true, false, memory);
    assert_eq!(scan(&mut w, vec![listener(3000, "node")], 2), vec![pick(3000, &[4444, 3000])]);
    assert_eq!(
        picked(&mut w, 3000, &[4444, 3000], Some(40000)),
        vec![forward(3000, 4444, false, None)]
    );
}

#[test]
fn taken_memories_are_replaced_and_remembered() {
    let mut memory = State::default();
    memory.entry(KEY, 3000).local_port = Some(4444);
    let mut w = connected(true, false, memory);
    scan(&mut w, vec![listener(3000, "node")], 2);
    assert_eq!(picked(&mut w, 3000, &[], Some(40000)), vec![forward(3000, 40000, false, None)]);
    done(&mut w, 3000, 40000, false, None);
    assert_eq!(w.memory().get(KEY, 3000).unwrap().local_port, Some(40000));
}

#[test]
fn privileged_ports_are_not_tried() {
    let mut w = connected(true, false, State::default());
    assert_eq!(scan(&mut w, vec![listener(80, "nginx")], 2), vec![pick(80, &[])]);
    assert_eq!(picked(&mut w, 80, &[80], Some(40001)), vec![forward(80, 40001, false, None)]);
}

#[test]
fn two_apps_never_get_the_same_port() {
    let mut memory = State::default();
    memory.entry(KEY, 4000).local_port = Some(3000);
    let mut w = connected(true, false, memory);
    let effects = scan(&mut w, vec![listener(3000, "a"), listener(4000, "b")], 2);
    assert_eq!(effects, vec![pick(3000, &[3000]), pick(4000, &[3000, 4000])]);
    assert_eq!(picked(&mut w, 3000, &[3000], None), vec![forward(3000, 3000, false, None)]);
    assert_eq!(picked(&mut w, 4000, &[3000, 4000], None), vec![forward(4000, 4000, false, None)]);
}

#[test]
fn without_a_port_the_app_says_so() {
    let mut w = connected(true, false, State::default());
    scan(&mut w, vec![listener(3000, "node")], 2);
    assert!(picked(&mut w, 3000, &[], None).is_empty());
    assert_eq!(app(&w, 3000).status, FwdView::Error("no free local port".into()));
}

#[test]
fn system_services_and_manual_mode_are_not_forwarded() {
    let mut w = connected(true, false, State::default());
    assert!(scan(&mut w, vec![listener(22, "sshd"), listener(53, "named")], 2).is_empty());
    assert_eq!(app(&w, 22).tier, Tier::System);
    let mut w = connected(false, false, State::default());
    assert!(scan(&mut w, vec![listener(3000, "node")], 2).is_empty());
    assert_eq!(
        cmd(&mut w, Cmd::ToggleAuto),
        vec![Effect::Tell(Ev::AutoMode(true)), pick(3000, &[3000])]
    );
    assert_eq!(cmd(&mut w, Cmd::ToggleAuto), vec![Effect::Tell(Ev::AutoMode(false))]);
}

#[test]
fn vanished_apps_are_cancelled() {
    let mut w = forwarded(false);
    assert_eq!(scan(&mut w, vec![], 5), vec![Effect::Run(mref().cancel(3000, 3000))]);
    assert!(host(&w).apps.is_empty());
    // A forward that came to stand too late is cancelled as well.
    assert_eq!(
        done(&mut w, 3000, 3000, false, None),
        vec![Effect::Run(mref().cancel(3000, 3000))]
    );
    assert!(done(&mut w, 3000, 3000, false, Some("no")).is_empty());
}

#[test]
fn assignments_are_checked_pinned_and_moved() {
    let mut w = forwarded(false);
    assert_eq!(
        cmd(&mut w, assign(3000, 8123)),
        vec![Effect::CheckPort { key: KEY.into(), rport: 3000, lport: 8123 }]
    );
    let check = |user: Option<&str>| WMsg::PortChecked {
        key: KEY.into(),
        rport: 3000,
        lport: 8123,
        user: user.map(|u| u.to_string()),
    };
    assert_eq!(
        w.handle(check(Some("used by \"python3\"")), at(5)),
        vec![toast("can't use 8123: used by \"python3\"")]
    );
    assert_eq!(app(&w, 3000).lport, Some(3000));
    assert_eq!(w.handle(check(None), at(5)), vec![forward(3000, 8123, true, Some(3000))]);
    assert_eq!(app(&w, 3000).status, FwdView::Pending);
    // The forward that it replaces is stale.
    assert_eq!(
        done(&mut w, 3000, 3000, false, None),
        vec![Effect::Run(mref().cancel(3000, 3000))]
    );
    assert_eq!(done(&mut w, 3000, 8123, true, None), vec![Effect::Save]);
    assert!(app(&w, 3000).pinned);
    assert!(w.memory().get(KEY, 3000).unwrap().pinned);
    assert_eq!(w.memory().get(KEY, 3000).unwrap().local_port, Some(8123));
}

#[test]
fn assigning_the_port_it_has_pins_it() {
    let mut w = forwarded(false);
    assert_eq!(
        cmd(&mut w, assign(3000, 3000)),
        vec![Effect::Save, toast("port 3000 pinned")]
    );
    assert!(w.memory().get(KEY, 3000).unwrap().pinned);
}

#[test]
fn assigning_a_claimed_port_is_refused() {
    let mut w = forwarded(false);
    scan(&mut w, vec![listener(3000, "node"), listener(4000, "b")], 5);
    assert_eq!(
        cmd(&mut w, assign(4000, 3000)),
        vec![toast("can't use 3000: already forwarding another app on it")]
    );
}

#[test]
fn unknown_targets_are_ignored_and_lost_hosts_are_told() {
    let mut w = forwarded(false);
    assert!(cmd(&mut w, assign(9, 9)).is_empty());
    assert!(cmd(&mut w, toggle(9)).is_empty());
    assert!(cmd(&mut w, Cmd::Toggle { host: "x".into(), rport: 3000 }).is_empty());
    assert!(cmd(&mut w, Cmd::ToggleHost { host: "x".into() }).is_empty());
    assert!(cmd(&mut w, Cmd::Quit).is_empty());
    w.handle(WMsg::AliveChecked { key: KEY.into(), alive: false }, at(40));
    assert_eq!(
        cmd(&mut w, assign(3000, 3001)),
        vec![toast("bob@web01:22: not connected yet")]
    );
    assert_eq!(cmd(&mut w, toggle(3000)), vec![toast("bob@web01:22: not connected yet")]);
}

#[test]
fn toggling_turns_off_and_on_again() {
    let mut w = forwarded(false);
    assert_eq!(
        cmd(&mut w, toggle(3000)),
        vec![Effect::Save, Effect::Run(mref().cancel(3000, 3000))]
    );
    let a = app(&w, 3000);
    assert!(a.muted);
    assert_eq!(a.status, FwdView::Off);
    assert!(w.memory().get(KEY, 3000).unwrap().muted);
    // Turned off by the user: no scan brings it back.
    assert!(scan(&mut w, vec![listener(3000, "node")], 6).is_empty());
    assert_eq!(cmd(&mut w, toggle(3000)), vec![Effect::Save, pick(3000, &[3000, 3000, 3000])]);
    assert!(!w.memory().get(KEY, 3000).unwrap().muted);
}

#[test]
fn muted_apps_stay_muted_on_the_next_run() {
    let mut memory = State::default();
    memory.entry(KEY, 3000).muted = true;
    memory.entry(KEY, 3000).comment = Some("mine".into());
    let mut w = connected(true, false, memory);
    assert!(scan(&mut w, vec![listener(3000, "node")], 2).is_empty());
    let a = app(&w, 3000);
    assert!(a.muted);
    assert_eq!(a.comment.as_deref(), Some("mine"));
}

#[test]
fn stolen_ports_are_replaced_once() {
    let mut w = connected(true, false, State::default());
    scan(&mut w, vec![listener(3000, "node")], 2);
    picked(&mut w, 3000, &[3000], None);
    assert_eq!(
        done(&mut w, 3000, 3000, false, Some("bind: Address already in use")),
        vec![pick(3000, &[3000])]
    );
    assert_eq!(picked(&mut w, 3000, &[], Some(40000)), vec![forward(3000, 40000, false, None)]);
    assert!(done(&mut w, 3000, 40000, false, Some("cannot listen to port")).is_empty());
    assert_eq!(app(&w, 3000).status, FwdView::Error("cannot listen to port".into()));
}

#[test]
fn other_failures_are_shown_at_once() {
    let mut w = connected(true, false, State::default());
    scan(&mut w, vec![listener(3000, "node")], 2);
    picked(&mut w, 3000, &[3000], None);
    assert!(done(&mut w, 3000, 3000, false, Some("mux refused")).is_empty());
    assert_eq!(app(&w, 3000).status, FwdView::Error("mux refused".into()));
}

#[test]
fn forwards_of_the_user_are_adopted_and_released() {
    let mut w = connected(true, false, State::default());
    w.handle(WMsg::Tick { conns: vec![conn(&["8080:localhost:80", "1:other:2"])] }, at(2));
    assert!(scan(&mut w, vec![listener(80, "nginx")], 2).is_empty());
    let a = app(&w, 80);
    assert_eq!(a.status, FwdView::External);
    assert_eq!(a.lport, Some(8080));
    assert_eq!(
        cmd(&mut w, toggle(80)),
        vec![toast("remote :80 is forwarded by your own ssh session (-L/LocalForward) — close it there")]
    );
    assert_eq!(
        cmd(&mut w, assign(80, 8081)),
        vec![toast("remote :80 is already forwarded by your own ssh session (-L/LocalForward) — manage it there")]
    );
    w.handle(WMsg::Tick { conns: vec![conn(&[])] }, at(3));
    assert_eq!(scan(&mut w, vec![listener(80, "nginx")], 6), vec![pick(80, &[])]);
    assert_eq!(app(&w, 80).status, FwdView::Off);
    assert_eq!(app(&w, 80).lport, None);
}

#[test]
fn hosts_are_shown_with_what_the_user_typed() {
    let w = forwarded(true);
    let h = host(&w);
    assert_eq!(h.key, KEY);
    assert_eq!(h.title, "bob@web01");
    // The title ends with what was typed: nothing to add.
    assert_eq!(h.alias, None);
    assert_eq!(h.master, MasterView::Ready { shared: true });
    assert!(h.scanned_once);
    assert!(!h.paused);
}

#[test]
fn closed_connections_are_torn_down() {
    let mut w = forwarded(false);
    let m = Master { r: mref(), external: false, child: None };
    assert_eq!(
        w.handle(WMsg::Tick { conns: vec![] }, at(9)),
        vec![Effect::Tear(Teardown { cancels: vec![], close: m.close() })]
    );
    assert!(w.snapshot().is_empty());
}

#[test]
fn shared_masters_only_lose_our_forwards() {
    let mut w = forwarded(true);
    w.handle(WMsg::Tick { conns: vec![conn(&["8080:localhost:80"])] }, at(4));
    scan(&mut w, vec![listener(80, "nginx"), listener(3000, "node")], 5);
    assert_eq!(app(&w, 80).status, FwdView::External);
    let t = w.cleanup();
    assert_eq!(t, vec![Teardown { cancels: vec![mref().cancel(3000, 3000)], close: None }]);
    assert!(w.snapshot().is_empty());
}

#[test]
fn masters_of_hosts_that_are_gone_are_closed() {
    let mut w = new_worker(true, State::default());
    let m = Master { r: mref(), external: false, child: Some(3) };
    assert_eq!(
        w.handle(WMsg::MasterDone { key: KEY.into(), result: Ok(m.clone()) }, at(1)),
        vec![Effect::Tear(Teardown { cancels: vec![], close: m.close() })]
    );
    let shared = Master { r: mref(), external: true, child: None };
    assert!(w.handle(WMsg::MasterDone { key: KEY.into(), result: Ok(shared) }, at(1)).is_empty());
    assert!(w.handle(WMsg::MasterDone { key: KEY.into(), result: Err("e".into()) }, at(1)).is_empty());
}

#[test]
fn failed_hosts_are_retried_after_a_while() {
    let mut w = new_worker(true, State::default());
    w.handle(WMsg::Learned { key: ck(), result: Some(resolved()) }, at(0));
    assert_eq!(w.handle(WMsg::Tick { conns: vec![conn(&[])] }, at(0)).len(), 1);
    // Still on the way.
    assert!(w.handle(WMsg::Tick { conns: vec![conn(&[])] }, at(50)).is_empty());
    w.handle(WMsg::MasterDone { key: KEY.into(), result: Err("no route".into()) }, at(60));
    assert_eq!(host(&w).master, MasterView::Failed("no route".into()));
    assert!(w.handle(WMsg::Tick { conns: vec![conn(&[])] }, at(90)).is_empty());
    assert_eq!(w.handle(WMsg::Tick { conns: vec![conn(&[])] }, at(91)).len(), 1);
    assert_eq!(host(&w).master, MasterView::Connecting);
}

#[test]
fn lost_masters_are_noticed_and_reconnected() {
    let mut w = forwarded(false);
    let effects = w.handle(
        WMsg::ScanDone { key: KEY.into(), result: Err("mux gone".into()) },
        at(100),
    );
    assert_eq!(effects, vec![Effect::CheckAlive { key: KEY.into(), command: mref().check() }]);
    assert_eq!(host(&w).scan_err.as_deref(), Some("mux gone"));
    assert!(w.handle(WMsg::AliveChecked { key: KEY.into(), alive: true }, at(100)).is_empty());
    assert_eq!(host(&w).master, MasterView::Ready { shared: false });
    assert!(w.handle(WMsg::AliveChecked { key: KEY.into(), alive: false }, at(100)).is_empty());
    assert_eq!(host(&w).master, MasterView::Failed("connection lost".into()));
    assert_eq!(app(&w, 3000).status, FwdView::Off);
    let effects = w.handle(WMsg::Tick { conns: vec![conn(&[])] }, at(100));
    assert_eq!(effects.len(), 1);
    assert_eq!(host(&w).master, MasterView::Connecting);
}

#[test]
fn early_losses_are_reconnected_at_once() {
    for (lost, tick) in [(3, 3), (10, 13), (29, 30), (31, 31)] {
        let mut w = forwarded(false);
        let dead = WMsg::AliveChecked { key: KEY.into(), alive: false };
        assert!(w.handle(dead, at(lost)).is_empty());
        assert_eq!(
            w.handle(WMsg::Tick { conns: vec![conn(&[])] }, at(tick)),
            vec![Effect::Connect {
                key: KEY.into(),
                dest: "web01".into(),
                extra: vec![],
                control_path: None,
            }]
        );
        assert_eq!(host(&w).master, MasterView::Connecting);
        // One at a time.
        assert!(w.handle(WMsg::Tick { conns: vec![conn(&[])] }, at(tick + 60)).is_empty());
    }
}

#[test]
fn forwards_of_any_session_are_known() {
    let mut w = connected(true, false, State::default());
    let conns = parse_ps("10 ssh web01\n11 ssh -N -L 8080:localhost:80 web01\n");
    w.handle(WMsg::Tick { conns }, at(2));
    let effects = scan(&mut w, vec![listener(80, "nginx"), listener(3000, "node")], 3);
    assert_eq!(effects, vec![pick(3000, &[3000])]);
    assert_eq!(app(&w, 80).status, FwdView::External);
    assert_eq!(app(&w, 80).lport, Some(8080));
}

#[test]
fn scans_keep_their_distance_unless_forced() {
    let mut w = forwarded(false);
    let tick = || WMsg::Tick { conns: vec![conn(&[])] };
    assert!(w.handle(tick(), at(4)).is_empty());
    assert_eq!(w.handle(tick(), at(5)).len(), 1);
    // One at a time.
    assert!(w.handle(tick(), at(50)).is_empty());
    assert!(cmd(&mut w, Cmd::Refresh).is_empty());
    scan(&mut w, vec![listener(3000, "node")], 51);
    assert_eq!(
        cmd(&mut w, Cmd::Refresh),
        vec![Effect::Scan { key: KEY.into(), command: mref().scan() }]
    );
}

#[test]
fn paused_hosts_forward_nothing() {
    let mut w = forwarded(false);
    let pause = || Cmd::ToggleHost { host: KEY.into() };
    assert_eq!(
        cmd(&mut w, pause()),
        vec![Effect::Save, Effect::Run(mref().cancel(3000, 3000))]
    );
    assert!(w.memory().paused(KEY));
    assert!(host(&w).paused);
    assert_eq!(app(&w, 3000).status, FwdView::Off);
    assert!(scan(&mut w, vec![listener(3000, "node")], 8).is_empty());
    assert!(picked(&mut w, 3000, &[3000], None).is_empty());
    assert_eq!(cmd(&mut w, toggle(3000)), vec![toast("bob@web01:22: forwarding is paused")]);
    assert_eq!(cmd(&mut w, assign(3000, 3001)), vec![toast("bob@web01:22: forwarding is paused")]);
    assert_eq!(
        done(&mut w, 3000, 3000, false, None),
        vec![Effect::Run(mref().cancel(3000, 3000))]
    );
    assert_eq!(cmd(&mut w, pause()), vec![Effect::Save, pick(3000, &[3000, 3000, 3000])]);
    assert!(!w.memory().paused(KEY));
}

#[test]
fn hidden_apps_are_not_forwarded_and_the_choice_is_remembered() {
    let mut w = connected(true, false, State::default());
    scan(&mut w, vec![listener(3000, "node")], 2);
    let hidden = || Cmd::ToggleHidden { host: KEY.into(), rport: 3000 };
    assert_eq!(cmd(&mut w, hidden()), vec![Effect::Save]);
    assert_eq!(app(&w, 3000).tier, Tier::Bg);
    assert!(app(&w, 3000).overridden);
    assert_eq!(w.memory().get(KEY, 3000).unwrap().tier.as_deref(), Some("bg"));
    assert!(scan(&mut w, vec![listener(3000, "node")], 5).is_empty());
    assert_eq!(cmd(&mut w, hidden()), vec![Effect::Save, pick(3000, &[3000])]);
    assert_eq!(w.memory().get(KEY, 3000).unwrap().tier.as_deref(), Some("app"));
}

#[test]
fn a_system_service_can_be_promoted() {
    let mut memory = State::default();
    memory.entry(KEY, 53).tier = Some("app".into());
    let mut w = connected(true, false, memory);
    assert_eq!(scan(&mut w, vec![listener(53, "named")], 2), vec![pick(53, &[])]);
    assert_eq!(app(&w, 53).tier, Tier::App);
}

#[test]
fn notes_are_kept_and_cleared() {
    let mut w = forwarded(false);
    let note = |t: &str| Cmd::SetComment { host: KEY.into(), rport: 3000, text: t.into() };
    assert_eq!(cmd(&mut w, note("gpu training")), vec![Effect::Save]);
    assert_eq!(app(&w, 3000).comment.as_deref(), Some("gpu training"));
    assert_eq!(w.memory().get(KEY, 3000).unwrap().comment.as_deref(), Some("gpu training"));
    assert_eq!(w.memory().get(KEY, 3000).unwrap().local_port, Some(3000));
    cmd(&mut w, note(""));
    assert_eq!(app(&w, 3000).comment, None);
    assert_eq!(w.memory().get(KEY, 3000).unwrap().comment, None);
}

#[test]
fn destinations_that_ssh_cannot_resolve_are_no_hosts() {
    let mut w = new_worker(true, State::default());
    w.handle(WMsg::Learned { key: ck(), result: None }, at(0));
    // The first answer stays.
    w.handle(WMsg::Learned { key: ck(), result: Some(resolved()) }, at(0));
    assert!(w.handle(WMsg::Tick { conns: vec![conn(&[])] }, at(0)).is_empty());
    assert!(w.snapshot().is_empty());
}

#[test]
fn a_later_scan_keeps_what_is_known() {
    let mut w = connected(true, false, State::default());
    scan(&mut w, vec![listener(3000, "node")], 2);
    let blind = RemoteApp { port: 3000, addr: "*".into(), ..Default::default() };
    scan(&mut w, vec![blind], 5);
    let a = app(&w, 3000);
    assert_eq!(a.addr, "*");
    assert_eq!(a.process.as_deref(), Some("node"));
    assert_eq!(a.pid, Some(7));
}
