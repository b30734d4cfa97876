//! How hosts are connected, watched and shown.
use vstd::prelude::*;
use crate::control;
use crate::discover;
use crate::host;
use crate::maps;
use crate::remote;
use crate::session_laws;
use crate::state;
use crate::text;
use crate::types;
use crate::util;
use crate::worker;
use crate::worker_laws;

verus! {

/// The commands for a live socket, word by word: they keep the user's config out, never ask anything,
/// fail rather than connect anew, and go to that socket and destination.
pub proof fn socket_commands_are_these(m: control::MasterRefModel)
    ensures
        ({
            let base = seq![
                "-F"@,
                "/dev/null"@,
                "-o"@,
                "BatchMode=yes"@,
                "-o"@,
                "ProxyCommand=false"@,
                "-S"@,
                m.socket,
            ];
            &&& m.check() == (util::InvocationModel {
                program: "ssh"@,
                args: base + seq!["-O"@, "check"@, m.dest],
                stdin: None,
                timeout_secs: 6,
            })
            &&& m.scan() == (util::InvocationModel {
                program: "ssh"@,
                args: base + seq!["-T"@, m.dest, "--"@, "sh"@],
                stdin: Some(remote::SCAN_SCRIPT@),
                timeout_secs: 25,
            })
            &&& m.exit() == (util::InvocationModel {
                program: "ssh"@,
                args: base + seq!["-O"@, "exit"@, m.dest],
                stdin: None,
                timeout_secs: 5,
            })
        }),
{
}

/// A master is ended by the command for its socket, its process, and its socket file.
pub proof fn masters_are_ended_wholly(m: control::LinkModel)
    ensures
        m.shutdown().command == m.r.exit(),
        m.shutdown().kill == m.child,
        m.shutdown().socket == m.r.socket,
{
}

/// A new master is started with these arguments and no others: on its own socket, never asking, with
/// a limit on the time to connect, kept alive, without the user's remote command and forwards, and
/// with the options that go with the destination.
pub proof fn new_masters_are_started_so(
    socket: Seq<char>,
    extra: Seq<Seq<char>>,
    dest: Seq<char>,
)
    ensures
        control::master_args(socket, extra, dest) == seq![
            "-M"@,
            "-N"@,
            "-S"@,
            socket,
            "-o"@,
            "BatchMode=yes"@,
            "-o"@,
            "ConnectTimeout=10"@,
            "-o"@,
            "ServerAliveInterval=15"@,
            "-o"@,
            "ServerAliveCountMax=3"@,
            "-o"@,
            "RemoteCommand=none"@,
            "-o"@,
            "ClearAllForwardings=yes"@,
        ] + extra + seq![dest],
{
}

/// The way to a master begins with the user's own, where the config has one, and else with the own
/// socket.
pub proof fn the_way_begins_with_the_users_master(dest: Seq<char>, cp: Seq<char>)
    ensures
        ({
            let m = control::MasterRefModel { dest, socket: cp };
            &&& control::connect_start(dest, Some(cp)) == (
                control::PhaseModel::Shared(m),
                control::StepModel::Check(m),
            )
            &&& control::connect_start(dest, None) == (
                control::PhaseModel::Socket,
                control::StepModel::FindSocket,
            )
        }),
{
}

/// A master that answers is taken: the user's as the user's, one left by an earlier run as an own one,
/// and a new one with the process that was started for it. One that does not answer leads on to the
/// next: from the user's to the own socket, and from there to a new master on that socket, whose stale
/// file is taken away first.
pub proof fn masters_that_answer_are_taken(
    dest: Seq<char>,
    extra: Seq<Seq<char>>,
    m: control::MasterRefModel,
    child: u64,
    deadline: u64,
    now: u64,
)
    ensures
        ({
            let yes = control::News::Checked { alive: true, now };
            let no = control::News::Checked { alive: false, now };
            let shared = control::PhaseModel::Shared(m);
            let own = control::PhaseModel::Own(m);
            let new = control::PhaseModel::Probing { own: m, child, deadline };
            &&& control::connect_next(dest, extra, shared, yes).1 == control::StepModel::Ready(
                control::LinkModel { r: m, external: true, child: None },
            )
            &&& control::connect_next(dest, extra, own, yes).1 == control::StepModel::Ready(
                control::LinkModel { r: m, external: false, child: None },
            )
            &&& control::connect_next(dest, extra, new, yes).1 == control::StepModel::Ready(
                control::LinkModel { r: m, external: false, child: Some(child) },
            )
            &&& control::connect_next(dest, extra, shared, no) == (
                control::PhaseModel::Socket,
                control::StepModel::FindSocket,
            )
            &&& control::connect_next(dest, extra, own, no) == (
                control::PhaseModel::Spawning(m),
                control::StepModel::Spawn {
                    stale: m.socket,
                    args: control::master_args(m.socket, extra, dest),
                },
            )
        }),
{
}

/// The own socket, once found, is asked for a master; a new master is looked after from its start, for
/// fifteen seconds, each time by its process and then by its socket. What fails is told.
pub proof fn new_masters_are_looked_after(
    dest: Seq<char>,
    extra: Seq<Seq<char>>,
    m: control::MasterRefModel,
    sock: String,
    why: String,
    child: u64,
    deadline: u64,
    now: u64,
)
    ensures
        ({
            let own = control::MasterRefModel { dest, socket: sock@ };
            let found = control::News::Socket(Ok(sock));
            let lost = control::News::Socket(Err(why));
            let begun = control::News::Spawned { child: Ok(child), now };
            let unbegun = control::News::Spawned { child: Err(why), now };
            let runs = control::News::Looked(None);
            let ended = control::News::Looked(Some(why));
            let seek = control::PhaseModel::Socket;
            let start = control::PhaseModel::Spawning(m);
            let wait = control::PhaseModel::Waiting { own: m, child, deadline };
            &&& control::connect_next(dest, extra, seek, found) == (
                control::PhaseModel::Own(own),
                control::StepModel::Check(own),
            )
            &&& control::connect_next(dest, extra, seek, lost).1 == control::StepModel::Failed(why@)
            &&& now + 15_000_000_000 <= u64::MAX ==> control::connect_next(dest, extra, start, begun)
                == (
                control::PhaseModel::Waiting {
                    own: m,
                    child,
                    deadline: (now + 15_000_000_000) as u64,
                },
                control::StepModel::Look { child, pause: false },
            )
            &&& control::connect_next(dest, extra, start, unbegun).1 == control::StepModel::Failed(
                "cannot run ssh: "@ + why@,
            )
            &&& control::connect_next(dest, extra, wait, runs) == (
                control::PhaseModel::Probing { own: m, child, deadline },
                control::StepModel::Check(m),
            )
            &&& control::connect_next(dest, extra, wait, ended).1 == control::StepModel::Failed(
                control::connect_error(why@),
            )
        }),
{
}

proof fn lemma_headline(ls: Seq<Seq<char>>, i: int)
    requires
        0 <= i <= ls.len(),
        forall|k: int| 0 <= k < i ==> text::trim(#[trigger] ls[k]).len() == 0,
    ensures
        i < ls.len() && text::trim(ls[i]).len() > 0 ==> util::first_filled(ls) == Some(
            text::trim(ls[i]),
        ),
        i == ls.len() ==> util::first_filled(ls) is None,
    decreases ls.len(),
{
    if ls.len() > 0 && i > 0 {
        let rest = ls.drop_first();
        assert forall|k: int| 0 <= k < i - 1 implies text::trim(#[trigger] rest[k]).len() == 0 by {
            assert(rest[k] == ls[k + 1]);
        }
        assert(text::trim(ls[0]).len() == 0);
        if i < ls.len() {
            assert(rest[i - 1] == ls[i]);
        }
        lemma_headline(rest, i - 1);
    }
}

/// An error is shown by the first line of it that is not blank, without the white space around it,
/// and by other words where all are blank.
pub proof fn errors_are_shown_by_their_first_line(s: Seq<char>, other: Seq<char>, i: int)
    requires
        0 <= i <= text::lines(s).len(),
        forall|k: int| 0 <= k < i ==> text::trim(#[trigger] text::lines(s)[k]).len() == 0,
    ensures
        i < text::lines(s).len() && text::trim(text::lines(s)[i]).len() > 0 ==> util::headline(s, other)
            == text::trim(text::lines(s)[i]),
        i == text::lines(s).len() ==> util::headline(s, other) == other,
{
    lemma_headline(text::lines(s), i);
}

/// Why a connection failed is shown by the first line of what ssh printed; where it wanted to ask the
/// user something, it is said what to do about it.
pub proof fn connection_errors_are_explained(stderr: Seq<char>)
    ensures
        ({
            let msg = util::headline(stderr, "connection failed"@);
            let asked = text::contains_text(msg, "Permission denied"@) || text::contains_text(
                msg,
                "Interactive authentication"@,
            );
            &&& !asked ==> control::connect_error(stderr) == msg
            &&& asked ==> control::connect_error(stderr) == msg
                + " — needs non-interactive auth: add your key to ssh-agent, or enable ControlMaster in ~/.ssh/config so I can share your session"@
        }),
{
}

/// A path in a directory has one slash between the two.
pub proof fn paths_are_joined_by_one_slash(dir: Seq<char>, name: Seq<char>)
    ensures
        util::joined(dir + "/"@, name) == dir + "/"@ + name,
        dir.len() > 0 && dir.last() != '/' ==> util::joined(dir, name) == dir + "/"@ + name,
        util::joined(Seq::empty(), name) == name,
{
    reveal_strlit("/");
    assert((dir + "/"@).last() == '/');
    assert(Seq::<char>::empty() + name =~= name);
}

/// Where there is no runtime directory the sockets lie in the directory for temporary files, under the
/// name of the user.
pub proof fn sockets_may_lie_in_the_temporary_directory(temp: Seq<char>, user: Seq<char>)
    ensures
        control::socket_dir(None, temp, Some(user)) == util::joined(temp, "ssh-autoport-"@ + user),
        control::socket_dir(None, temp, None) == util::joined(temp, "ssh-autoport-u"@),
{
    reveal_strlit("ssh-autoport-");
    reveal_strlit("u");
    reveal_strlit("ssh-autoport-u");
    assert("ssh-autoport-"@ + "u"@ =~= "ssh-autoport-u"@);
}

/// The memory lies where the user says, or else in ssh-autoport/state.json under the directory for
/// configuration, which is .config in the home directory unless the user says otherwise.
pub proof fn the_memory_lies_there(given: Seq<char>, config: Option<Seq<char>>, home: Option<Seq<char>>)
    ensures
        state::state_path(Some(given), config, home) == given,
        config matches Some(c) ==> state::state_path(None, config, home) == util::joined(
            util::joined(c, "ssh-autoport"@),
            "state.json"@,
        ),
        config is None && home is Some ==> state::state_path(None, config, home) == util::joined(
            util::joined(util::joined(home->0, ".config"@), "ssh-autoport"@),
            "state.json"@,
        ),
        config is None && home is None ==> state::state_path(None, config, home) == util::joined(
            util::joined(util::joined("."@, ".config"@), "ssh-autoport"@),
            "state.json"@,
        ),
{
}

/// A host is waiting for its connection: it has none yet, or the last try has failed long enough ago.
pub open spec fn waits_for_connection(h: host::HostWModel, now: u64) -> bool {
    !h.connect_inflight && match h.master {
        host::MStateModel::Connecting => true,
        host::MStateModel::Failed { at: Some(at), .. } => now > at && now - at > 30_000_000_000,
        host::MStateModel::Failed { at: None, .. } => true,
        host::MStateModel::Ready(_) => false,
    }
}

/// A host that waits for its connection is connected, by the way that the user connected to it; no
/// other is, and none twice at a time.
pub proof fn waiting_hosts_are_connected(h: host::HostWModel, now: u64, interval: u64)
    ensures
        ({
            let (after, effects) = h.wake(now, interval);
            let ask = host::EffectModel::Connect {
                key: h.key,
                dest: h.dest,
                extra: h.extra,
                control_path: h.control_path,
            };
            &&& waits_for_connection(h, now) ==> effects == seq![ask] && after == (host::HostWModel {
                master: host::MStateModel::Connecting,
                connect_inflight: true,
                ..h
            })
            &&& !waits_for_connection(h, now) ==> !effects.contains(ask) && after.master == h.master
                && after.connect_inflight == h.connect_inflight
        }),
{
    let (after, effects) = h.wake(now, interval);
    if waits_for_connection(h, now) {
        assert(h.connect_due(now));
        assert(effects =~= h.connect(now).1);
    } else {
        assert(!h.connect_due(now));
        assert(effects =~= h.scan(false, now, interval).1);
    }
}

/// A connected host is scanned when it was never scanned, or when the interval has passed since the
/// last scan, and never twice at a time.
pub proof fn connected_hosts_are_scanned(h: host::HostWModel, now: u64, interval: u64)
    requires
        h.master is Ready,
    ensures
        ({
            let (after, effects) = h.wake(now, interval);
            let due = !h.scanning && (h.last_scan is None || (h.last_scan->0 <= now && now
                - h.last_scan->0 >= interval) || interval == 0);
            &&& due ==> effects == seq![
                host::EffectModel::Scan { key: h.key, command: h.master->Ready_0.r.scan() },
            ] && after == (host::HostWModel { scanning: true, ..h })
            &&& !due ==> effects.len() == 0 && after == h
        }),
{
    let (after, effects) = h.wake(now, interval);
    assert(!h.connect_due(now));
    assert(effects =~= h.scan(false, now, interval).1);
}

/// A rescan reaches a connected host at once, unless it is being scanned already; a host without a
/// connection is not scanned.
pub proof fn rescans_are_at_once(h: host::HostWModel, now: u64, interval: u64)
    ensures
        h.master is Ready && !h.scanning ==> h.scan(true, now, interval) == (
            host::HostWModel { scanning: true, ..h },
            seq![host::EffectModel::Scan { key: h.key, command: h.master->Ready_0.r.scan() }],
        ),
        !(h.master is Ready) || h.scanning ==> h.scan(true, now, interval) == (
            h,
            Seq::<host::EffectModel>::empty(),
        ),
{
}

/// A host that a look at the connections finds for the first time is connected, by the first of the
/// connections that lead to it, and begins without apps.
pub proof fn new_hosts_are_connected(
    w: worker::WorkerModel,
    conns: Seq<discover::ConnModel>,
    now: u64,
    key: Seq<char>,
    i: int,
)
    requires
        worker_laws::worker_ok(w),
        !w.hosts.contains_key(key),
        0 <= i < conns.len(),
        worker_laws::leads_to(w, conns[i], key),
        forall|k: int| 0 <= k < i ==> !worker_laws::leads_to(w, #[trigger] conns[k], key),
    ensures
        ({
            let c = conns[i];
            let r = host::lookup(w.answers, c.key())->0->0;
            let (after, effects) = w.tick(conns, now);
            let h = after.hosts[key];
            &&& after.hosts.contains_key(key)
            &&& h.key == key
            &&& h.title == r.user + "@"@ + r.hostname
            &&& h.dest == c.dest
            &&& h.extra == c.extra
            &&& h.sshd_port == r.port
            &&& h.control_path == r.control_path
            &&& h.master is Connecting
            &&& h.connect_inflight
            &&& h.apps == Map::<u16, host::AppWModel>::empty()
            &&& h.last_scan is None
            &&& effects.contains(
                host::EffectModel::Connect {
                    key,
                    dest: c.dest,
                    extra: c.extra,
                    control_path: r.control_path,
                },
            )
        }),
{
    let c = conns[i];
    let r = host::lookup(w.answers, c.key())->0->0;
    let unseen = w.hosts.map_values(|h: host::HostWModel| h.unseen());
    lemma_new_host(w, unseen, conns, key, i);
    assert(worker_laws::connected_to(w, conns, key));
    worker_laws::lemma_woken(w, conns, now, key);
    let h = w.counted(conns).hosts[key];
    waiting_hosts_are_connected(h, now, w.interval);
    let wanted = h.wake(now, w.interval).1;
    assert(wanted[0] == (host::EffectModel::Connect {
        key,
        dest: c.dest,
        extra: c.extra,
        control_path: r.control_path,
    }));
}

proof fn lemma_new_host(
    w: worker::WorkerModel,
    hosts: Map<Seq<char>, host::HostWModel>,
    conns: Seq<discover::ConnModel>,
    key: Seq<char>,
    i: int,
)
    requires
        !hosts.contains_key(key),
        0 <= i < conns.len(),
        worker_laws::leads_to(w, conns[i], key),
        forall|k: int| 0 <= k < i ==> !worker_laws::leads_to(w, #[trigger] conns[k], key),
    ensures
        ({
            let after = worker::all_absorbed(hosts, w.answers, conns);
            let r = host::lookup(w.answers, conns[i].key())->0->0;
            &&& after.contains_key(key)
            &&& after[key] == (host::HostWModel {
                present: true,
                ext_forwards: after[key].ext_forwards,
                ..host::new_host(r, conns[i])
            })
        }),
    decreases conns.len(),
{
    let fewer = conns.drop_last();
    assert(conns.last() == conns[conns.len() - 1]);
    if i < fewer.len() {
        assert forall|k: int| 0 <= k < i implies !worker_laws::leads_to(w, #[trigger] fewer[k], key) by {
            assert(fewer[k] == conns[k]);
        }
        lemma_new_host(w, hosts, fewer, key, i);
    } else {
        assert forall|k: int| 0 <= k < fewer.len() implies !worker_laws::leads_to(
            w,
            #[trigger] fewer[k],
            key,
        ) by {
            assert(fewer[k] == conns[k]);
        }
        worker_laws::lemma_counted(w, hosts, fewer, key);
    }
}

/// The canonical identity of a host is user@hostname:port.
pub proof fn identities_are_written_so(r: discover::ResolvedModel)
    ensures
        host::identity(r) == r.user + "@"@ + r.hostname + ":"@ + text::decimal(r.port as nat),
{
}

/// A connection that came to stand is taken, and the host is scanned at once; one that failed is shown
/// with its reason, and the next try waits from then on. The apps stay.
pub proof fn ways_to_a_master_end(
    h: host::HostWModel,
    m: control::LinkModel,
    err: Seq<char>,
    now: u64,
    interval: u64,
)
    ensures
        ({
            let (up, e1) = h.mastered(Ok(m), now, interval);
            let (down, e2) = h.mastered(Err(err), now, interval);
            &&& up == (host::HostWModel {
                master: host::MStateModel::Ready(m),
                connect_inflight: false,
                scan_err: None,
                scanning: true,
                ..h
            })
            &&& !h.scanning ==> e1 == seq![
                host::EffectModel::Scan { key: h.key, command: m.r.scan() },
            ]
            &&& h.scanning ==> e1.len() == 0
            &&& down == (host::HostWModel {
                master: host::MStateModel::Failed { err, at: Some(now) },
                connect_inflight: false,
                ..h
            })
            &&& e2.len() == 0
        }),
{
}

/// A master that comes to stand for a host that is gone is ended, unless it is the user's.
pub proof fn masters_of_gone_hosts_are_ended(
    w: worker::WorkerModel,
    key: Seq<char>,
    m: control::LinkModel,
    now: u64,
)
    requires
        !w.hosts.contains_key(key),
    ensures
        w.master_done(key, Ok(m), now).0 == w,
        m.external ==> w.master_done(key, Ok(m), now).1.len() == 0,
        !m.external ==> w.master_done(key, Ok(m), now).1 == seq![
            host::EffectModel::Tear(
                host::TeardownModel { cancels: Seq::empty(), close: Some(m.shutdown()) },
            ),
        ],
{
}

/// A host whose master is found dead has lost its connection and all the forwards on it; a master that
/// lives, or a host without one, is left.
pub proof fn dead_masters_are_noticed(w: worker::WorkerModel, key: Seq<char>, rport: u16)
    ensures
        w.alive_checked(key, true) == w,
        !w.hosts.contains_key(key) ==> w.alive_checked(key, false) == w,
        w.hosts.contains_key(key) && w.hosts[key].master is Ready ==> ({
            let h = w.hosts[key];
            let after = w.alive_checked(key, false).hosts[key];
            &&& after == (host::HostWModel { master: after.master, apps: after.apps, ..h })
            &&& after.master == (host::MStateModel::Failed { err: "connection lost"@, at: None })
            &&& after.apps.contains_key(rport) <==> h.apps.contains_key(rport)
            &&& h.apps.contains_key(rport) ==> after.apps[rport] == (host::AppWModel {
                shown: types::AppModel {
                    status: types::FwdModel::Off,
                    ..h.apps[rport].shown
                },
                ..h.apps[rport]
            })
        }),
{
}

/// What ssh makes of a destination is learned once.
pub proof fn answers_are_learned_once(
    w: worker::WorkerModel,
    key: (Seq<char>, Seq<Seq<char>>),
    result: Option<discover::ResolvedModel>,
)
    ensures
        w.answers.contains_key(key) ==> w.learned(key, result) == w,
        !w.answers.contains_key(key) ==> w.learned(key, result) == (worker::WorkerModel {
            answers: w.answers.insert(key, result),
            ..w
        }),
{
}

/// Ssh is asked about exactly the connections of which it is not known yet what it makes of them.
pub proof fn ssh_is_asked_about_new_connections(
    answers: Map<(Seq<char>, Seq<Seq<char>>), Option<discover::ResolvedModel>>,
    conns: Seq<discover::ConnModel>,
)
    ensures
        worker::unanswered(answers, conns) == conns.map_values(
            |c: discover::ConnModel| c.key(),
        ).filter(|k: (Seq<char>, Seq<Seq<char>>)| !answers.contains_key(k)),
    decreases conns.len(),
{
    reveal(Seq::filter);
    let keys = conns.map_values(|c: discover::ConnModel| c.key());
    let test = |k: (Seq<char>, Seq<Seq<char>>)| !answers.contains_key(k);
    if conns.len() > 0 {
        ssh_is_asked_about_new_connections(answers, conns.drop_last());
        assert(keys.drop_last() =~= conns.drop_last().map_values(|c: discover::ConnModel| c.key()));
        assert(keys.last() == conns.last().key());
    } else {
        assert(keys =~= Seq::<(Seq<char>, Seq<Seq<char>>)>::empty());
        assert(keys.filter(test) =~= Seq::<(Seq<char>, Seq<Seq<char>>)>::empty());
    }
}

/// The forwards that the config gives to a host are known after a look at the connections: for every
/// localforward line of what `ssh -G` said of a connection to the host, the forward of its remote port
/// is known.
pub proof fn forwards_of_the_config_are_known(
    w: worker::WorkerModel,
    conns: Seq<discover::ConnModel>,
    now: u64,
    key: Seq<char>,
    n: int,
    out: Seq<char>,
    i: int,
)
    requires
        worker_laws::worker_ok(w),
        0 <= n < conns.len(),
        worker_laws::leads_to(w, conns[n], key),
        host::lookup(w.answers, conns[n].key()) == Some(discover::config_identity(out)),
        0 <= i < text::lines(out).len(),
        session_laws::forward_line(text::lines(out)[i]) is Some,
    ensures
        ({
            let (lport, rport) = session_laws::forward_line(text::lines(out)[i])->0;
            let after = w.tick(conns, now).0;
            after.hosts.contains_key(key) && after.hosts[key].ext_forwards.contains_key(rport)
        }),
{
    let (lport, rport) = session_laws::forward_line(text::lines(out)[i])->0;
    let r = discover::config_identity(out)->0;
    let m = session_laws::lemma_kept(text::lines(out), i);
    assert(r.lforwards[m] == (lport, rport));
    lemma_config_known(w, w.hosts.map_values(|h: host::HostWModel| h.unseen()), conns, n, key, m);
    assert(worker_laws::connected_to(w, conns, key));
    worker_laws::lemma_woken(w, conns, now, key);
}

proof fn lemma_config_known(
    w: worker::WorkerModel,
    hosts: Map<Seq<char>, host::HostWModel>,
    conns: Seq<discover::ConnModel>,
    n: int,
    key: Seq<char>,
    m: int,
)
    requires
        0 <= n < conns.len(),
        worker_laws::leads_to(w, conns[n], key),
        0 <= m < host::lookup(w.answers, conns[n].key())->0->0.lforwards.len(),
    ensures
        ({
            let after = worker::all_absorbed(hosts, w.answers, conns);
            let f = host::lookup(w.answers, conns[n].key())->0->0.lforwards[m];
            after.contains_key(key) && after[key].ext_forwards.contains_key(f.1)
        }),
    decreases conns.len(),
{
    let fewer = conns.drop_last();
    let conn = conns.last();
    let before = worker::all_absorbed(hosts, w.answers, fewer);
    let f = host::lookup(w.answers, conns[n].key())->0->0.lforwards[m];
    if n < fewer.len() {
        assert(fewer[n] == conns[n]);
        lemma_config_known(w, hosts, fewer, n, key, m);
    }
    if worker_laws::leads_to(w, conn, key) {
        let r = host::lookup(w.answers, conn.key())->0->0;
        let h = if before.contains_key(key) {
            before[key]
        } else {
            host::new_host(r, conn)
        };
        worker_laws::lemma_config_forwards(h.ext_forwards, r.lforwards, f.1);
        if n == fewer.len() {
            lemma_config_has(h.ext_forwards, r.lforwards, m);
        }
        let ext = host::config_forwards(h.ext_forwards, r.lforwards);
        worker_laws::lemma_session_forwards(ext, conn.lforwards, f.1);
    }
}

proof fn lemma_config_has(ext: Map<u16, u16>, fwds: Seq<(u16, u16)>, m: int)
    requires
        0 <= m < fwds.len(),
    ensures
        host::config_forwards(ext, fwds).contains_key(fwds[m].1),
    decreases fwds.len(),
{
    if m < fwds.len() - 1 {
        assert(fwds.drop_last()[m] == fwds[m]);
        lemma_config_has(ext, fwds.drop_last(), m);
    }
}

/// Of several forwards of the config for one remote port the last counts, and the forwards of the
/// session count more than those of the config.
pub proof fn later_forwards_count(ext: Map<u16, u16>, fwds: Seq<(u16, u16)>, f: (u16, u16), p: u16)
    ensures
        ({
            let after = host::config_forwards(ext, fwds.push(f));
            let before = host::config_forwards(ext, fwds);
            &&& after.contains_key(f.1) && after[f.1] == f.0
            &&& p != f.1 ==> (after.contains_key(p) <==> before.contains_key(p))
                && (before.contains_key(p) ==> after[p] == before[p])
        }),
        host::config_forwards(ext, Seq::empty()) == ext,
        host::session_forwards(ext, Seq::empty()) == ext,
{
    assert(fwds.push(f).drop_last() =~= fwds);
}

/// A forward of a session to another host than the server itself, or one that cannot be read, makes
/// nothing known.
pub proof fn forwards_elsewhere_do_not_count(
    ext: Map<u16, u16>,
    specs: Seq<Seq<char>>,
    spec: Seq<char>,
)
    requires
        discover::l_spec(spec) matches Some((_, name, _)) ==> !discover::loopback_host(name),
    ensures
        host::session_forwards(ext, specs.push(spec)) == host::session_forwards(ext, specs),
{
    assert(specs.push(spec).drop_last() =~= specs);
}

/// Each host is shown, in the order of the keys, with its title, the destination that the user typed
/// where it says something else, the state of its connection, whether it is paused, the error of the
/// last scan, and its apps in the order of their ports.
pub proof fn hosts_are_shown(w: worker::WorkerModel, i: int, j: int)
    requires
        worker_laws::worker_ok(w),
        0 <= i < w.shown().len(),
    ensures
        ({
            let v = w.shown()[i];
            let h = w.hosts[v.key];
            &&& w.hosts.contains_key(v.key)
            &&& v.title == h.title
            &&& v.alias == (if h.dest == h.title || text::ends_with(h.title, h.dest) {
                None
            } else {
                Some(h.dest)
            })
            &&& h.master is Connecting ==> v.master is Connecting
            &&& h.master matches host::MStateModel::Ready(m) ==> v.master == (
            types::MasterModel::Ready { shared: m.external })
            &&& h.master matches host::MStateModel::Failed { err, .. } ==> v.master
                == types::MasterModel::Failed(err)
            &&& v.paused <==> w.memory.paused.contains(v.key)
            &&& v.scan_err == h.scan_err
            &&& v.scanned_once <==> h.last_scan is Some
            &&& 0 <= j < v.apps.len() ==> h.apps.contains_key(v.apps[j].rport)
                && h.apps[v.apps[j].rport].shown == v.apps[j]
        }),
{
    worker_laws::lemma_keys(w);
    let key = w.keys()[i];
    assert(w.hosts.contains_key(w.keys()[i]));
    let h = w.hosts[key];
    assert(worker_laws::host_ok(w.memory, key, h));
    let ports = maps::ordered_keys::<u16, host::AppWModel>(h.apps);
    maps::lemma_ordered_keys::<u16, host::AppWModel>(h.apps);
    let v = w.shown()[i];
    if 0 <= j < v.apps.len() {
        assert(ports.to_set().contains(ports[j]));
        assert(worker_laws::app_ok(w.memory, key, ports[j], h.apps[ports[j]]));
    }
}

/// Every host and every app of it is shown.
pub proof fn everything_is_shown(w: worker::WorkerModel, key: Seq<char>, rport: u16)
    requires
        worker_laws::worker_ok(w),
        w.hosts.contains_key(key),
    ensures
        exists|i: int|
            0 <= i < w.shown().len() && (#[trigger] w.shown()[i]).key == key && (
            w.hosts[key].apps.contains_key(rport) ==> w.shown()[i].apps.contains(
                w.hosts[key].apps[rport].shown,
            )),
{
    worker_laws::lemma_keys(w);
    assert(w.keys().contains(key));
    let i = choose|i: int| 0 <= i < w.keys().len() && w.keys()[i] == key;
    let h = w.hosts[key];
    assert(worker_laws::host_ok(w.memory, key, h));
    assert(w.shown()[i].key == key);
    let ports = maps::ordered_keys::<u16, host::AppWModel>(h.apps);
    maps::lemma_ordered_keys::<u16, host::AppWModel>(h.apps);
    if h.apps.contains_key(rport) {
        assert(ports.to_set().contains(rport));
        let j = choose|j: int| 0 <= j < ports.len() && ports[j] == rport;
        assert(w.shown()[i].apps[j] == h.apps[rport].shown);
    }
}

/// A master that does not answer in its time is given up, and the way to a master is over where it has
/// led to one or has failed; the time never runs past the end of the clock.
pub proof fn ways_are_over_in_the_end(
    dest: Seq<char>,
    extra: Seq<Seq<char>>,
    m: control::MasterRefModel,
    why: String,
    child: u64,
    deadline: u64,
    now: u64,
)
    ensures
        ({
            let yes = control::News::Checked { alive: true, now };
            let no = control::News::Checked { alive: false, now };
            let probe = control::PhaseModel::Probing { own: m, child, deadline };
            let wait = control::PhaseModel::Waiting { own: m, child, deadline };
            let start = control::PhaseModel::Spawning(m);
            let over = |phase: control::PhaseModel, news: control::News|
                control::connect_next(dest, extra, phase, news).0 is Over;
            &&& now >= deadline ==> control::connect_next(dest, extra, probe, no) == (
                control::PhaseModel::Over,
                control::StepModel::GiveUp { child, err: "timed out establishing connection"@ },
            )
            &&& over(control::PhaseModel::Shared(m), yes)
            &&& over(control::PhaseModel::Own(m), yes)
            &&& over(probe, yes)
            &&& over(control::PhaseModel::Socket, control::News::Socket(Err(why)))
            &&& over(start, control::News::Spawned { child: Err(why), now })
            &&& over(wait, control::News::Looked(Some(why)))
            &&& now + 15_000_000_000 > u64::MAX ==> control::connect_next(
                dest,
                extra,
                start,
                control::News::Spawned { child: Ok(child), now },
            ).0 == (control::PhaseModel::Waiting { own: m, child, deadline: u64::MAX })
        }),
{
}

/// The hosts are shown in the order of their names, and the apps of a host in that of their ports.
pub proof fn hosts_and_apps_are_shown_in_order(w: worker::WorkerModel, i: int, j: int, n: int)
    requires
        worker_laws::worker_ok(w),
    ensures
        ({
            let v = w.shown();
            &&& 0 <= i < j < v.len() ==> text::text_before(v[i].key, v[j].key)
            &&& 0 <= n < v.len() && 0 <= i < j < v[n].apps.len() ==> v[n].apps[i].rport
                < v[n].apps[j].rport
        }),
{
    let keys = w.keys();
    let v = w.shown();
    maps::lemma_ordered_keys::<String, host::HostWModel>(w.hosts);
    worker_laws::lemma_keys(w);
    if 0 <= i < j < v.len() {
        assert(worker_laws::host_ok(w.memory, keys[i], w.hosts[keys[i]]));
        assert(worker_laws::host_ok(w.memory, keys[j], w.hosts[keys[j]]));
        assert(<String as maps::MapKey>::before(keys[i], keys[j]));
    }
    if 0 <= n < v.len() && 0 <= i < j < v[n].apps.len() {
        let h = w.hosts[keys[n]];
        assert(worker_laws::host_ok(w.memory, keys[n], h));
        maps::lemma_ordered_keys::<u16, host::AppWModel>(h.apps);
        let ps = maps::ordered_keys::<u16, host::AppWModel>(h.apps);
        assert(<u16 as maps::MapKey>::before(ps[i], ps[j]));
        assert(ps.to_set().contains(ps[i]) && ps.to_set().contains(ps[j]));
        assert(worker_laws::app_ok(w.memory, keys[n], ps[i], h.apps[ps[i]]));
        assert(worker_laws::app_ok(w.memory, keys[n], ps[j], h.apps[ps[j]]));
    }
}

} // verus!
