//! What holds across the parts: ports, forward specs, listings, masters, sockets, the memory.
use vstd::prelude::*;
use crate::control;
use crate::discover;
use crate::discover::ConnKey;
use crate::maps;
use crate::ports;
use crate::remote;
use crate::state;
use crate::text;
use crate::util;

verus! {

pub(crate) proof fn lemma_decimal(n: nat)
    ensures
        text::decimal(n).len() > 0,
        forall|i: int|
            0 <= i < text::decimal(n).len() ==> '0' <= #[trigger] text::decimal(n)[i] <= '9',
        text::digits_value(text::decimal(n), 10) == n,
    decreases n,
{
    let d = text::decimal(n);
    if n < 10 {
        assert(d.drop_last() =~= Seq::<char>::empty());
        assert(text::digits_value(d.drop_last(), 10) == 0);
        assert(text::digit_value(d.last()) == n);
    } else {
        lemma_decimal(n / 10);
        let front = text::decimal(n / 10);
        assert(d.drop_last() =~= front);
        assert(text::digit_value(d.last()) == n % 10);
        assert(n / 10 * 10 + n % 10 == n);
    }
}

/// A number that is written in decimal reads back as the same number.
pub proof fn decimal_reads_back(n: nat, max: nat)
    requires
        n <= max,
    ensures
        text::parse_uint(text::decimal(n), 10, max) == Some(n),
{
    lemma_decimal(n);
    let d = text::decimal(n);
    assert('0' <= d[0] <= '9');
    assert forall|i: int| 0 <= i < d.len() implies text::digit_value(#[trigger] d[i]) < 10 by {
        assert('0' <= d[i] <= '9');
    }
}

/// Text without colons and brackets only lengthens the last part of a forward spec.
pub(crate) proof fn lemma_part_grows(s: Seq<char>, t: Seq<char>)
    requires
        discover::fwd_parts(s).depth == 0,
        discover::fwd_parts(s).parts.len() > 0,
        !t.contains(':') && !t.contains('[') && !t.contains(']'),
    ensures
        ({
            let p = discover::fwd_parts(s).parts;
            discover::fwd_parts(s + t) == (discover::FwdParts {
                parts: p.drop_last().push(p.last() + t),
                depth: 0,
            })
        }),
    decreases t.len(),
{
    let p = discover::fwd_parts(s).parts;
    if t.len() == 0 {
        assert(s + t =~= s);
        assert(p.last() + t =~= p.last());
        assert(p.drop_last().push(p.last()) =~= p);
    } else {
        let front = t.drop_last();
        assert forall|c: char| front.contains(c) implies t.contains(c) by {
            let i = choose|i: int| 0 <= i < front.len() && front[i] == c;
            assert(t[i] == c);
        }
        lemma_part_grows(s, front);
        assert((s + t).drop_last() =~= s + front);
        assert((s + t).last() == t.last());
        assert(t[t.len() - 1] == t.last());
        let before = p.drop_last().push(p.last() + front);
        assert(before.drop_last() =~= p.drop_last());
        assert(before.last() == p.last() + front);
        assert((p.last() + front).push(t.last()) =~= p.last() + t);
    }
}

/// A colon begins a new part of a forward spec.
pub(crate) proof fn lemma_part_ends(s: Seq<char>)
    requires
        discover::fwd_parts(s).depth == 0,
    ensures
        discover::fwd_parts(s.push(':')) == (discover::FwdParts {
            parts: discover::fwd_parts(s).parts.push(Seq::empty()),
            depth: 0,
        }),
{
    assert(s.push(':').drop_last() =~= s);
}

pub(crate) proof fn lemma_no_marks(n: nat)
    ensures
        !text::decimal(n).contains(':'),
        !text::decimal(n).contains('['),
        !text::decimal(n).contains(']'),
{
    lemma_decimal(n);
    let d = text::decimal(n);
    assert forall|c: char| d.contains(c) implies '0' <= c <= '9' by {
        let i = choose|i: int| 0 <= i < d.len() && d[i] == c;
        assert('0' <= d[i] <= '9');
    }
}

/// The forward specs that are handed to ssh mean, to the reader of such specs, a forward between
/// exactly these ports to the server itself.
pub proof fn forward_specs_read_back(lport: u16, rport: u16)
    ensures
        discover::l_spec(control::forward_spec(lport, rport)) == Some(
            (lport, "localhost"@, rport),
        ),
        discover::loopback_host("localhost"@),
{
    reveal_strlit("127.0.0.1:");
    reveal_strlit("127.0.0.1");
    reveal_strlit(":localhost:");
    reveal_strlit("localhost");
    let l = text::decimal(lport as nat);
    let r = text::decimal(rport as nat);
    let none = Seq::<char>::empty();
    let addr = "127.0.0.1"@;
    let name = "localhost"@;
    lemma_no_marks(lport as nat);
    lemma_no_marks(rport as nat);
    assert(discover::fwd_parts(none).parts =~= seq![none]);
    assert(none + addr =~= addr);
    assert(seq![none].drop_last().push(none + addr) =~= seq![addr]);
    lemma_part_grows(none, addr);
    assert(discover::fwd_parts(addr).parts =~= seq![addr]);
    lemma_part_ends(addr);
    let s1 = addr.push(':');
    assert(s1 =~= "127.0.0.1:"@);
    assert(discover::fwd_parts(s1).parts =~= seq![addr, none]);
    lemma_part_grows(s1, l);
    assert(none + l =~= l);
    assert(discover::fwd_parts(s1 + l).parts =~= seq![addr, l]);
    lemma_part_ends(s1 + l);
    let s2 = (s1 + l).push(':');
    assert(discover::fwd_parts(s2).parts =~= seq![addr, l, none]);
    lemma_part_grows(s2, name);
    assert(none + name =~= name);
    assert(discover::fwd_parts(s2 + name).parts =~= seq![addr, l, name]);
    lemma_part_ends(s2 + name);
    let s3 = (s2 + name).push(':');
    assert(discover::fwd_parts(s3).parts =~= seq![addr, l, name, none]);
    lemma_part_grows(s3, r);
    assert(none + r =~= r);
    assert(discover::fwd_parts(s3 + r).parts =~= seq![addr, l, name, r]);
    assert(s3 + r =~= control::forward_spec(lport, rport));
    decimal_reads_back(lport as nat, 0xffff);
    decimal_reads_back(rport as nat, 0xffff);
}

/// A local port that is picked is one of the preferred ones, not privileged, not claimed and free,
/// with no better one before it; or it is the ephemeral one, where none of them will do.
pub proof fn picked_port_will_do(
    preferred: Seq<u16>,
    taken: Set<u16>,
    free: Seq<u16>,
    ephemeral: Option<u16>,
)
    ensures
        ({
            let will_do = |p: u16| p >= 1024 && !taken.contains(p) && free.contains(p);
            ||| exists|i: int|
                0 <= i < preferred.len() && will_do(#[trigger] preferred[i]) && ports::picked(
                    preferred,
                    taken,
                    free,
                    ephemeral,
                ) == Some(preferred[i]) && forall|j: int|
                    0 <= j < i ==> !will_do(#[trigger] preferred[j])
            ||| ports::picked(preferred, taken, free, ephemeral) == ephemeral && forall|j: int|
                0 <= j < preferred.len() ==> !will_do(#[trigger] preferred[j])
        }),
    decreases preferred.len(),
{
    let will_do = |p: u16| p >= 1024 && !taken.contains(p) && free.contains(p);
    if preferred.len() > 0 {
        if will_do(preferred[0]) {
            assert(ports::picked(preferred, taken, free, ephemeral) == Some(preferred[0]));
        } else {
            let rest = preferred.drop_first();
            picked_port_will_do(rest, taken, free, ephemeral);
            assert(forall|j: int| 0 <= j < rest.len() ==> #[trigger] rest[j] == preferred[j + 1]);
            if forall|j: int| 0 <= j < rest.len() ==> !will_do(#[trigger] rest[j]) {
                assert forall|j: int| 0 <= j < preferred.len() implies !will_do(
                    #[trigger] preferred[j],
                ) by {
                    if j > 0 {
                        assert(!will_do(rest[j - 1]));
                    }
                }
            } else {
                let i = choose|i: int|
                    0 <= i < rest.len() && will_do(#[trigger] rest[i]) && ports::picked(
                        rest,
                        taken,
                        free,
                        ephemeral,
                    ) == Some(rest[i]) && forall|j: int|
                        0 <= j < i ==> !will_do(#[trigger] rest[j]);
                assert(preferred[i + 1] == rest[i]);
                assert forall|j: int| 0 <= j < i + 1 implies !will_do(#[trigger] preferred[j]) by {
                    if j > 0 {
                        assert(!will_do(rest[j - 1]));
                    }
                }
            }
        }
    }
}

proof fn lemma_candidate(preferred: Seq<u16>, taken: Set<u16>, i: int)
    requires
        0 <= i < preferred.len(),
        ports::allowed(preferred[i], taken),
    ensures
        ports::candidates(preferred, taken).contains(preferred[i]),
    decreases preferred.len(),
{
    let all = ports::candidates(preferred, taken);
    if i == preferred.len() - 1 {
        assert(all[all.len() - 1] == preferred[i]);
    } else {
        lemma_candidate(preferred.drop_last(), taken, i);
        let before = ports::candidates(preferred.drop_last(), taken);
        let k = choose|k: int| 0 <= k < before.len() && before[k] == preferred[i];
        assert(all[k] == preferred[i]);
    }
}

proof fn lemma_same_pick(
    preferred: Seq<u16>,
    taken: Set<u16>,
    free: Seq<u16>,
    probed: Seq<u16>,
    ephemeral: Option<u16>,
)
    requires
        forall|i: int|
            0 <= i < preferred.len() && ports::allowed(#[trigger] preferred[i], taken) ==> (
            free.contains(preferred[i]) <==> probed.contains(preferred[i])),
    ensures
        ports::picked(preferred, taken, free, ephemeral) == ports::picked(
            preferred,
            taken,
            probed,
            ephemeral,
        ),
    decreases preferred.len(),
{
    if preferred.len() > 0 {
        assert(ports::allowed(preferred[0], taken) ==> (free.contains(preferred[0])
            <==> probed.contains(preferred[0])));
        let rest = preferred.drop_first();
        assert forall|i: int|
            0 <= i < rest.len() && ports::allowed(#[trigger] rest[i], taken) implies (
        free.contains(rest[i]) <==> probed.contains(rest[i])) by {
            assert(rest[i] == preferred[i + 1]);
        }
        lemma_same_pick(rest, taken, free, probed, ephemeral);
    }
}

/// It is enough to probe the candidates: the pick is the same as if every port had been probed,
/// even if more ports have been claimed meanwhile.
pub proof fn probing_candidates_suffices(
    preferred: Seq<u16>,
    taken: Set<u16>,
    later: Set<u16>,
    free: Seq<u16>,
    probed: Seq<u16>,
    ephemeral: Option<u16>,
)
    requires
        taken.subset_of(later),
        forall|p: u16|
            ports::candidates(preferred, taken).contains(p) ==> (#[trigger] probed.contains(p)
                <==> free.contains(p)),
    ensures
        ports::picked(preferred, later, probed, ephemeral) == ports::picked(
            preferred,
            later,
            free,
            ephemeral,
        ),
{
    assert forall|i: int|
        0 <= i < preferred.len() && ports::allowed(#[trigger] preferred[i], later) implies (
    free.contains(preferred[i]) <==> probed.contains(preferred[i])) by {
        lemma_candidate(preferred, taken, i);
    }
    lemma_same_pick(preferred, later, free, probed, ephemeral);
}

pub(crate) proof fn lemma_ports_finite(apps: Seq<remote::RemoteModel>)
    ensures
        remote::by_port(apps).dom().finite(),
        forall|p: u16|
            remote::by_port(apps).contains_key(p) <==> exists|i: int|
                0 <= i < apps.len() && (#[trigger] apps[i]).port == p,
{
    let all = apps.map_values(|a: remote::RemoteModel| a.port);
    assert forall|p: u16|
        remote::by_port(apps).contains_key(p) <==> exists|i: int|
            0 <= i < apps.len() && (#[trigger] apps[i]).port == p by {
        let test = |a: remote::RemoteModel| a.port == p;
        let own = apps.filter(test);
        if own.len() > 0 {
            assert(test(own[0]));
            assert(own.contains(own[0]));
            apps.lemma_filter_contains_rev(test, own[0]);
            let i = choose|i: int| 0 <= i < apps.len() && apps[i] == own[0];
            assert(apps[i].port == p);
        }
        if exists|i: int| 0 <= i < apps.len() && (#[trigger] apps[i]).port == p {
            let i = choose|i: int| 0 <= i < apps.len() && (#[trigger] apps[i]).port == p;
            assert(test(apps[i]));
            assert(own.contains(apps[i]));
        }
    }
    assert forall|p: u16| remote::by_port(apps).contains_key(p) implies all.to_set().contains(p) by {
        let i = choose|i: int| 0 <= i < apps.len() && (#[trigger] apps[i]).port == p;
        assert(all[i] == p);
    }
    assert(remote::by_port(apps).dom().subset_of(all.to_set()));
    vstd::set_lib::lemma_len_subset(remote::by_port(apps).dom(), all.to_set());
}

/// A listing of listeners has each port that occurs exactly once, in increasing order, however many
/// addresses and address families it was bound on.
pub proof fn listings_have_each_port_once(apps: Seq<remote::RemoteModel>)
    ensures
        forall|i: int, j: int|
            0 <= i < j < remote::listing(apps).len() ==> (#[trigger] remote::listing(apps)[i]).port
                < (#[trigger] remote::listing(apps)[j]).port,
        forall|i: int|
            0 <= i < apps.len() ==> exists|j: int|
                0 <= j < remote::listing(apps).len() && (#[trigger] remote::listing(apps)[j]).port
                    == (#[trigger] apps[i]).port,
        forall|j: int|
            0 <= j < remote::listing(apps).len() ==> exists|i: int|
                0 <= i < apps.len() && (#[trigger] apps[i]).port == (#[trigger] remote::listing(
                    apps,
                )[j]).port,
{
    let m = remote::by_port(apps);
    let keys = maps::ordered_keys::<u16, remote::RemoteModel>(m);
    let out = remote::listing(apps);
    lemma_ports_finite(apps);
    maps::lemma_ordered_keys::<u16, remote::RemoteModel>(m);
    assert forall|j: int| 0 <= j < out.len() implies (#[trigger] out[j]).port == keys[j]
        && m.contains_key(keys[j]) by {
        assert(keys.to_set().contains(keys[j]));
    }
    assert forall|i: int, j: int| 0 <= i < j < out.len() implies (#[trigger] out[i]).port < (
    #[trigger] out[j]).port by {
        assert(<u16 as maps::MapKey>::before(keys[i], keys[j]));
    }
    assert forall|i: int| 0 <= i < apps.len() implies exists|j: int|
        0 <= j < out.len() && (#[trigger] out[j]).port == (#[trigger] apps[i]).port by {
        assert(m.contains_key(apps[i].port));
        assert(keys.to_set().contains(apps[i].port));
        let j = choose|j: int| 0 <= j < keys.len() && keys[j] == apps[i].port;
        assert(out[j].port == apps[i].port);
    }
    assert forall|j: int| 0 <= j < out.len() implies exists|i: int|
        0 <= i < apps.len() && (#[trigger] apps[i]).port == (#[trigger] out[j]).port by {
        assert(m.contains_key(keys[j]));
    }
}

/// The processes that the program starts for itself are no connections of the user.
pub proof fn own_processes_do_not_count(line: Seq<char>, pid: Seq<char>, rest: Seq<char>)
    requires
        discover::split_white(text::trim_start(line)) == Some((pid, rest)),
        text::contains_text(rest, "ssh-autoport"@),
    ensures
        discover::ps_line(line) is None,
{
}

/// A session with a remote command behind its destination is no connection.
pub proof fn remote_commands_do_not_count(args: Seq<Seq<char>>, seen: discover::ArgsModel)
    requires
        args.len() > 1,
        args[0].len() == 0 || args[0][0] != '-',
    ensures
        discover::ssh_args(args, seen) is None,
{
    reveal_strlit("--");
}

/// A text stands in every text that it is a piece of.
proof fn lemma_inside(a: Seq<char>, pat: Seq<char>, b: Seq<char>)
    ensures
        text::contains_text(a + pat + b, pat),
{
    assert((a + pat + b).subrange(a.len() as int, (a.len() + pat.len()) as int) =~= pat);
    assert(text::occurs_at(a + pat + b, pat, a.len() as int));
}

/// The control sockets that the program makes for itself carry its name, so that the processes on
/// them are recognised as its own.
pub proof fn own_sockets_carry_the_name(
    runtime: Option<Seq<char>>,
    temp: Seq<char>,
    user: Option<Seq<char>>,
    key: Seq<char>,
)
    ensures
        text::contains_text(
            control::socket_path(control::socket_dir(runtime, temp, user), key),
            "ssh-autoport"@,
        ),
{
    reveal_strlit("ssh-autoport");
    reveal_strlit("ssh-autoport-");
    reveal_strlit("-");
    let name = "ssh-autoport"@;
    let dir = control::socket_dir(runtime, temp, user);
    let path = control::socket_path(dir, key);
    let base = match runtime {
        Some(rt) => rt,
        None => temp,
    };
    let before = if base.len() == 0 || base.last() == '/' {
        base
    } else {
        base + "/"@
    };
    let after = match (runtime, user) {
        (Some(_), _) => Seq::empty(),
        (None, Some(u)) => "-"@ + u,
        (None, None) => "-"@ + "u"@,
    };
    assert("ssh-autoport-"@ =~= name + "-"@);
    assert(dir =~= before + name + after);
    let file = "m-"@ + control::hex(control::text_hash(key) as nat, 12) + ".sock"@;
    let more = if dir.len() == 0 || dir.last() == '/' {
        file
    } else {
        "/"@ + file
    };
    assert(path =~= before + name + (after + more));
    lemma_inside(before, name, after + more);
}

/// The user's own master is asked before any other, and it is the only one that ever counts as
/// shared.
pub proof fn shared_masters_are_the_users(
    dest: Seq<char>,
    extra: Seq<Seq<char>>,
    control_path: Option<Seq<char>>,
    phase: control::PhaseModel,
    news: control::News,
)
    requires
        control::awaited(phase, news),
    ensures
        control_path is Some ==> control::connect_start(dest, control_path).1
            == control::StepModel::Check(
            control::MasterRefModel { dest, socket: control_path->0 },
        ),
        control::connect_next(dest, extra, phase, news).1 matches control::StepModel::Ready(m) ==> (
        m.external <==> phase is Shared) && (m.external ==> phase == control::PhaseModel::Shared(
            m.r,
        ) && m.child is None),
{
}

/// A new master is given up only when its time has passed, and then its process is killed; until
/// then it is looked at again.
pub proof fn new_masters_are_given_time(
    dest: Seq<char>,
    extra: Seq<Seq<char>>,
    own: control::MasterRefModel,
    child: u64,
    deadline: u64,
    now: u64,
)
    ensures
        ({
            let phase = control::PhaseModel::Probing { own, child, deadline };
            let news = control::News::Checked { alive: false, now };
            let (next, step) = control::connect_next(dest, extra, phase, news);
            &&& now < deadline ==> next == (control::PhaseModel::Waiting { own, child, deadline })
                && step == (control::StepModel::Look { child, pause: true })
            &&& now >= deadline ==> next is Over && (step matches control::StepModel::GiveUp {
                child: c,
                ..
            } && c == child)
        }),
{
}

/// Every command for a live socket begins with the options that keep the user's config out and
/// never let ssh ask anything.
pub proof fn live_sockets_are_used_alone(m: control::MasterRefModel, op: Seq<char>, l: u16, r: u16)
    ensures
        m.check().args.take(8) == control::base_args(m.socket),
        m.scan().args.take(8) == control::base_args(m.socket),
        m.mux(op, l, r).args.take(8) == control::base_args(m.socket),
        m.exit().args.take(8) == control::base_args(m.socket),
{
    assert(m.check().args.take(8) =~= control::base_args(m.socket));
    assert(m.scan().args.take(8) =~= control::base_args(m.socket));
    assert(m.mux(op, l, r).args.take(8) =~= control::base_args(m.socket));
    assert(m.exit().args.take(8) =~= control::base_args(m.socket));
}

/// A master of the program's own never asks anything, runs no command of the user's config and
/// carries none of the user's forwards; the options that make the user's identity go along with it.
pub proof fn own_masters_keep_to_themselves(
    socket: Seq<char>,
    extra: Seq<Seq<char>>,
    dest: Seq<char>,
)
    ensures
        control::master_args(socket, extra, dest).contains("BatchMode=yes"@),
        control::master_args(socket, extra, dest).contains("RemoteCommand=none"@),
        control::master_args(socket, extra, dest).contains("ClearAllForwardings=yes"@),
        control::master_args(socket, extra, dest).subrange(16, (16 + extra.len()) as int) == extra,
        control::master_args(socket, extra, dest).last() == dest,
{
    let args = control::master_args(socket, extra, dest);
    assert(args[5] == "BatchMode=yes"@);
    assert(args[13] == "RemoteCommand=none"@);
    assert(args[15] == "ClearAllForwardings=yes"@);
    assert(args.subrange(16, (16 + extra.len()) as int) =~= extra);
}

pub(crate) proof fn lemma_sessions(ls: Seq<Seq<char>>)
    ensures
        discover::sessions(ls).dom().finite(),
        forall|k: (Seq<char>, Seq<Seq<char>>)|
            discover::sessions(ls).contains_key(k) ==> (#[trigger] discover::sessions(ls)[k]).key()
                == k,
    decreases ls.len(),
{
    if ls.len() > 0 {
        lemma_sessions(ls.drop_last());
    }
}

/// No two connections in a listing of the process table have the same destination and options.
pub proof fn connections_are_told_apart(out: Seq<char>, i: int, j: int)
    requires
        0 <= i < j < discover::session_listing(out).len(),
    ensures
        discover::session_listing(out)[i].key() != discover::session_listing(out)[j].key(),
{
    let m = discover::sessions(text::lines(out));
    let keys = maps::ordered_keys::<ConnKey, discover::ConnModel>(m);
    lemma_sessions(text::lines(out));
    maps::lemma_ordered_keys::<ConnKey, discover::ConnModel>(m);
    assert(keys.to_set().contains(keys[i]) && keys.to_set().contains(keys[j]));
    assert(<ConnKey as maps::MapKey>::before(keys[i], keys[j]));
    <ConnKey as maps::MapKey>::before_irreflexive(keys[i]);
    assert(m[keys[i]].key() == keys[i] && m[keys[j]].key() == keys[j]);
}

pub(crate) proof fn lemma_session_kept(ls: Seq<Seq<char>>, i: int)
    requires
        0 <= i < ls.len(),
        discover::ps_line(ls[i]) is Some,
    ensures
        ({
            let c = discover::ps_line(ls[i])->0;
            let all = discover::sessions(ls);
            &&& all.contains_key(c.key())
            &&& forall|j: int|
                0 <= j < c.lforwards.len() ==> all[c.key()].lforwards.contains(
                    #[trigger] c.lforwards[j],
                )
        }),
    decreases ls.len(),
{
    let c = discover::ps_line(ls[i])->0;
    let fewer = ls.drop_last();
    let before = discover::sessions(fewer);
    let all = discover::sessions(ls);
    if i < fewer.len() {
        assert(fewer[i] == ls[i]);
        lemma_session_kept(fewer, i);
    }
    assert forall|j: int| 0 <= j < c.lforwards.len() implies all[c.key()].lforwards.contains(
        #[trigger] c.lforwards[j],
    ) by {
        let held = before[c.key()].lforwards;
        let now = all[c.key()].lforwards;
        if i < fewer.len() {
            assert(held.contains(c.lforwards[j]));
            let n = choose|n: int| 0 <= n < held.len() && held[n] == c.lforwards[j];
            assert(now[n] == c.lforwards[j]);
        } else if before.contains_key(c.key()) {
            assert(now[held.len() + j] == c.lforwards[j]);
        } else {
            assert(now[j] == c.lforwards[j]);
        }
    }
}

/// Every session in the process table is told of, and none of the forwards that it was started with
/// is lost where several sessions go to one server in the same way.
pub proof fn sessions_keep_their_forwards(out: Seq<char>, i: int)
    requires
        0 <= i < text::lines(out).len(),
        discover::ps_line(text::lines(out)[i]) is Some,
    ensures
        ({
            let c = discover::ps_line(text::lines(out)[i])->0;
            let conns = discover::session_listing(out);
            exists|n: int|
                0 <= n < conns.len() && (#[trigger] conns[n]).key() == c.key() && forall|j: int|
                    0 <= j < c.lforwards.len() ==> conns[n].lforwards.contains(
                        #[trigger] c.lforwards[j],
                    )
        }),
{
    let c = discover::ps_line(text::lines(out)[i])->0;
    let m = discover::sessions(text::lines(out));
    let keys = maps::ordered_keys::<ConnKey, discover::ConnModel>(m);
    let conns = discover::session_listing(out);
    lemma_session_kept(text::lines(out), i);
    lemma_sessions(text::lines(out));
    maps::lemma_ordered_keys::<ConnKey, discover::ConnModel>(m);
    assert(keys.to_set().contains(c.key()));
    let n = choose|n: int| 0 <= n < keys.len() && keys[n] == c.key();
    assert(conns[n] == m[c.key()]);
}

/// Pausing or resuming a host says what it says of that host, and leaves every other host and
/// everything that is remembered of ports.
pub proof fn pausing_touches_one_host(
    memory: state::StateModel,
    host: Seq<char>,
    paused: bool,
    other: Seq<char>,
    rport: u16,
)
    ensures
        ({
            let after = memory.with_paused(host, paused);
            &&& after.paused.contains(host) == paused
            &&& other != host ==> after.paused.contains(other) == memory.paused.contains(other)
            &&& after.get(other, rport) == memory.get(other, rport)
            &&& after.with_paused(host, memory.paused.contains(host)) == memory
        }),
{
    let back = memory.with_paused(host, paused).with_paused(host, memory.paused.contains(host));
    assert(back.paused =~= memory.paused);
}

/// The digits of a number in base sixteen are as many as asked for, and lower case.
proof fn lemma_hex(n: nat, digits: nat)
    ensures
        control::hex(n, digits).len() == digits,
        forall|i: int|
            0 <= i < digits ==> {
                let c = #[trigger] control::hex(n, digits)[i];
                '0' <= c <= '9' || 'a' <= c <= 'f'
            },
    decreases digits,
{
    if digits > 0 {
        lemma_hex(n / 16, (digits - 1) as nat);
    }
}

/// The control socket of a host lies directly in the directory of the sockets, which is
/// "ssh-autoport" in the runtime directory where there is one. Its name is "m-", twelve lower-case
/// hexadecimal digits and ".sock", and depends on the host alone.
pub proof fn sockets_lie_in_their_directory(
    rt: Seq<char>,
    temp: Seq<char>,
    user: Option<Seq<char>>,
    key: Seq<char>,
)
    ensures
        ({
            let digits = control::hex(control::text_hash(key) as nat, 12);
            let name = "m-"@ + digits + ".sock"@;
            let dir = util::joined(rt, "ssh-autoport"@);
            &&& control::socket_dir(Some(rt), temp, user) == dir
            &&& control::socket_path(dir, key) == util::joined(dir, name)
            &&& digits.len() == 12
            &&& forall|i: int|
                0 <= i < 12 ==> '0' <= #[trigger] digits[i] <= '9' || 'a' <= digits[i] <= 'f'
            &&& !name.contains('/')
        }),
{
    let digits = control::hex(control::text_hash(key) as nat, 12);
    lemma_hex(control::text_hash(key) as nat, 12);
    reveal_strlit("m-");
    reveal_strlit(".sock");
    let name = "m-"@ + digits + ".sock"@;
    assert forall|i: int| 0 <= i < name.len() implies name[i] != '/' by {
        if 2 <= i < 14 {
            assert(name[i] == digits[i - 2]);
        }
    }
}

} // verus!
