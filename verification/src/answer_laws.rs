//! What is made of the commands that were run, and what is kept in the file.
use vstd::prelude::*;
use crate::control;
use crate::discover;
use crate::maps;
use crate::ports;
use crate::remote;
use crate::state;
use crate::util;
use crate::util::{Output, Poll, Watch};

verus! {

/// A command that could not be run, or was ended, tells of no session, of no identity and of no master
/// that lives; the scan and the forward it was for have failed for the reason it failed.
pub proof fn commands_that_fail_say_why(e: String)
    ensures
        ({
            let ran = Err::<Output, String>(e);
            &&& !control::check_answer(ran)
            &&& control::scan_answer(ran) == Err::<Seq<char>, Seq<char>>(e@)
            &&& control::mux_answer(ran) == Err::<(), Seq<char>>(e@)
            &&& discover::discover_answer(ran).len() == 0
            &&& discover::resolve_answer(ran) is None
        }),
{
}

/// A command that exits with status zero is believed: the master lives, the forward stands, and what
/// was printed is the process table, the identity, or the outcome of the scan.
pub proof fn commands_that_succeed_are_believed(out: Output)
    requires
        out.success,
    ensures
        ({
            let ran = Ok::<Output, String>(out);
            let text = util::lossy(out.stdout@);
            &&& control::check_answer(ran)
            &&& control::scan_answer(ran) == Ok::<Seq<char>, Seq<char>>(text)
            &&& control::mux_answer(ran) == Ok::<(), Seq<char>>(())
            &&& discover::discover_answer(ran) == discover::session_listing(text)
            &&& discover::resolve_answer(ran) == discover::config_identity(text)
        }),
{
}

/// A command that exits with another status is not believed, but for a scan that printed something;
/// the first line of what it complained about is the reason.
pub proof fn commands_that_complain_are_not_believed(out: Output)
    requires
        !out.success,
    ensures
        ({
            let ran = Ok::<Output, String>(out);
            let why = util::headline(util::lossy(out.stderr@), "unknown error"@);
            &&& !control::check_answer(ran)
            &&& out.stdout@.len() == 0 ==> control::scan_answer(ran) == Err::<Seq<char>, Seq<char>>(why)
            &&& out.stdout@.len() > 0 ==> control::scan_answer(ran) == Ok::<Seq<char>, Seq<char>>(
                util::lossy(out.stdout@),
            )
            &&& control::mux_answer(ran) == Err::<(), Seq<char>>(why)
            &&& discover::discover_answer(ran).len() == 0
            &&& discover::resolve_answer(ran) is None
        }),
{
}

/// What a command has printed is collected once it has ended, whatever the time; one that still runs
/// is waited for until its time is up, and no longer.
pub proof fn commands_are_given_their_time(now: u64, deadline: u64)
    ensures
        util::watched(Poll::Ended, now, deadline) == Watch::Collect,
        util::watched(Poll::Unreadable, now, deadline) == Watch::Fail,
        now < deadline ==> util::watched(Poll::Running, now, deadline) == Watch::Wait,
        now >= deadline ==> util::watched(Poll::Running, now, deadline) == Watch::TimedOut,
{
}

/// Who holds a local port is looked up in all that was printed, in the order in which the commands
/// were run, whatever their status; one that could not be run is passed over.
pub proof fn listings_are_read_in_order(out: Output, e: String, rest: Seq<Result<Output, String>>)
    ensures
        ports::listings(Seq::empty()).len() == 0,
        ports::listings(seq![Ok::<Output, String>(out)] + rest) == seq![util::lossy(out.stdout@)]
            + ports::listings(rest),
        ports::listings(seq![Err::<Output, String>(e)] + rest) == ports::listings(rest),
{
    let good = seq![Ok::<Output, String>(out)] + rest;
    let bad = seq![Err::<Output, String>(e)] + rest;
    assert(good.drop_first() =~= rest);
    assert(bad.drop_first() =~= rest);
    assert(good[0] == Ok::<Output, String>(out));
    assert(bad[0] == Err::<Output, String>(e));
}

/// The commands that list the processes of the local machine, and those that list its listeners.
pub proof fn local_commands_are_these()
    ensures
        ({
            let ps = discover::discover_invocation();
            let ls = ports::listing_invocations();
            &&& ps.program == "ps"@ && ps.args == seq!["-eo"@, "pid=,args="@] && ps.stdin is None
                && ps.timeout_secs == 5
            &&& ls.len() == 2
            &&& ls[0].program == "ss"@ && ls[1].program == "netstat"@
            &&& forall|i: int|
                0 <= i < 2 ==> (#[trigger] ls[i]).args == seq!["-tlnp"@] && ls[i].stdin is None
                    && ls[i].timeout_secs == 3
        }),
{
}

/// Every scan runs this script, which lists the listeners by `ss`, by `netstat`, or from what the
/// kernel tells, and says which of these it was.
pub proof fn scans_run_this_script(m: control::MasterRefModel)
    ensures
        m.scan().stdin == Some(
            r#"LANG=C; export LANG
if command -v ss >/dev/null 2>&1; then
echo "@@FMT ss"
ss -tlnp 2>/dev/null || ss -tln 2>/dev/null
elif command -v netstat >/dev/null 2>&1; then
echo "@@FMT netstat"
netstat -tlnp 2>/dev/null || netstat -tln 2>/dev/null
else
echo "@@FMT proc"
cat /proc/net/tcp /proc/net/tcp6 2>/dev/null
echo "@@MAP"
for d in /proc/[0-9]*; do
c=`cat "$d/comm" 2>/dev/null` || continue
for f in "$d"/fd/*; do
s=`readlink "$f" 2>/dev/null` || continue
case "$s" in "socket:["*) i=${s#socket:[}; echo "${i%]} ${d#/proc/} $c";; esac
done
done
fi
"#@,
        ),
        m.scan().stdin == Some(remote::scan_script()),
{
}

proof fn lemma_saved_port(ports: Seq<(u16, state::Assignment)>, j: int)
    requires
        maps::is_ordered::<u16>(state::port_numbers(ports)),
        0 <= j < ports.len(),
    ensures
        ({
            let (p, a) = ports[j];
            state::saved_ports(ports).contains_key(p) && state::saved_ports(ports)[p] == a@
        }),
    decreases ports.len(),
{
    let fewer = ports.drop_last();
    let (p, a) = ports[j];
    if j < fewer.len() {
        let ns = state::port_numbers(ports);
        let fs = state::port_numbers(fewer);
        assert forall|x: int, y: int| 0 <= x < y < fs.len() implies <u16 as maps::MapKey>::before(
            #[trigger] fs[x],
            #[trigger] fs[y],
        ) by {
            assert(fs[x] == ns[x] && fs[y] == ns[y]);
        }
        assert(fewer[j] == ports[j]);
        lemma_saved_port(fewer, j);
        assert(<u16 as maps::MapKey>::before(ns[j], ns[ports.len() - 1]));
        assert(ns[ports.len() - 1] == ports.last().0);
    }
}

proof fn lemma_port_saved(ports: Seq<(u16, state::Assignment)>, p: u16)
    requires
        state::saved_ports(ports).contains_key(p),
    ensures
        exists|j: int|
            0 <= j < ports.len() && (#[trigger] ports[j]).0 == p && ports[j].1@ == state::saved_ports(
                ports,
            )[p],
    decreases ports.len(),
{
    let fewer = ports.drop_last();
    assert(ports.len() > 0);
    assert(ports[ports.len() - 1] == ports.last());
    if ports.last().0 != p {
        lemma_port_saved(fewer, p);
        let j = choose|j: int|
            0 <= j < fewer.len() && (#[trigger] fewer[j]).0 == p && fewer[j].1@
                == state::saved_ports(fewer)[p];
        assert(ports[j] == fewer[j]);
    }
}

proof fn lemma_saved_host(hosts: Seq<state::SavedHost>, i: int)
    requires
        maps::is_ordered::<String>(state::host_names(hosts)),
        0 <= i < hosts.len(),
    ensures
        state::saved_hosts(hosts).contains_key(hosts[i].host@),
        state::saved_hosts(hosts)[hosts[i].host@] == state::saved_ports(hosts[i].ports@),
    decreases hosts.len(),
{
    let fewer = hosts.drop_last();
    if i < fewer.len() {
        let ns = state::host_names(hosts);
        let fs = state::host_names(fewer);
        assert forall|x: int, y: int| 0 <= x < y < fs.len() implies <String as maps::MapKey>::before(
            #[trigger] fs[x],
            #[trigger] fs[y],
        ) by {
            assert(fs[x] == ns[x] && fs[y] == ns[y]);
        }
        assert(fewer[i] == hosts[i]);
        lemma_saved_host(fewer, i);
        assert(<String as maps::MapKey>::before(ns[i], ns[hosts.len() - 1]));
        assert(ns[hosts.len() - 1] == hosts.last().host@);
        assert(ns[i] == hosts[i].host@);
        if hosts[i].host@ == hosts.last().host@ {
            <String as maps::MapKey>::before_irreflexive(hosts[i].host@);
        }
    }
}

proof fn lemma_host_saved(hosts: Seq<state::SavedHost>, k: Seq<char>)
    requires
        state::saved_hosts(hosts).contains_key(k),
    ensures
        exists|i: int|
            0 <= i < hosts.len() && (#[trigger] hosts[i]).host@ == k && state::saved_ports(
                hosts[i].ports@,
            ) == state::saved_hosts(hosts)[k],
    decreases hosts.len(),
{
    let fewer = hosts.drop_last();
    assert(hosts.len() > 0);
    assert(hosts[hosts.len() - 1] == hosts.last());
    if hosts.last().host@ != k {
        lemma_host_saved(fewer, k);
        let i = choose|i: int|
            0 <= i < fewer.len() && (#[trigger] fewer[i]).host@ == k && state::saved_ports(
                fewer[i].ports@,
            ) == state::saved_hosts(fewer)[k];
        assert(hosts[i] == fewer[i]);
    }
}

/// What the file says of a port of a host is what is remembered of it, and what is remembered the file
/// says; a host is paused exactly where the file lists it.
pub proof fn the_file_is_what_is_remembered(
    saved: state::Saved,
    i: int,
    j: int,
    host: Seq<char>,
    rport: u16,
)
    requires
        saved.in_order(),
    ensures
        ({
            let hosts = saved.assignments@;
            let m = saved.memory();
            &&& 0 <= i < hosts.len() && 0 <= j < hosts[i].ports@.len() ==> m.get(
                hosts[i].host@,
                hosts[i].ports@[j].0,
            ) == Some(hosts[i].ports@[j].1@)
            &&& m.get(host, rport) is Some ==> exists|x: int, y: int|
                0 <= x < hosts.len() && 0 <= y < hosts[x].ports@.len() && hosts[x].host@ == host && (
                #[trigger] hosts[x].ports@[y]).0 == rport && hosts[x].ports@[y].1@ == m.get(
                    host,
                    rport,
                )->0
            &&& m.paused.contains(host) <==> exists|k: int|
                0 <= k < saved.paused_hosts@.len() && (#[trigger] saved.paused_hosts@[k])@ == host
        }),
{
    let hosts = saved.assignments@;
    let m = saved.memory();
    if 0 <= i < hosts.len() && 0 <= j < hosts[i].ports@.len() {
        lemma_saved_host(hosts, i);
        lemma_saved_port(hosts[i].ports@, j);
    }
    if m.get(host, rport) is Some {
        lemma_host_saved(hosts, host);
        let x = choose|x: int|
            0 <= x < hosts.len() && (#[trigger] hosts[x]).host@ == host && state::saved_ports(
                hosts[x].ports@,
            ) == state::saved_hosts(hosts)[host];
        lemma_port_saved(hosts[x].ports@, rport);
        let y = choose|y: int|
            0 <= y < hosts[x].ports@.len() && (#[trigger] hosts[x].ports@[y]).0 == rport
                && hosts[x].ports@[y].1@ == state::saved_ports(hosts[x].ports@)[rport];
        assert(hosts[x].ports@[y].0 == rport);
    }
    let names = maps::views(saved.paused_hosts@);
    if m.paused.contains(host) {
        let k = choose|k: int| 0 <= k < names.len() && names[k] == host;
        assert(saved.paused_hosts@[k]@ == host);
    }
    if exists|k: int|
        0 <= k < saved.paused_hosts@.len() && (#[trigger] saved.paused_hosts@[k])@ == host {
        let k = choose|k: int|
            0 <= k < saved.paused_hosts@.len() && (#[trigger] saved.paused_hosts@[k])@ == host;
        assert(names[k] == host);
        assert(names.contains(host));
    }
}

} // verus!
