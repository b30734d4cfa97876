//! What the output of a scan is read as, whatever it holds.
use vstd::prelude::*;
use crate::addr;
use crate::control;
use crate::laws;
use crate::maps;
use crate::remote;
use crate::session_laws;
use crate::text;
use crate::text_laws;

verus! {

/// Whatever the address, the port is the number behind the last colon.
pub proof fn ports_stand_behind_the_last_colon(a: Seq<char>, p: u16)
    ensures
        addr::addr_port(a + ":"@ + text::decimal(p as nat)) matches Some((_, q)) && q == p,
{
    reveal_strlit(":");
    let d = text::decimal(p as nat);
    session_laws::lemma_decimal_solid(p as nat);
    assert(a + ":"@ + d =~= a.push(':') + d);
    text_laws::splits_are_at_the_character(a, ':', d);
    laws::decimal_reads_back(p as nat, 0xffff);
}

/// Every line of `ss` with at least five words, the first of them LISTEN and the fourth an address
/// and a port, whatever the address, is a listener on that port. No other line is one.
pub proof fn ss_lines_are_listeners(line: Seq<char>, a: Seq<char>, p: u16)
    ensures
        ({
            let w = text::words(line);
            &&& w.len() >= 5 && w[0] == "LISTEN"@ && w[3] == a + ":"@ + text::decimal(p as nat)
                ==> (remote::ss_line(line) matches Some(m) && m.port == p && m.cmdline is None)
            &&& remote::ss_line(line) is Some ==> w.len() >= 5 && w[0] == "LISTEN"@
                && w[3].contains(':')
        }),
{
    ports_stand_behind_the_last_colon(a, p);
}

/// Every line of `netstat` with at least six words, the first of them beginning with tcp, one of them
/// LISTEN and the fourth an address and a port, whatever the address, is a listener on that port. No
/// other line is one.
pub proof fn netstat_lines_are_listeners(line: Seq<char>, a: Seq<char>, p: u16, i: int)
    ensures
        ({
            let w = text::words(line);
            &&& w.len() >= 6 && w[0].len() >= 3 && w[0].take(3) == "tcp"@ && 0 <= i < w.len() && w[i]
                == "LISTEN"@ && w[3] == a + ":"@ + text::decimal(p as nat) ==> (
            remote::netstat_line(line) matches Some(m) && m.port == p && m.cmdline is None)
            &&& remote::netstat_line(line) is Some ==> w.len() >= 6 && w[0].len() >= 3 && w[0].take(3)
                == "tcp"@ && w.contains("LISTEN"@) && w[3].contains(':')
        }),
{
    reveal_strlit("tcp");
    let w = text::words(line);
    ports_stand_behind_the_last_colon(a, p);
    if w.len() >= 6 && w[0].len() >= 3 {
        assert(w[0].subrange(0, 3) =~= w[0].take(3));
    }
}

/// The address of a listener depends on the text of its address alone: `ss` and `netstat` are shown
/// alike.
pub proof fn listeners_are_shown_by_their_address(line: Seq<char>, other: Seq<char>)
    requires
        remote::ss_line(line) is Some,
        remote::netstat_line(other) is Some,
        text::words(line)[3] == text::words(other)[3],
    ensures
        remote::ss_line(line)->0.addr == remote::netstat_line(other)->0.addr,
        remote::ss_line(line)->0.port == remote::netstat_line(other)->0.port,
{
}

proof fn lemma_digit_run(d: Seq<char>, rest: Seq<char>)
    requires
        forall|i: int| 0 <= i < d.len() ==> '0' <= #[trigger] d[i] <= '9',
        rest.len() == 0 || !('0' <= rest[0] <= '9'),
    ensures
        remote::digit_run(d + rest) == d,
    decreases d.len(),
{
    let s = d + rest;
    if d.len() > 0 {
        assert(s[0] == d[0]);
        assert('0' <= d[0] <= '9');
        assert(s.drop_first() =~= d.drop_first() + rest);
        assert forall|i: int| 0 <= i < d.drop_first().len() implies '0' <= #[trigger] d.drop_first()[i]
            <= '9' by {
            assert(d.drop_first()[i] == d[i + 1]);
        }
        lemma_digit_run(d.drop_first(), rest);
        assert(seq![d[0]] + d.drop_first() =~= d);
    } else {
        assert(s =~= rest);
        if rest.len() > 0 {
            text_laws::lemma_no_digit(rest[0]);
        }
    }
}

proof fn lemma_pid_found(name: Seq<char>, more: Seq<char>)
    requires
        !name.contains('='),
    ensures
        text::find_text(name.push('"') + (",pid="@ + more), "pid="@) == Some((name.len() + 2) as int),
{
    reveal_strlit(",pid=");
    reveal_strlit("pid=");
    let eq = "pid="@;
    let tail = name.push('"') + (",pid="@ + more);
    let m: int = (name.len() + 2) as int;
    assert(tail[m - 2] == '"' && tail[m - 1] == ',' && tail[m] == 'p' && tail[m + 1] == 'i' && tail[m
        + 2] == 'd');
    assert(tail.subrange(m, m + 4) =~= eq);
    assert forall|k: int| 0 <= k < m implies !text::occurs_at(tail, eq, k) by {
        if text::occurs_at(tail, eq, k) {
            let t = tail.subrange(k, k + 4);
            assert(t[3] == tail[k + 3]);
            assert(eq[3] == '=');
            if k + 3 < name.len() {
                assert(name[k + 3] == '=');
            }
        }
    }
    text::lemma_first_at(tail, eq, m);
}

proof fn lemma_pid_read(pid: u32, rest: Seq<char>)
    requires
        rest.len() == 0 || !('0' <= rest[0] <= '9'),
    ensures
        text::parse_uint(remote::digit_run(text::decimal(pid as nat) + rest), 10, 0xffff_ffff) == Some(
            pid as nat,
        ),
{
    laws::lemma_decimal(pid as nat);
    lemma_digit_run(text::decimal(pid as nat), rest);
    laws::decimal_reads_back(pid as nat, 0xffff_ffff);
}

#[verifier::spinoff_prover]
proof fn lemma_ss_tail(name: Seq<char>, pid: u32, rest: Seq<char>)
    requires
        !name.contains('"'),
        !name.contains('='),
        rest.len() == 0 || !('0' <= rest[0] <= '9'),
    ensures
        ({
            let tail = name.push('"') + (",pid="@ + (text::decimal(pid as nat) + rest));
            &&& text::until(tail, '"') == name
            &&& text::find_text(tail, "pid="@) == Some((name.len() + 2) as int)
            &&& tail.skip((name.len() + 6) as int) == text::decimal(pid as nat) + rest
        }),
{
    reveal_strlit(",pid=");
    let more = text::decimal(pid as nat) + rest;
    let tail = name.push('"') + (",pid="@ + more);
    text_laws::splits_are_at_the_character(name, '"', ",pid="@ + more);
    lemma_pid_found(name, more);
    assert(tail.skip((name.len() + 6) as int) =~= more);
}

pub(crate) proof fn lemma_quote_found(before: Seq<char>, tail: Seq<char>)
    requires
        forall|k: int|
            0 <= k < before.len() ==> #[trigger] (before + "((\""@).subrange(k, k + 3) != "((\""@,
    ensures
        text::find_text(before + "((\""@ + tail, "((\""@) == Some(before.len() as int),
{
    reveal_strlit("((\"");
    let pat = "((\""@;
    let s = before + pat + tail;
    let n = before.len() as int;
    assert(s.subrange(n, n + 3) =~= pat);
    assert forall|k: int| 0 <= k < n implies !text::occurs_at(s, pat, k) by {
        if text::occurs_at(s, pat, k) {
            assert(s.subrange(k, k + 3) =~= (before + pat).subrange(k, k + 3));
        }
    }
    text::lemma_first_at(s, pat, n);
}

/// What `ss` says of a process, `(("name",pid=number,...`, is read as that name and number.
pub proof fn ss_processes_are_read(
    before: Seq<char>,
    name: Seq<char>,
    pid: u32,
    rest: Seq<char>,
)
    requires
        forall|k: int|
            0 <= k < before.len() ==> #[trigger] (before + "((\""@).subrange(k, k + 3) != "((\""@,
        !name.contains('"'),
        !name.contains('='),
        rest.len() == 0 || !('0' <= rest[0] <= '9'),
    ensures
        remote::ss_process(
            before + "((\""@ + name + "\",pid="@ + text::decimal(pid as nat) + rest,
        ) == (Some(name), Some(pid)),
{
    reveal_strlit("((\"");
    reveal_strlit("\",pid=");
    reveal_strlit(",pid=");
    let d = text::decimal(pid as nat);
    let pat = "((\""@;
    let tail = name.push('"') + (",pid="@ + (d + rest));
    let s = before + pat + name + "\",pid="@ + d + rest;
    assert("\",pid="@ =~= seq!['"'] + ",pid="@);
    assert(s =~= before + pat + tail);
    lemma_quote_found(before, tail);
    assert(s.skip((before.len() + 3) as int) =~= tail);
    lemma_ss_tail(name, pid, rest);
    lemma_pid_read(pid, rest);
}

/// Where `ss` says nothing of a process, nothing is known of it.
pub proof fn ss_may_know_no_process(line: Seq<char>)
    requires
        forall|k: int| 0 <= k <= line.len() - 3 ==> #[trigger] line.subrange(k, k + 3) != "((\""@,
    ensures
        remote::ss_process(line) == (None::<Seq<char>>, None::<u32>),
{
    reveal_strlit("((\"");
    let pat = "((\""@;
    if text::contains_text(line, pat) {
        let k = choose|k: int| text::occurs_at(line, pat, k);
        assert(line.subrange(k, k + 3) == pat);
    }
}

/// A listener that `ss` tells of carries the process that its line names.
pub proof fn ss_listeners_carry_their_process(line: Seq<char>)
    ensures
        remote::ss_line(line) matches Some(m) ==> (m.process, m.pid) == remote::ss_process(line),
{
}

/// A listener that `netstat` tells of carries the process that its words name.
pub proof fn netstat_listeners_carry_their_process(line: Seq<char>)
    ensures
        remote::netstat_line(line) matches Some(m) ==> (m.process, m.pid) == remote::netstat_process(
            text::words(line),
        ),
{
}

/// What `netstat` says of a process, `number/name`, is read as that name and number, from the first
/// word with a slash.
pub proof fn netstat_processes_are_read(w: Seq<Seq<char>>, k: int, pid: u32, name: Seq<char>)
    requires
        0 <= k < w.len(),
        forall|j: int| 0 <= j < k ==> !(#[trigger] w[j]).contains('/'),
        w[k] == text::decimal(pid as nat) + "/"@ + name,
    ensures
        remote::netstat_process(w) == (Some(name), Some(pid)),
{
    reveal_strlit("/");
    let d = text::decimal(pid as nat);
    session_laws::lemma_decimal_solid(pid as nat);
    assert(w[k] =~= d.push('/') + name);
    text_laws::splits_are_at_the_character(d, '/', name);
    laws::decimal_reads_back(pid as nat, 0xffff_ffff);
    assert(w[k][d.len() as int] == '/');
    lemma_first_slash(w, k);
}

proof fn lemma_first_slash(w: Seq<Seq<char>>, k: int)
    requires
        0 <= k < w.len(),
        forall|j: int| 0 <= j < k ==> !(#[trigger] w[j]).contains('/'),
        w[k].contains('/'),
    ensures
        remote::first_with(w, '/') == Some(w[k]),
    decreases w.len(),
{
    let fewer = w.drop_last();
    if k < fewer.len() {
        assert(fewer[k] == w[k]);
        lemma_first_slash(fewer, k);
    } else {
        lemma_no_slash(fewer);
    }
}

proof fn lemma_no_slash(w: Seq<Seq<char>>)
    requires
        forall|j: int| 0 <= j < w.len() ==> !(#[trigger] w[j]).contains('/'),
    ensures
        remote::first_with(w, '/') is None,
    decreases w.len(),
{
    if w.len() > 0 {
        let fewer = w.drop_last();
        assert forall|j: int| 0 <= j < fewer.len() implies !(#[trigger] fewer[j]).contains('/') by {
            assert(fewer[j] == w[j]);
        }
        lemma_no_slash(fewer);
        assert(w[w.len() - 1] == w.last());
    }
}

/// Where no word has a slash, `netstat` says nothing of a process.
pub proof fn netstat_may_know_no_process(w: Seq<Seq<char>>)
    requires
        forall|j: int| 0 <= j < w.len() ==> !(#[trigger] w[j]).contains('/'),
    ensures
        remote::netstat_process(w) == (None::<Seq<char>>, None::<u32>),
{
    lemma_no_slash(w);
}

proof fn lemma_entry(ino: u64, pid: u32, name: Seq<char>)
    ensures
        remote::map_entry(text::decimal(ino as nat), text::decimal(pid as nat), name) == Some(
            (ino, pid, text::trim(name)),
        ),
{
    laws::decimal_reads_back(ino as nat, 0xffff_ffff_ffff_ffff);
    laws::decimal_reads_back(pid as nat, 0xffff_ffff);
}

/// A line of the inode map, `inode pid name`, says which process holds the inode.
pub proof fn inode_lines_are_read(ino: u64, pid: u32, name: Seq<char>)
    ensures
        remote::map_line(
            text::decimal(ino as nat) + " "@ + text::decimal(pid as nat) + " "@ + name,
        ) == Some((ino, pid, text::trim(name))),
{
    reveal_strlit(" ");
    let a = text::decimal(ino as nat);
    let b = text::decimal(pid as nat);
    session_laws::lemma_decimal_solid(ino as nat);
    session_laws::lemma_decimal_solid(pid as nat);
    let rest = b.push(' ') + name;
    assert(a + " "@ + b + " "@ + name =~= a.push(' ') + rest);
    text_laws::splits_are_at_the_character(a, ' ', rest);
    text_laws::splits_are_at_the_character(b, ' ', name);
    lemma_entry(ino, pid, name);
}

/// The name may be missing in a line of the inode map.
pub proof fn nameless_inode_lines_are_read(ino: u64, pid: u32)
    ensures
        remote::map_line(text::decimal(ino as nat) + " "@ + text::decimal(pid as nat)) == Some(
            (ino, pid, Seq::<char>::empty()),
        ),
{
    reveal_strlit(" ");
    let none = Seq::<char>::empty();
    let a = text::decimal(ino as nat);
    let b = text::decimal(pid as nat);
    session_laws::lemma_decimal_solid(ino as nat);
    session_laws::lemma_decimal_solid(pid as nat);
    assert(a + " "@ + b =~= a.push(' ') + b);
    text_laws::splits_are_at_the_character(a, ' ', b);
    text_laws::splits_are_at_the_character(b, ' ', none);
    lemma_entry(ino, pid, none);
    assert(text::trim(none) =~= none);
}

/// The first of the listeners on the port.
pub open spec fn first_on(apps: Seq<remote::RemoteModel>, p: u16, i: int) -> bool {
    0 <= i < apps.len() && apps[i].port == p && forall|k: int|
        0 <= k < i ==> (#[trigger] apps[k]).port != p
}

/// The first of the listeners on the port whose process is known.
pub open spec fn first_named(apps: Seq<remote::RemoteModel>, p: u16, j: int) -> bool {
    0 <= j < apps.len() && apps[j].port == p && apps[j].process is Some && forall|k: int|
        0 <= k < j ==> !((#[trigger] apps[k]).port == p && apps[k].process is Some)
}

/// One of the listeners on the port is bound to all addresses.
pub open spec fn open_on(apps: Seq<remote::RemoteModel>, p: u16) -> bool {
    exists|k: int| 0 <= k < apps.len() && (#[trigger] apps[k]).port == p && apps[k].addr == "*"@
}

proof fn lemma_merge(apps: Seq<remote::RemoteModel>, p: u16) -> (r: (int, int))
    requires
        remote::by_port(apps).contains_key(p),
    ensures
        ({
            let e = remote::by_port(apps)[p];
            &&& first_on(apps, p, r.0)
            &&& r.1 == -1 || first_named(apps, p, r.1)
            &&& r.1 == -1 ==> forall|k: int|
                0 <= k < apps.len() ==> !((#[trigger] apps[k]).port == p && apps[k].process is Some)
            &&& e.port == p
            &&& e.cmdline == apps[r.0].cmdline
            &&& e.addr == (if open_on(apps, p) {
                "*"@
            } else {
                apps[r.0].addr
            })
            &&& r.1 >= 0 ==> e.process == apps[r.1].process && e.pid == apps[r.1].pid
            &&& r.1 == -1 ==> e.process is None && e.pid == apps[r.0].pid
        }),
    decreases apps.len(),
{
    if apps.len() == 0 {
        reveal(Seq::filter);
        assert(false);
        (0, 0)
    } else {
        let fewer = apps.drop_last();
        let a = apps.last();
        let n = apps.len() - 1;
        assert(fewer.push(a) =~= apps);
        remote::lemma_by_port_push(fewer, a);
        assert(apps[n] == a);
        laws::lemma_ports_finite(fewer);
        assert(forall|k: int| 0 <= k < n ==> #[trigger] apps[k] == fewer[k]);
        if open_on(fewer, p) {
            let k = choose|k: int|
                0 <= k < fewer.len() && (#[trigger] fewer[k]).port == p && fewer[k].addr == "*"@;
            assert(apps[k].addr == "*"@);
        }
        if open_on(apps, p) && !(a.port == p && a.addr == "*"@) {
            let k = choose|k: int|
                0 <= k < apps.len() && (#[trigger] apps[k]).port == p && apps[k].addr == "*"@;
            assert(fewer[k].addr == "*"@);
        }
        if remote::by_port(fewer).contains_key(p) {
            let (i, j) = lemma_merge(fewer, p);
            assert(first_on(apps, p, i));
            if j >= 0 {
                assert(first_named(apps, p, j));
                (i, j)
            } else if a.port == p && a.process is Some {
                assert(first_named(apps, p, n));
                (i, n)
            } else {
                (i, -1)
            }
        } else {
            assert forall|k: int| 0 <= k < n implies (#[trigger] apps[k]).port != p by {
                assert(fewer[k].port != p);
            }
            assert(first_on(apps, p, n));
            if a.process is Some {
                (n, n)
            } else {
                (n, -1)
            }
        }
    }
}

/// The listeners on one port become one entry: on all addresses where one of them is, else on the
/// address of the first; with the process of the first that has one, and its number.
pub proof fn listeners_on_one_port_become_one(apps: Seq<remote::RemoteModel>, n: int, i: int, j: int)
    requires
        0 <= n < remote::listing(apps).len(),
        first_on(apps, remote::listing(apps)[n].port, i),
    ensures
        ({
            let e = remote::listing(apps)[n];
            &&& e.addr == (if open_on(apps, e.port) {
                "*"@
            } else {
                apps[i].addr
            })
            &&& e.cmdline == apps[i].cmdline
            &&& first_named(apps, e.port, j) ==> e.process == apps[j].process && e.pid == apps[j].pid
            &&& (forall|k: int|
                0 <= k < apps.len() ==> !((#[trigger] apps[k]).port == e.port && apps[k].process is Some))
                ==> e.process is None && e.pid == apps[i].pid
        }),
{
    let m = remote::by_port(apps);
    let keys = maps::ordered_keys::<u16, remote::RemoteModel>(m);
    laws::lemma_ports_finite(apps);
    maps::lemma_ordered_keys::<u16, remote::RemoteModel>(m);
    assert(keys.to_set().contains(keys[n]));
    let p = keys[n];
    let (a, b) = lemma_merge(apps, p);
    assert(remote::listing(apps)[n].port == p);
    if a < i {
        assert(apps[a].port != p);
    } else if i < a {
        assert(apps[i].port != p);
    }
    if first_named(apps, p, j) {
        if b == -1 {
            assert(!(apps[j].port == p && apps[j].process is Some));
        } else if b < j {
            assert(!(apps[b].port == p && apps[b].process is Some));
        } else if j < b {
            assert(!(apps[j].port == p && apps[j].process is Some));
        }
    }
    if b >= 0 {
        assert(apps[b].port == p && apps[b].process is Some);
    }
}

/// A line of the output of the scan script that is none of its marks.
pub open spec fn unmarked(raw: Seq<char>) -> bool {
    let t = text::trim(raw);
    t.len() < 2 || t[0] != '@' || t[1] != '@'
}

/// The listener that a line tells of, in the format of `ss` or of `netstat`.
#[verifier::opaque]
pub open spec fn told(fmt: Seq<char>, raw: Seq<char>) -> Option<remote::RemoteModel> {
    if fmt == "ss"@ {
        remote::ss_line(text::trim(raw))
    } else {
        remote::netstat_line(text::trim(raw))
    }
}

proof fn lemma_marks(raw: Seq<char>)
    requires
        unmarked(raw),
    ensures
        !text::starts_with(text::trim(raw), "@@FMT "@),
        text::trim(raw) != "@@MAP"@,
{
    reveal_strlit("@@FMT ");
    reveal_strlit("@@MAP");
    let t = text::trim(raw);
    assert("@@MAP"@[0] == '@' && "@@MAP"@[1] == '@');
    if text::starts_with(t, "@@FMT "@) {
        assert(t.subrange(0, 6)[0] == t[0] && t.subrange(0, 6)[1] == t[1]);
        assert("@@FMT "@[0] == '@' && "@@FMT "@[1] == '@');
    }
}

proof fn lemma_format(m: remote::ScanModel, raw: Seq<char>, fmt: Seq<char>)
    requires
        text::trim(raw) == "@@FMT "@ + fmt,
        text::trim(fmt) == fmt,
    ensures
        m.read(raw) == (remote::ScanModel { fmt, ..m }),
{
    reveal_strlit("@@FMT ");
    let t = text::trim(raw);
    assert(t.subrange(0, 6) =~= "@@FMT "@);
    assert(t.skip(6) =~= fmt);
}

proof fn lemma_trimmed_name(fmt: Seq<char>)
    requires
        fmt == "ss"@ || fmt == "netstat"@ || fmt == "proc"@,
    ensures
        text::trim(fmt) == fmt,
{
    reveal_strlit("ss");
    reveal_strlit("netstat");
    reveal_strlit("proc");
    let none = Seq::<char>::empty();
    assert(!text::is_white(fmt[0]) && !text::is_white(fmt.last()));
    text_laws::trimming_leaves_the_middle(none, fmt, none);
    assert(none + fmt + none =~= fmt);
}

proof fn lemma_names_differ()
    ensures
        "ss"@ != "netstat"@,
        "ss"@ != "proc"@,
        "netstat"@ != "proc"@,
{
    reveal_strlit("ss");
    reveal_strlit("netstat");
    reveal_strlit("proc");
    assert("ss"@.len() == 2 && "netstat"@.len() == 7 && "proc"@.len() == 4);
}

proof fn lemma_told_read(m: remote::ScanModel, fmt: Seq<char>, raw: Seq<char>)
    requires
        fmt == "ss"@ || fmt == "netstat"@,
        m.fmt == fmt,
        !m.in_map,
        unmarked(raw),
    ensures
        m.read(raw) == m.heard(told(fmt, raw)),
{
    reveal(told);
    lemma_marks(raw);
    lemma_names_differ();
    if text::trim(raw).len() == 0 {
        assert(text::trim(raw) =~= Seq::<char>::empty());
        assert(text::words(text::trim(raw)).len() == 0);
    }
}

#[verifier::rlimit(40)]
proof fn lemma_listeners(ls: Seq<Seq<char>>, fmt: Seq<char>)
    requires
        fmt == "ss"@ || fmt == "netstat"@,
        ls.len() > 0,
        text::trim(ls[0]) == "@@FMT "@ + fmt,
        forall|i: int| 1 <= i < ls.len() ==> unmarked(#[trigger] ls[i]),
    ensures
        ({
            let m = remote::ScanModel::start().read_all(ls);
            &&& m.fmt == fmt
            &&& !m.in_map
            &&& m.rows == Seq::<remote::RowModel>::empty()
            &&& m.listeners == ls.skip(1).filter(|l: Seq<char>| told(fmt, l) is Some).map_values(
                |l: Seq<char>| told(fmt, l)->0,
            )
        }),
    decreases ls.len(),
{
    let test = |l: Seq<char>| told(fmt, l) is Some;
    let give = |l: Seq<char>| told(fmt, l)->0;
    let start = remote::ScanModel::start();
    lemma_trimmed_name(fmt);
    lemma_names_differ();
    reveal(Seq::filter);
    if ls.len() == 1 {
        assert(ls.drop_last() =~= Seq::<Seq<char>>::empty());
        assert(start.read_all(ls.drop_last()) == start);
        lemma_format(start, ls[0], fmt);
        assert(ls.skip(1) =~= Seq::<Seq<char>>::empty());
        assert(ls.skip(1).filter(test).map_values(give) =~= Seq::<remote::RemoteModel>::empty());
    } else {
        let fewer = ls.drop_last();
        let l = ls.last();
        assert(fewer[0] == ls[0]);
        assert forall|i: int| 1 <= i < fewer.len() implies unmarked(#[trigger] fewer[i]) by {
            assert(fewer[i] == ls[i]);
        }
        lemma_listeners(fewer, fmt);
        assert(unmarked(ls[ls.len() - 1]));
        lemma_told_read(start.read_all(fewer), fmt, l);
        let tail = ls.skip(1);
        assert(tail.drop_last() =~= fewer.skip(1));
        assert(tail.last() == l);
        let before = fewer.skip(1).filter(test);
        if test(l) {
            assert(tail.filter(test) == before.push(l));
            assert(before.push(l).map_values(give) =~= before.map_values(give).push(give(l)));
        } else {
            assert(tail.filter(test) == before);
        }
    }
}

/// A scan with `ss` or `netstat` finds the listeners that its lines tell of, in their order, and no
/// others.
pub proof fn scans_find_what_the_lines_tell(out: Seq<char>, fmt: Seq<char>)
    requires
        fmt == "ss"@ || fmt == "netstat"@,
        text::lines(out).len() > 0,
        text::trim(text::lines(out)[0]) == "@@FMT "@ + fmt,
        forall|i: int| 1 <= i < text::lines(out).len() ==> unmarked(#[trigger] text::lines(out)[i]),
    ensures
        remote::scan_listing(out) == remote::listing(
            text::lines(out).skip(1).filter(|l: Seq<char>| told(fmt, l) is Some).map_values(
                |l: Seq<char>| told(fmt, l)->0,
            ),
        ),
{
    let m = remote::ScanModel::start().read_all(text::lines(out));
    lemma_listeners(text::lines(out), fmt);
    assert(m.found() =~= m.listeners);
}

/// In what a scan with `ss` gives, every line with at least five words, the first of them LISTEN and
/// the fourth `address:port`, whatever the address, has an entry with its port.
pub proof fn ss_scans_list_every_listener(out: Seq<char>, i: int, a: Seq<char>, p: u16)
    requires
        1 <= i < text::lines(out).len(),
        text::trim(text::lines(out)[0]) == "@@FMT ss"@,
        forall|k: int| 1 <= k < text::lines(out).len() ==> unmarked(#[trigger] text::lines(out)[k]),
        text::words(text::lines(out)[i]).len() >= 5,
        text::words(text::lines(out)[i])[0] == "LISTEN"@,
        text::words(text::lines(out)[i])[3] == a + ":"@ + text::decimal(p as nat),
    ensures
        exists|n: int|
            0 <= n < remote::scan_listing(out).len() && (#[trigger] remote::scan_listing(out)[n]).port
                == p,
{
    reveal_strlit("@@FMT ss");
    reveal_strlit("@@FMT ");
    reveal_strlit("ss");
    assert("@@FMT ss"@ =~= "@@FMT "@ + "ss"@);
    text_laws::lemma_words_of_trimmed(text::lines(out)[i]);
    ss_lines_are_listeners(text::trim(text::lines(out)[i]), a, p);
    reveal(told);
    lemma_told_is_listed(out, "ss"@, i);
}

/// In what a scan with `netstat` gives, every line with at least six words, the first of them
/// beginning with tcp, one of them LISTEN and the fourth `address:port`, whatever the address, has an
/// entry with its port.
pub proof fn netstat_scans_list_every_listener(
    out: Seq<char>,
    i: int,
    a: Seq<char>,
    p: u16,
    k: int,
)
    requires
        1 <= i < text::lines(out).len(),
        text::trim(text::lines(out)[0]) == "@@FMT netstat"@,
        forall|k: int| 1 <= k < text::lines(out).len() ==> unmarked(#[trigger] text::lines(out)[k]),
        text::words(text::lines(out)[i]).len() >= 6,
        text::words(text::lines(out)[i])[0].len() >= 3,
        text::words(text::lines(out)[i])[0].take(3) == "tcp"@,
        0 <= k < text::words(text::lines(out)[i]).len(),
        text::words(text::lines(out)[i])[k] == "LISTEN"@,
        text::words(text::lines(out)[i])[3] == a + ":"@ + text::decimal(p as nat),
    ensures
        exists|n: int|
            0 <= n < remote::scan_listing(out).len() && (#[trigger] remote::scan_listing(out)[n]).port
                == p,
{
    reveal_strlit("@@FMT netstat");
    reveal_strlit("@@FMT ");
    reveal_strlit("netstat");
    assert("@@FMT netstat"@ =~= "@@FMT "@ + "netstat"@);
    text_laws::lemma_words_of_trimmed(text::lines(out)[i]);
    netstat_lines_are_listeners(text::trim(text::lines(out)[i]), a, p, k);
    reveal(told);
    lemma_names_differ();
    lemma_told_is_listed(out, "netstat"@, i);
}

proof fn lemma_told_is_listed(out: Seq<char>, fmt: Seq<char>, i: int)
    requires
        fmt == "ss"@ || fmt == "netstat"@,
        1 <= i < text::lines(out).len(),
        text::trim(text::lines(out)[0]) == "@@FMT "@ + fmt,
        forall|k: int| 1 <= k < text::lines(out).len() ==> unmarked(#[trigger] text::lines(out)[k]),
        told(fmt, text::lines(out)[i]) is Some,
    ensures
        exists|n: int|
            0 <= n < remote::scan_listing(out).len() && (#[trigger] remote::scan_listing(out)[n]).port
                == told(fmt, text::lines(out)[i])->0.port,
{
    let ls = text::lines(out);
    let test = |l: Seq<char>| told(fmt, l) is Some;
    let give = |l: Seq<char>| told(fmt, l)->0;
    scans_find_what_the_lines_tell(out, fmt);
    let tail = ls.skip(1);
    assert(tail[i - 1] == ls[i]);
    assert(test(tail[i - 1]));
    let kept = tail.filter(test);
    assert(kept.contains(tail[i - 1]));
    let k = choose|k: int| 0 <= k < kept.len() && kept[k] == ls[i];
    let apps = kept.map_values(give);
    assert(apps[k] == give(ls[i]));
    laws::listings_have_each_port_once(apps);
}

/// Every line of the kernel's table with at least ten words, the first of them ending in a colon, the
/// fourth 0A (a listening socket), the second an address and a port and the tenth an inode, is a
/// listener on that port and address with that inode. No other line is one.
pub proof fn kernel_lines_are_listeners(line: Seq<char>, ino: u64)
    ensures
        ({
            let w = text::words(line);
            let at = addr::kernel_addr_port(w[1]);
            let (shown, port) = at->0;
            &&& w.len() >= 10 && w[0].len() > 0 && w[0].last() == ':' && w[3] == "0A"@ && at is Some
                && w[9] == text::decimal(ino as nat) ==> remote::proc_line(line) == Some(
                remote::RowModel { port, addr: shown, inode: ino },
            )
            &&& remote::proc_line(line) is Some ==> w.len() >= 10 && w[0].len() > 0 && w[0].last()
                == ':' && w[3] == "0A"@ && at is Some
        }),
{
    reveal_strlit(":");
    let w = text::words(line);
    laws::decimal_reads_back(ino as nat, 0xffff_ffff_ffff_ffff);
    if w.len() >= 10 && w[0].len() > 0 {
        let n = w[0].len() as int;
        assert(w[0].subrange(n - 1, n) =~= seq![w[0].last()]);
        assert(":"@ =~= seq![':']);
        assert(w[0].subrange(n - 1, n)[0] == w[0].last());
    }
}

proof fn lemma_row_read(m: remote::ScanModel, raw: Seq<char>)
    requires
        m.fmt == "proc"@,
        !m.in_map,
        unmarked(raw),
    ensures
        m.read(raw) == (match remote::proc_line(text::trim(raw)) {
            Some(row) => remote::ScanModel { rows: m.rows.push(row), ..m },
            None => m,
        }),
{
    lemma_marks(raw);
    lemma_names_differ();
    if text::trim(raw).len() == 0 {
        assert(text::trim(raw) =~= Seq::<char>::empty());
        assert(text::words(text::trim(raw)).len() == 0);
    }
}

#[verifier::rlimit(40)]
proof fn lemma_rows(ls: Seq<Seq<char>>)
    requires
        ls.len() > 0,
        text::trim(ls[0]) == "@@FMT proc"@,
        forall|i: int| 1 <= i < ls.len() ==> unmarked(#[trigger] ls[i]),
    ensures
        ({
            let m = remote::ScanModel::start().read_all(ls);
            &&& m.fmt == "proc"@
            &&& !m.in_map
            &&& m.listeners == Seq::<remote::RemoteModel>::empty()
            &&& m.inodes == Map::<u64, (u32, Seq<char>)>::empty()
            &&& m.rows == ls.skip(1).filter(
                |l: Seq<char>| remote::proc_line(text::trim(l)) is Some,
            ).map_values(|l: Seq<char>| remote::proc_line(text::trim(l))->0)
        }),
    decreases ls.len(),
{
    let test = |l: Seq<char>| remote::proc_line(text::trim(l)) is Some;
    let give = |l: Seq<char>| remote::proc_line(text::trim(l))->0;
    let start = remote::ScanModel::start();
    lemma_trimmed_name("proc"@);
    lemma_names_differ();
    reveal(Seq::filter);
    if ls.len() == 1 {
        reveal_strlit("@@FMT proc");
        reveal_strlit("@@FMT ");
        reveal_strlit("proc");
        assert("@@FMT proc"@ =~= "@@FMT "@ + "proc"@);
        assert(ls.drop_last() =~= Seq::<Seq<char>>::empty());
        assert(start.read_all(ls.drop_last()) == start);
        lemma_format(start, ls[0], "proc"@);
        assert(ls.skip(1) =~= Seq::<Seq<char>>::empty());
        assert(ls.skip(1).filter(test).map_values(give) =~= Seq::<remote::RowModel>::empty());
    } else {
        let fewer = ls.drop_last();
        let l = ls.last();
        assert(fewer[0] == ls[0]);
        assert forall|i: int| 1 <= i < fewer.len() implies unmarked(#[trigger] fewer[i]) by {
            assert(fewer[i] == ls[i]);
        }
        lemma_rows(fewer);
        assert(unmarked(ls[ls.len() - 1]));
        lemma_row_read(start.read_all(fewer), l);
        let tail = ls.skip(1);
        assert(tail.drop_last() =~= fewer.skip(1));
        assert(tail.last() == l);
        let before = fewer.skip(1).filter(test);
        if test(l) {
            assert(tail.filter(test) == before.push(l));
            assert(before.push(l).map_values(give) =~= before.map_values(give).push(give(l)));
        } else {
            assert(tail.filter(test) == before);
        }
    }
}

/// The inode that a line of the inode map is about.
#[verifier::opaque]
pub open spec fn inode_of(raw: Seq<char>) -> Option<u64> {
    match remote::map_line(text::trim(raw)) {
        Some((ino, _, _)) => Some(ino),
        None => None,
    }
}

/// The process that a line of the inode map names.
#[verifier::opaque]
pub open spec fn holder(raw: Seq<char>) -> (u32, Seq<char>) {
    let (_, pid, name) = remote::map_line(text::trim(raw))->0;
    (pid, name)
}

/// The first of the lines of the inode map that is about this inode.
pub open spec fn first_about(ls: Seq<Seq<char>>, ino: u64, j: int) -> bool {
    0 <= j < ls.len() && inode_of(ls[j]) == Some(ino) && forall|k: int|
        0 <= k < j ==> inode_of(#[trigger] ls[k]) != Some(ino)
}

proof fn lemma_map_read(m: remote::ScanModel, raw: Seq<char>)
    requires
        m.in_map,
        unmarked(raw),
    ensures
        m.read(raw) == (remote::ScanModel {
            inodes: match inode_of(raw) {
                Some(ino) if !m.inodes.contains_key(ino) => m.inodes.insert(ino, holder(raw)),
                _ => m.inodes,
            },
            ..m
        }),
{
    reveal(inode_of);
    reveal(holder);
    lemma_marks(raw);
    if text::trim(raw).len() == 0 {
        assert(text::trim(raw) =~= Seq::<char>::empty());
        assert(remote::map_line(text::trim(raw)) is None);
    }
}

spec fn inode_map(ls: Seq<Seq<char>>) -> Map<u64, (u32, Seq<char>)>
    decreases ls.len(),
{
    if ls.len() == 0 {
        Map::empty()
    } else {
        let before = inode_map(ls.drop_last());
        match inode_of(ls.last()) {
            Some(ino) if !before.contains_key(ino) => before.insert(ino, holder(ls.last())),
            _ => before,
        }
    }
}

#[verifier::rlimit(40)]
proof fn lemma_map_lines(m: remote::ScanModel, ls: Seq<Seq<char>>)
    requires
        m.in_map,
        m.inodes == Map::<u64, (u32, Seq<char>)>::empty(),
        forall|i: int| 0 <= i < ls.len() ==> unmarked(#[trigger] ls[i]),
    ensures
        m.read_all(ls) == (remote::ScanModel { inodes: inode_map(ls), ..m }),
    decreases ls.len(),
{
    if ls.len() > 0 {
        let fewer = ls.drop_last();
        assert forall|i: int| 0 <= i < fewer.len() implies unmarked(#[trigger] fewer[i]) by {
            assert(fewer[i] == ls[i]);
        }
        lemma_map_lines(m, fewer);
        assert(unmarked(ls[ls.len() - 1]));
        lemma_map_read(m.read_all(fewer), ls.last());
    }
}

proof fn lemma_unheld(ls: Seq<Seq<char>>, ino: u64)
    requires
        forall|k: int| 0 <= k < ls.len() ==> inode_of(#[trigger] ls[k]) != Some(ino),
    ensures
        !inode_map(ls).contains_key(ino),
    decreases ls.len(),
{
    if ls.len() > 0 {
        let fewer = ls.drop_last();
        assert forall|k: int| 0 <= k < fewer.len() implies inode_of(#[trigger] fewer[k]) != Some(
            ino,
        ) by {
            assert(inode_of(ls[k]) != Some(ino));
        }
        lemma_unheld(fewer, ino);
        assert(inode_of(ls[ls.len() - 1]) != Some(ino));
    }
}

proof fn lemma_held(ls: Seq<Seq<char>>, ino: u64, j: int)
    requires
        first_about(ls, ino, j),
    ensures
        inode_map(ls).contains_key(ino),
        inode_map(ls)[ino] == holder(ls[j]),
    decreases ls.len(),
{
    let fewer = ls.drop_last();
    assert forall|k: int| 0 <= k < j implies inode_of(#[trigger] fewer[k]) != Some(ino) by {
        assert(inode_of(ls[k]) != Some(ino));
    }
    if j < fewer.len() {
        lemma_held(fewer, ino, j);
    } else {
        lemma_unheld(fewer, ino);
    }
}

#[verifier::rlimit(40)]
proof fn lemma_read_twice(m: remote::ScanModel, a: Seq<Seq<char>>, b: Seq<Seq<char>>)
    ensures
        m.read_all(a + b) == m.read_all(a).read_all(b),
    decreases b.len(),
{
    if b.len() == 0 {
        assert(a + b =~= a);
    } else {
        lemma_read_twice(m, a, b.drop_last());
        assert((a + b).drop_last() =~= a + b.drop_last());
        assert((a + b).last() == b.last());
    }
}

/// A scan of the kernel's table finds the listeners that its lines tell of, in their order, and no
/// others. Each has the process that the first line of the inode map about its inode names, and none
/// where no line does or the name is empty.
#[verifier::rlimit(40)]
pub proof fn kernel_scans_find_what_the_lines_tell(out: Seq<char>, at: int, i: int, j: int)
    requires
        1 <= at < text::lines(out).len(),
        text::trim(text::lines(out)[0]) == "@@FMT proc"@,
        text::trim(text::lines(out)[at]) == "@@MAP"@,
        forall|k: int|
            1 <= k < text::lines(out).len() && k != at ==> unmarked(#[trigger] text::lines(out)[k]),
    ensures
        ({
            let ls = text::lines(out);
            let found = remote::ScanModel::start().read_all(ls).found();
            let rows = ls.subrange(1, at).filter(
                |l: Seq<char>| remote::proc_line(text::trim(l)) is Some,
            );
            let map = ls.skip(at + 1);
            let row = remote::proc_line(text::trim(rows[i]))->0;
            let (pid, name) = holder(map[j]);
            &&& remote::scan_listing(out) == remote::listing(found)
            &&& found.len() == rows.len()
            &&& 0 <= i < rows.len() ==> found[i].port == row.port && found[i].addr == row.addr
            &&& 0 <= i < rows.len() && first_about(map, row.inode, j) ==> found[i].pid == Some(pid)
                && found[i].process == (if name.len() > 0 {
                Some(name)
            } else {
                None
            })
            &&& 0 <= i < rows.len() && (forall|k: int|
                0 <= k < map.len() ==> inode_of(#[trigger] map[k]) != Some(row.inode))
                ==> found[i].pid is None && found[i].process is None
        }),
{
    reveal_strlit("@@MAP");
    reveal_strlit("@@FMT ");
    let ls = text::lines(out);
    let start = remote::ScanModel::start();
    let head = ls.take(at);
    let map = ls.skip(at + 1);
    let mark = seq![ls[at]];
    assert(ls =~= head + (mark + map));
    lemma_read_twice(start, head, mark + map);
    lemma_read_twice(start.read_all(head), mark, map);
    assert forall|k: int| 1 <= k < head.len() implies unmarked(#[trigger] head[k]) by {
        assert(head[k] == ls[k]);
    }
    assert(head[0] == ls[0]);
    lemma_rows(head);
    let m1 = start.read_all(head);
    assert(mark.drop_last() =~= Seq::<Seq<char>>::empty());
    assert(m1.read_all(mark.drop_last()) == m1);
    assert(m1.read_all(mark) == m1.read(ls[at]));
    let t = text::trim(ls[at]);
    if text::starts_with(t, "@@FMT "@) {
        assert(t.len() == 5);
    }
    let m2 = m1.read(ls[at]);
    assert(m2 == (remote::ScanModel { in_map: true, ..m1 }));
    assert forall|k: int| 0 <= k < map.len() implies unmarked(#[trigger] map[k]) by {
        assert(map[k] == ls[at + 1 + k]);
    }
    let test = |l: Seq<char>| remote::proc_line(text::trim(l)) is Some;
    let give = |l: Seq<char>| remote::proc_line(text::trim(l))->0;
    assert(head.skip(1) =~= ls.subrange(1, at));
    let rows = ls.subrange(1, at).filter(test);
    let row = remote::proc_line(text::trim(rows[i]))->0;
    lemma_map_lines(m2, map);
    if first_about(map, row.inode, j) {
        lemma_held(map, row.inode, j);
    }
    if forall|k: int| 0 <= k < map.len() ==> inode_of(#[trigger] map[k]) != Some(row.inode) {
        lemma_unheld(map, row.inode);
    }
    let last = m2.read_all(map);
    assert(last.rows == rows.map_values(give));
    assert(last.listeners.len() == 0);
    if 0 <= i < rows.len() {
        assert(last.rows[i] == row);
        assert(last.found()[i] == last.row_app(row));
    }
}

pub(crate) proof fn lemma_hex_value(n: nat, width: nat)
    requires
        n < vstd::arithmetic::power::pow(16, width),
    ensures
        control::hex(n, width).len() == width,
        text::all_digits(control::hex(n, width), 16),
        text::digits_value(control::hex(n, width), 16) == n,
        !control::hex(n, width).contains(':'),
        !control::hex(n, width).contains('+'),
    decreases width,
{
    reveal(vstd::arithmetic::power::pow);
    let h = control::hex(n, width);
    if width > 0 {
        assert(vstd::arithmetic::power::pow(16, width) == 16 * vstd::arithmetic::power::pow(
            16,
            (width - 1) as nat,
        ));
        lemma_hex_value(n / 16, (width - 1) as nat);
        let front = control::hex(n / 16, (width - 1) as nat);
        let d = text::hex_digit(n % 16);
        lemma_hex_digit(n % 16);
        assert(h =~= front.push(d));
        assert(h.drop_last() =~= front);
        assert forall|i: int| 0 <= i < h.len() implies text::digit_value(#[trigger] h[i]) < 16 by {
            if i < front.len() {
                assert(h[i] == front[i]);
            }
        }
        assert(n / 16 * 16 + n % 16 == n);
    }
    assert forall|c: char| h.contains(c) implies text::digit_value(c) < 16 by {
        let i = choose|i: int| 0 <= i < h.len() && h[i] == c;
        assert(text::digit_value(h[i]) < 16);
    }
    assert(text::digit_value(':') == 16);
    assert(text::digit_value('+') == 16);
}

pub(crate) proof fn lemma_hex_digit(n: nat)
    requires
        n < 16,
    ensures
        text::digit_value(text::hex_digit(n)) == n,
{
}

pub(crate) proof fn lemma_hex_reads_back(n: nat, width: nat, max: nat)
    requires
        width > 0,
        n < vstd::arithmetic::power::pow(16, width),
        n <= max,
    ensures
        text::parse_uint(control::hex(n, width), 16, max) == Some(n),
{
    lemma_hex_value(n, width);
    let h = control::hex(n, width);
    assert(h.contains(h[0]));
}

/// An IPv4 address in dotted decimal notation.
pub open spec fn dotted(a: u8, b: u8, c: u8, d: u8) -> Seq<char> {
    text::decimal(a as nat) + "."@ + text::decimal(b as nat) + "."@ + text::decimal(c as nat) + "."@
        + text::decimal(d as nat)
}

pub(crate) proof fn lemma_bytes(a: u8, b: u8, c: u8, d: u8)
    ensures
        ({
            let v = (a + 256 * b + 65536 * c + 16777216 * d) as nat;
            &&& v < 0x1_0000_0000
            &&& addr::byte_of(v, 0) == a
            &&& addr::byte_of(v, 1) == b
            &&& addr::byte_of(v, 2) == c
            &&& addr::byte_of(v, 3) == d
        }),
{
    let v = (a + 256 * b + 65536 * c + 16777216 * d) as nat;
    assert(v / 256 == b + 256 * c + 65536 * d && v % 256 == a);
    assert(v / 65536 == c + 256 * d);
    assert(v / 16777216 == d);
}

/// The kernel writes an IPv4 address as one number, its first byte lowest, and the port behind a
/// colon, both in hexadecimal: it is shown as loopback where it begins with 127, as all addresses
/// where it is zero, and else in dotted decimal notation.
pub proof fn kernel_ipv4_addresses_are_shown(a: u8, b: u8, c: u8, d: u8, port: u16)
    ensures
        addr::kernel_addr_port(
            control::hex((a + 256 * b + 65536 * c + 16777216 * d) as nat, 8) + ":"@ + control::hex(
                port as nat,
                4,
            ),
        ) == Some(
            (
                if a == 127 {
                    "lo"@
                } else if a == 0 && b == 0 && c == 0 && d == 0 {
                    "*"@
                } else {
                    dotted(a, b, c, d)
                },
                port,
            ),
        ),
{
    reveal_strlit(":");
    let v = (a + 256 * b + 65536 * c + 16777216 * d) as nat;
    lemma_bytes(a, b, c, d);
    assert(vstd::arithmetic::power::pow(16, 8) == 0x1_0000_0000) by {
        reveal_with_fuel(vstd::arithmetic::power::pow, 9);
    }
    assert(vstd::arithmetic::power::pow(16, 4) == 0x1_0000) by {
        reveal_with_fuel(vstd::arithmetic::power::pow, 5);
    }
    lemma_hex_value(v, 8);
    lemma_hex_reads_back(v, 8, 0xffff_ffff);
    lemma_hex_reads_back(port as nat, 4, 0xffff);
    let h = control::hex(v, 8);
    let p = control::hex(port as nat, 4);
    assert(h + ":"@ + p =~= h.push(':') + p);
    text_laws::splits_are_at_the_character(h, ':', p);
    let o = Seq::new(4, |i: int| addr::byte_of(v, i));
    assert(o[0] == a && o[1] == b && o[2] == c && o[3] == d);
}

/// The listeners on these ports, and the one that the connection itself goes to, are system services,
/// whatever their process.
pub proof fn system_ports_are_these(port: u16, process: Option<Seq<char>>, sshd_port: u16)
    ensures
        port == 22 || port == 25 || port == 53 || port == 111 || port == 631 || port == 5355 || port
            == sshd_port ==> remote::system_service(port, process, sshd_port),
        process is None ==> (remote::system_service(port, process, sshd_port) <==> port == 22 || port
            == 25 || port == 53 || port == 111 || port == 631 || port == 5355 || port == sshd_port),
{
    let d = remote::deny_ports();
    assert(d[0] == 22 && d[1] == 25 && d[2] == 53 && d[3] == 111 && d[4] == 631 && d[5] == 5355);
}

/// On other ports exactly these processes are system services, with or without quotes round their
/// names.
pub proof fn system_processes_are_these(port: u16, name: Seq<char>, sshd_port: u16)
    requires
        !(port == 22 || port == 25 || port == 53 || port == 111 || port == 631 || port == 5355 || port
            == sshd_port),
        name.len() > 0,
        name[0] != '"',
        name.last() != '"',
    ensures
        ({
            let system = name == "sshd"@ || name == "ssh"@ || name == "systemd"@ || name
                == "systemd-resolve"@ || name == "systemd-resolved"@ || name == "init"@ || name
                == "dnsmasq"@ || name == "named"@ || name == "rpcbind"@ || name == "rpc.statd"@
                || name == "cupsd"@ || name == "exim4"@ || name == "master"@ || name == "sendmail"@
                || name == "chronyd"@ || name == "ntpd"@ || name == "avahi-daemon"@ || name
                == "NetworkManager"@;
            &&& remote::system_service(port, Some(name), sshd_port) <==> system
            &&& remote::system_service(port, Some(seq!['"'] + name + seq!['"']), sshd_port)
                <==> system
        }),
{
    let d = remote::deny_ports();
    assert(d[0] == 22 && d[1] == 25 && d[2] == 53 && d[3] == 111 && d[4] == 631 && d[5] == 5355);
    let l = remote::deny_procs();
    assert(l[0] == "sshd"@ && l[1] == "ssh"@ && l[2] == "systemd"@ && l[3] == "systemd-resolve"@
        && l[4] == "systemd-resolved"@ && l[5] == "init"@ && l[6] == "dnsmasq"@ && l[7] == "named"@
        && l[8] == "rpcbind"@ && l[9] == "rpc.statd"@ && l[10] == "cupsd"@ && l[11] == "exim4"@
        && l[12] == "master"@ && l[13] == "sendmail"@ && l[14] == "chronyd"@ && l[15] == "ntpd"@
        && l[16] == "avahi-daemon"@ && l[17] == "NetworkManager"@);
    assert(l.len() == 18);
    assert(text::strip_ends(name, '"', '"') == name);
    let q = seq!['"'] + name + seq!['"'];
    assert(q.drop_first() =~= name.push('"'));
    assert(name.push('"')[0] == name[0]);
    assert(text::strip_front(name.push('"'), '"', '"') == name.push('"'));
    assert(text::strip_front(q, '"', '"') == name.push('"'));
    assert(name.push('"').drop_last() =~= name);
    assert(text::strip_back(name, '"', '"') == name);
    assert(text::strip_back(name.push('"'), '"', '"') == name);
}

} // verus!
