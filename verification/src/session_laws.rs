//! What the process table and `ssh -G` are read as, whatever they hold.
use vstd::prelude::*;
use crate::discover;
use crate::discover::ConnKey;
use crate::laws;
use crate::maps;
use crate::text;
use crate::text_laws;

verus! {

/// Nothing read yet of an ssh command line.
pub open spec fn unread() -> discover::ArgsModel {
    discover::ArgsModel { extra: Seq::empty(), lforwards: Seq::empty() }
}

proof fn lemma_options(c: char)
    ensures
        discover::arg_opt(c) <==> c == 'b' || c == 'B' || c == 'c' || c == 'D' || c == 'E' || c
            == 'e' || c == 'F' || c == 'I' || c == 'i' || c == 'J' || c == 'L' || c == 'l' || c
            == 'm' || c == 'O' || c == 'o' || c == 'p' || c == 'Q' || c == 'R' || c == 'S' || c
            == 'W' || c == 'w',
        discover::carry_opt(c) <==> c == 'F' || c == 'p' || c == 'l' || c == 'i' || c == 'J',
{
    reveal_strlit("bBcDEeFIiJLlmOopQRSWw");
    reveal_strlit("FpliJ");
    let s = "bBcDEeFIiJLlmOopQRSWw"@;
    assert(s[0] == 'b' && s[1] == 'B' && s[2] == 'c' && s[3] == 'D' && s[4] == 'E' && s[5] == 'e');
    assert(s[6] == 'F' && s[7] == 'I' && s[8] == 'i' && s[9] == 'J' && s[10] == 'L' && s[11] == 'l');
    assert(s[12] == 'm' && s[13] == 'O' && s[14] == 'o' && s[15] == 'p' && s[16] == 'Q');
    assert(s[17] == 'R' && s[18] == 'S' && s[19] == 'W' && s[20] == 'w');
    let t = "FpliJ"@;
    assert(t[0] == 'F' && t[1] == 'p' && t[2] == 'l' && t[3] == 'i' && t[4] == 'J');
}

/// Each of ssh's options that take a value takes it from the next word, or from the rest of its own
/// word. The options -F, -p, -l, -i and -J are kept with their values, the value of -L is kept as a
/// forward, and the others leave nothing behind.
pub proof fn options_take_their_values(
    c: char,
    value: Seq<char>,
    more: Seq<Seq<char>>,
    seen: discover::ArgsModel,
)
    requires
        c == 'b' || c == 'B' || c == 'c' || c == 'D' || c == 'E' || c == 'e' || c == 'F' || c == 'I'
            || c == 'i' || c == 'J' || c == 'L' || c == 'l' || c == 'm' || c == 'o' || c == 'p' || c
            == 'Q' || c == 'R' || c == 'S' || c == 'w',
    ensures
        ({
            let after = discover::ArgsModel {
                extra: if c == 'F' || c == 'p' || c == 'l' || c == 'i' || c == 'J' {
                    seen.extra + seq![seq!['-', c], value]
                } else {
                    seen.extra
                },
                lforwards: if c == 'L' {
                    seen.lforwards + seq![value]
                } else {
                    seen.lforwards
                },
            };
            &&& discover::ssh_args(seq![seq!['-', c], value] + more, seen) == discover::ssh_args(
                more,
                after,
            )
            &&& value.len() > 0 ==> discover::ssh_args(seq![seq!['-', c] + value] + more, seen)
                == discover::ssh_args(more, after)
            &&& discover::ssh_args(seq![seq!['-', c]], seen) is None
        }),
{
    reveal_strlit("--");
    lemma_options(c);
    let opt = seq!['-', c];
    let after = seen.with(c, value);
    assert(after.extra =~= if discover::carry_opt(c) {
        seen.extra + seq![opt, value]
    } else {
        seen.extra
    });
    assert(after.lforwards =~= if c == 'L' {
        seen.lforwards + seq![value]
    } else {
        seen.lforwards
    });
    let apart = seq![opt, value] + more;
    assert(apart[0] == opt && apart[1] == value);
    assert(opt.skip(1) =~= seq![c]);
    assert(seq![c].skip(1) =~= Seq::<char>::empty());
    assert(opt[1] != '-' && "--"@[1] == '-');
    assert(discover::flags(opt.skip(1)) == discover::FlagsModel::Takes(c, Seq::empty()));
    assert(apart.skip(2) =~= more);
    let alone = seq![opt];
    assert(alone[0] == opt);
    if value.len() > 0 {
        let word = opt + value;
        let joined = seq![word] + more;
        assert(joined[0] == word);
        assert(word[0] == '-' && word[1] == c);
        assert(word.skip(1)[0] == c);
        assert(word.skip(1).skip(1) =~= value);
        assert(joined.skip(1) =~= more);
    }
}

/// Options without a value leave nothing behind, alone or in a group; -O and -W make no session, and
/// neither does a dash alone.
pub proof fn other_options_leave_nothing(
    c: char,
    group: Seq<char>,
    more: Seq<Seq<char>>,
    seen: discover::ArgsModel,
)
    requires
        c != '-',
        !(c == 'b' || c == 'B' || c == 'c' || c == 'D' || c == 'E' || c == 'e' || c == 'F' || c
            == 'I' || c == 'i' || c == 'J' || c == 'L' || c == 'l' || c == 'm' || c == 'o' || c == 'p'
            || c == 'Q' || c == 'R' || c == 'S' || c == 'w'),
    ensures
        c != 'O' && c != 'W' ==> discover::ssh_args(seq![seq!['-', c]] + more, seen)
            == discover::ssh_args(more, seen),
        c != 'O' && c != 'W' && group.len() > 0 && group[0] != '-' ==> discover::ssh_args(
            seq![seq!['-', c] + group] + more,
            seen,
        ) == discover::ssh_args(seq![seq!['-'] + group] + more, seen),
        c == 'O' || c == 'W' ==> discover::ssh_args(seq![seq!['-', c] + group] + more, seen) is None,
        discover::ssh_args(seq![seq!['-']] + more, seen) is None,
{
    reveal_strlit("--");
    lemma_options(c);
    assert("--"@[1] == '-');
    let word = seq!['-', c] + group;
    assert(word[0] == '-' && word[1] == c);
    let args = seq![word] + more;
    assert(args[0] == word);
    assert(args.skip(1) =~= more);
    assert(word.skip(1)[0] == c);
    assert(word.skip(1).skip(1) =~= group);
    let one = seq!['-', c];
    let alone = seq![one] + more;
    assert(alone[0] == one);
    assert(alone.skip(1) =~= more);
    assert(one.skip(1) =~= seq![c]);
    assert(seq![c].skip(1) =~= Seq::<char>::empty());
    assert(one[1] == c);
    assert(discover::flags(Seq::<char>::empty()) is Plain);
    if c != 'O' && c != 'W' {
        assert(discover::flags(seq![c]) is Plain);
    }
    if group.len() > 0 && group[0] != '-' {
        let less = seq!['-'] + group;
        assert(less[0] == '-' && less[1] == group[0]);
        let fewer = seq![less] + more;
        assert(fewer[0] == less);
        assert(fewer.skip(1) =~= more);
        assert(less.skip(1) =~= group);
        if discover::flags(group) is Takes {
            assert(fewer.len() == args.len());
            if args.len() > 1 {
                assert(fewer[1] == more[0] && args[1] == more[0]);
                assert(fewer.skip(2) =~= more.skip(1));
                assert(args.skip(2) =~= more.skip(1));
            }
        }
    }
    let dash = seq![seq!['-']] + more;
    assert(dash[0] =~= seq!['-']);
    assert(dash[0].len() == 1);
}

/// What stands last on the command line is the destination, also behind a double dash; with nothing
/// there, or with more behind it, there is no session.
pub proof fn destinations_stand_last(
    dest: Seq<char>,
    more: Seq<Seq<char>>,
    seen: discover::ArgsModel,
)
    ensures
        dest.len() > 0 && dest[0] != '-' ==> discover::ssh_args(seq![dest], seen) == Some(
            (dest, seen),
        ),
        dest.len() > 0 && dest[0] != '-' && more.len() > 0 ==> discover::ssh_args(
            seq![dest] + more,
            seen,
        ) is None,
        discover::ssh_args(seq!["--"@, dest], seen) == Some((dest, seen)),
        discover::ssh_args(Seq::empty(), seen) is None,
        more.len() != 1 ==> discover::ssh_args(seq!["--"@] + more, seen) is None,
{
    reveal_strlit("--");
    assert((seq![dest] + more)[0] == dest);
    assert((seq!["--"@] + more)[0] == "--"@);
    assert("--"@[0] == '-');
}

pub(crate) proof fn lemma_decimal_solid(n: nat)
    ensures
        text::decimal(n).len() > 0,
        text_laws::solid(text::decimal(n)),
        !text::decimal(n).contains('/'),
        !text::decimal(n).contains(':'),
        !text::decimal(n).contains('.'),
        !text::decimal(n).contains(' '),
{
    laws::lemma_decimal(n);
    let d = text::decimal(n);
    assert forall|i: int| 0 <= i < d.len() implies !text::is_white(#[trigger] d[i]) by {
        assert('0' <= d[i] <= '9');
    }
    assert forall|c: char| d.contains(c) implies '0' <= c <= '9' by {
        let i = choose|i: int| 0 <= i < d.len() && d[i] == c;
        assert('0' <= d[i] <= '9');
    }
}

/// A line of the process table tells of the session that its command line makes, under the number
/// that it begins with, exactly where the program is ssh, by whatever path, and it is none of the
/// program's own.
pub proof fn ssh_clients_are_sessions(
    lead: Seq<char>,
    pid: u32,
    rest: Seq<char>,
    dir: Seq<char>,
    name: Seq<char>,
    args: Seq<Seq<char>>,
)
    requires
        text_laws::hollow(lead),
        !name.contains('/'),
        text::words(rest) == seq![name] + args || text::words(rest) == seq![dir + "/"@ + name] + args,
    ensures
        ({
            let line = lead + text::decimal(pid as nat) + " "@ + rest;
            match discover::ssh_args(args, unread()) {
                Some((dest, seen)) if name == "ssh"@ && !text::contains_text(
                    rest,
                    "ssh-autoport"@,
                ) => discover::ps_line(line) == Some(
                    discover::ConnModel {
                        pid,
                        dest,
                        extra: seen.extra,
                        lforwards: seen.lforwards,
                    },
                ),
                _ => discover::ps_line(line) is None,
            }
        }),
{
    reveal_strlit(" ");
    reveal_strlit("/");
    let d = text::decimal(pid as nat);
    let line = lead + d + " "@ + rest;
    let body = d + " "@ + rest;
    lemma_decimal_solid(pid as nat);
    assert(line =~= lead + body);
    assert(body[0] == d[0]);
    text_laws::lemma_trim_front(lead, body);
    let n = d.len() as int;
    assert(body[n] == ' ');
    assert forall|j: int| 0 <= j < n implies !text::is_white(#[trigger] body[j]) by {
        assert(body[j] == d[j]);
    }
    discover::lemma_split_white(body, n);
    assert(body.take(n) =~= d);
    assert(body.skip(n + 1) =~= rest);
    laws::decimal_reads_back(pid as nat, 0xffff_ffff);
    let ws = text::words(rest);
    assert(ws.skip(1) =~= args);
    let slash = dir.push('/') + name;
    assert(dir + "/"@ + name =~= slash);
    text_laws::splits_are_at_the_character(dir, '/', name);
    text_laws::splits_are_at_the_character(name, '/', dir);
    assert(discover::base_name(ws[0]) == name);
}

/// A line `pid ssh -x value dest` of the process table, for each option -x that takes a value, is a
/// session to dest. It carries [-x, value] for -F, -p, -l, -i and -J, and the forward for -L, and
/// nothing else.
pub proof fn sessions_with_an_option(pid: u32, c: char, value: Seq<char>, dest: Seq<char>)
    requires
        c == 'b' || c == 'B' || c == 'c' || c == 'D' || c == 'E' || c == 'e' || c == 'F' || c == 'I'
            || c == 'i' || c == 'J' || c == 'L' || c == 'l' || c == 'm' || c == 'o' || c == 'p' || c
            == 'Q' || c == 'R' || c == 'S' || c == 'w',
        value.len() > 0,
        text_laws::solid(value),
        dest.len() > 0,
        text_laws::solid(dest),
        dest[0] != '-',
        !text::contains_text("ssh -"@ + seq![c] + " "@ + value + " "@ + dest, "ssh-autoport"@),
    ensures
        discover::ps_line(
            text::decimal(pid as nat) + " ssh -"@ + seq![c] + " "@ + value + " "@ + dest,
        ) == Some(
            discover::ConnModel {
                pid,
                dest,
                extra: if c == 'F' || c == 'p' || c == 'l' || c == 'i' || c == 'J' {
                    seq![seq!['-', c], value]
                } else {
                    Seq::empty()
                },
                lforwards: if c == 'L' {
                    seq![value]
                } else {
                    Seq::empty()
                },
            },
        ),
{
    reveal_strlit(" ");
    reveal_strlit("ssh");
    reveal_strlit("ssh -");
    reveal_strlit(" ssh -");
    let none = Seq::<char>::empty();
    let opt = seq!['-', c];
    let rest = "ssh -"@ + seq![c] + " "@ + value + " "@ + dest;
    let s0 = "ssh"@;
    let s1 = s0.push(' ') + opt;
    let s2 = s1.push(' ') + value;
    let s3 = s2.push(' ') + dest;
    assert(s3 =~= rest);
    assert(text_laws::solid(s0));
    assert(text_laws::solid(opt));
    text_laws::words_stand_between_white_space(none, ' ', s0);
    text_laws::words_stand_between_white_space(s0, ' ', opt);
    text_laws::words_stand_between_white_space(s1, ' ', value);
    text_laws::words_stand_between_white_space(s2, ' ', dest);
    let args = seq![opt, value] + seq![dest];
    assert(text::words(rest) =~= seq![s0] + args);
    options_take_their_values(c, value, seq![dest], unread());
    let seen = discover::ArgsModel {
        extra: if c == 'F' || c == 'p' || c == 'l' || c == 'i' || c == 'J' {
            seq![opt, value]
        } else {
            Seq::empty()
        },
        lforwards: if c == 'L' {
            seq![value]
        } else {
            Seq::empty()
        },
    };
    assert(unread().extra + seq![opt, value] =~= seq![opt, value]);
    assert(unread().lforwards + seq![value] =~= seq![value]);
    destinations_stand_last(dest, Seq::empty(), seen);
    assert(!s0.contains('/')) by {
        assert(s0[0] == 's' && s0[1] == 's' && s0[2] == 'h');
    }
    ssh_clients_are_sessions(none, pid, rest, none, s0, args);
    assert(none + text::decimal(pid as nat) + " "@ + rest =~= text::decimal(pid as nat) + " ssh -"@
        + seq![c] + " "@ + value + " "@ + dest);
}

/// Each entry of the listing of the process table comes from a line that has its destination and
/// options, and its number is that of the first such line.
pub proof fn entries_come_from_lines(out: Seq<char>, n: int)
    requires
        0 <= n < discover::session_listing(out).len(),
    ensures
        ({
            let ls = text::lines(out);
            let e = discover::session_listing(out)[n];
            exists|i: int|
                0 <= i < ls.len() && (discover::ps_line(#[trigger] ls[i]) matches Some(c) && c.key()
                    == e.key() && c.pid == e.pid) && forall|j: int|
                    0 <= j < i ==> !(discover::ps_line(#[trigger] ls[j]) matches Some(c) && c.key()
                        == e.key())
        }),
{
    let ls = text::lines(out);
    let m = discover::sessions(ls);
    let keys = maps::ordered_keys::<ConnKey, discover::ConnModel>(m);
    laws::lemma_sessions(ls);
    maps::lemma_ordered_keys::<ConnKey, discover::ConnModel>(m);
    assert(keys.to_set().contains(keys[n]));
    lemma_first_line(ls, keys[n]);
}

proof fn lemma_first_line(ls: Seq<Seq<char>>, k: (Seq<char>, Seq<Seq<char>>))
    requires
        discover::sessions(ls).contains_key(k),
    ensures
        exists|i: int|
            0 <= i < ls.len() && (discover::ps_line(#[trigger] ls[i]) matches Some(c) && c.key() == k
                && c.pid == discover::sessions(ls)[k].pid) && forall|j: int|
                0 <= j < i ==> !(discover::ps_line(#[trigger] ls[j]) matches Some(c) && c.key() == k),
    decreases ls.len(),
{
    let fewer = ls.drop_last();
    let before = discover::sessions(fewer);
    if before.contains_key(k) {
        lemma_first_line(fewer, k);
        let i = choose|i: int|
            0 <= i < fewer.len() && (discover::ps_line(#[trigger] fewer[i]) matches Some(c) && c.key()
                == k && c.pid == before[k].pid) && forall|j: int|
                0 <= j < i ==> !(discover::ps_line(#[trigger] fewer[j]) matches Some(c) && c.key()
                    == k);
        assert(ls[i] == fewer[i]);
        assert forall|j: int| 0 <= j < i implies !(discover::ps_line(#[trigger] ls[j]) matches Some(
            c,
        ) && c.key() == k) by {
            assert(ls[j] == fewer[j]);
        }
    } else {
        let i = ls.len() - 1;
        assert(ls[i] == ls.last());
        assert forall|j: int| 0 <= j < i implies !(discover::ps_line(#[trigger] ls[j]) matches Some(
            c,
        ) && c.key() == k) by {
            assert(ls[j] == fewer[j]);
            if discover::ps_line(fewer[j]) is Some {
                laws::lemma_session_kept(fewer, j);
            }
        }
    }
}

/// The forwards of an entry are those of the lines that have its destination and options, line after
/// line: one more such line puts its forwards behind them, and changes nothing else.
pub proof fn entries_gather_forwards(ls: Seq<Seq<char>>, l: Seq<char>)
    ensures
        ({
            let before = discover::sessions(ls);
            let after = discover::sessions(ls.push(l));
            match discover::ps_line(l) {
                None => after == before,
                Some(c) => {
                    &&& after.contains_key(c.key())
                    &&& before.contains_key(c.key()) ==> {
                        &&& after[c.key()].lforwards == before[c.key()].lforwards + c.lforwards
                        &&& after[c.key()].pid == before[c.key()].pid
                    }
                    &&& !before.contains_key(c.key()) ==> after[c.key()] == c
                    &&& forall|k: (Seq<char>, Seq<Seq<char>>)|
                        k != c.key() ==> (#[trigger] after.contains_key(k) <==> before.contains_key(k))
                            && (before.contains_key(k) ==> after[k] == before[k])
                },
            }
        }),
{
    assert(ls.push(l).drop_last() =~= ls);
}

/// A line of `ssh -G` that gives this forward: from the local port to the port of the server itself.
pub open spec fn forward_line(l: Seq<char>) -> Option<(u16, u16)> {
    if l.len() >= 13 && l.take(13) == "localforward "@ {
        discover::g_localforward(l.skip(13))
    } else {
        None
    }
}

proof fn lemma_prefixes(l: Seq<char>)
    ensures
        text::starts_with(l, "user "@) <==> l.len() >= 5 && l.take(5) == "user "@,
        text::starts_with(l, "hostname "@) <==> l.len() >= 9 && l.take(9) == "hostname "@,
        text::starts_with(l, "port "@) <==> l.len() >= 5 && l.take(5) == "port "@,
        text::starts_with(l, "localforward "@) <==> l.len() >= 13 && l.take(13) == "localforward "@,
        text::starts_with(l, "controlpath "@) <==> l.len() >= 12 && l.take(12) == "controlpath "@,
        l.len() >= 5 && l.take(5) == "user "@ ==> l[0] == 'u',
        l.len() >= 9 && l.take(9) == "hostname "@ ==> l[0] == 'h',
        l.len() >= 5 && l.take(5) == "port "@ ==> l[0] == 'p',
        l.len() >= 13 && l.take(13) == "localforward "@ ==> l[0] == 'l',
        l.len() >= 12 && l.take(12) == "controlpath "@ ==> l[0] == 'c',
{
    reveal_strlit("user ");
    reveal_strlit("hostname ");
    reveal_strlit("port ");
    reveal_strlit("localforward ");
    reveal_strlit("controlpath ");
    if l.len() >= 5 {
        assert(l.subrange(0, 5) =~= l.take(5));
        assert(l.take(5)[0] == l[0]);
    }
    if l.len() >= 9 {
        assert(l.subrange(0, 9) =~= l.take(9));
        assert(l.take(9)[0] == l[0]);
    }
    if l.len() >= 13 {
        assert(l.subrange(0, 13) =~= l.take(13));
        assert(l.take(13)[0] == l[0]);
    }
    if l.len() >= 12 {
        assert(l.subrange(0, 12) =~= l.take(12));
        assert(l.take(12)[0] == l[0]);
    }
}

proof fn lemma_config_forwards(ls: Seq<Seq<char>>)
    ensures
        discover::ConfigModel::start().read_all(ls).lforwards == ls.filter(
            |l: Seq<char>| forward_line(l) is Some,
        ).map_values(|l: Seq<char>| forward_line(l)->0),
    decreases ls.len(),
{
    let test = |l: Seq<char>| forward_line(l) is Some;
    let give = |l: Seq<char>| forward_line(l)->0;
    reveal(Seq::filter);
    if ls.len() == 0 {
        assert(ls.filter(test).map_values(give) =~= Seq::<(u16, u16)>::empty());
    } else {
        let fewer = ls.drop_last();
        lemma_config_forwards(fewer);
        lemma_prefixes(ls.last());
        let before = fewer.filter(test);
        if test(ls.last()) {
            assert(ls.filter(test) == before.push(ls.last()));
            assert(before.push(ls.last()).map_values(give) =~= before.map_values(give).push(
                give(ls.last()),
            ));
        } else {
            assert(ls.filter(test) == before);
        }
    }
}

/// The forwards that `ssh -G` tells of are those of its localforward lines to the server itself, all
/// of them and in their order.
pub proof fn config_forwards_are_those_of_the_lines(out: Seq<char>)
    ensures
        discover::config_identity(out) matches Some(r) ==> r.lforwards == text::lines(out).filter(
            |l: Seq<char>| forward_line(l) is Some,
        ).map_values(|l: Seq<char>| forward_line(l)->0),
{
    lemma_config_forwards(text::lines(out));
}

/// Of two localforward lines to the server itself both are kept, the first before the second.
pub proof fn config_forwards_add_up(out: Seq<char>, i: int, j: int)
    requires
        0 <= i < j < text::lines(out).len(),
        forward_line(text::lines(out)[i]) is Some,
        forward_line(text::lines(out)[j]) is Some,
        discover::config_identity(out) is Some,
    ensures
        ({
            let fs = discover::config_identity(out)->0.lforwards;
            exists|m: int, n: int|
                0 <= m < n < fs.len() && #[trigger] fs[m] == forward_line(text::lines(out)[i])->0
                    && #[trigger] fs[n] == forward_line(text::lines(out)[j])->0
        }),
{
    lemma_both_kept(text::lines(out), i, j);
    assert(discover::config_identity(out)->0.lforwards == discover::ConfigModel::start().read_all(
        text::lines(out),
    ).lforwards);
}

pub(crate) proof fn lemma_kept(ls: Seq<Seq<char>>, i: int) -> (m: int)
    requires
        0 <= i < ls.len(),
        forward_line(ls[i]) is Some,
    ensures
        ({
            let fs = discover::ConfigModel::start().read_all(ls).lforwards;
            0 <= m < fs.len() && fs[m] == forward_line(ls[i])->0
        }),
    decreases ls.len(),
{
    lemma_prefixes(ls.last());
    if i == ls.len() - 1 {
        discover::ConfigModel::start().read_all(ls).lforwards.len() - 1
    } else {
        assert(ls.drop_last()[i] == ls[i]);
        lemma_kept(ls.drop_last(), i)
    }
}

proof fn lemma_both_kept(ls: Seq<Seq<char>>, i: int, j: int)
    requires
        0 <= i < j < ls.len(),
        forward_line(ls[i]) is Some,
        forward_line(ls[j]) is Some,
    ensures
        ({
            let fs = discover::ConfigModel::start().read_all(ls).lforwards;
            exists|m: int, n: int|
                0 <= m < n < fs.len() && #[trigger] fs[m] == forward_line(ls[i])->0
                    && #[trigger] fs[n] == forward_line(ls[j])->0
        }),
    decreases ls.len(),
{
    let fewer = ls.drop_last();
    let fs = discover::ConfigModel::start().read_all(ls).lforwards;
    let before = discover::ConfigModel::start().read_all(fewer).lforwards;
    lemma_prefixes(ls.last());
    assert(fewer[i] == ls[i]);
    if j == ls.len() - 1 {
        let m = lemma_kept(fewer, i);
        assert(fs[m] == forward_line(ls[i])->0);
        assert(fs[fs.len() - 1] == forward_line(ls[j])->0);
    } else {
        assert(fewer[j] == ls[j]);
        lemma_both_kept(fewer, i, j);
        let (m, n) = choose|m: int, n: int|
            0 <= m < n < before.len() && #[trigger] before[m] == forward_line(ls[i])->0
                && #[trigger] before[n] == forward_line(ls[j])->0;
        assert(fs[m] == before[m] && fs[n] == before[n]);
    }
}

/// One more line of `ssh -G` changes what it is about and nothing else: the user, the host name and
/// the port are what the last line of their kind says, without the white space around it; a
/// ControlPath counts unless it is empty, "none", or holds a '%' that ssh left in it.
pub proof fn config_lines_say_one_thing(ls: Seq<Seq<char>>, kind: Seq<char>, v: Seq<char>)
    requires
        kind == "user "@ || kind == "hostname "@ || kind == "port "@ || kind == "controlpath "@
            || kind == "localforward "@,
    ensures
        ({
            let before = discover::ConfigModel::start().read_all(ls);
            let after = discover::ConfigModel::start().read_all(ls.push(kind + v));
            let t = text::trim(v);
            &&& kind == "user "@ ==> after == (discover::ConfigModel { user: Some(t), ..before })
            &&& kind == "hostname "@ ==> after == (discover::ConfigModel {
                hostname: Some(t),
                ..before
            })
            &&& kind == "port "@ ==> after == (discover::ConfigModel {
                port: match text::parse_uint(t, 10, 65535) {
                    Some(n) => Some(n as u16),
                    None => None,
                },
                ..before
            })
            &&& kind == "controlpath "@ ==> after == (discover::ConfigModel {
                control_path: if t.len() == 0 || t == "none"@ || t.contains('%') {
                    before.control_path
                } else {
                    Some(t)
                },
                ..before
            })
            &&& kind == "localforward "@ ==> after == (discover::ConfigModel {
                lforwards: match discover::g_localforward(v) {
                    Some(f) => before.lforwards + seq![f],
                    None => before.lforwards,
                },
                ..before
            })
        }),
{
    reveal_strlit("user ");
    reveal_strlit("hostname ");
    reveal_strlit("port ");
    reveal_strlit("localforward ");
    reveal_strlit("controlpath ");
    let l = kind + v;
    assert(ls.push(l).drop_last() =~= ls);
    assert(ls.push(l).last() == l);
    lemma_prefixes(l);
    assert(l.take(kind.len() as int) =~= kind);
    assert(l.skip(kind.len() as int) =~= v);
    assert(l[0] == kind[0]);
    let before = discover::ConfigModel::start().read_all(ls);
    if kind == "localforward "@ {
        match discover::g_localforward(v) {
            Some(f) => {
                assert(before.lforwards.push(f) =~= before.lforwards + seq![f]);
            },
            None => {},
        }
    }
}

/// A line of another kind changes nothing, and nothing is known before the first line; the identity
/// is known exactly where the user, the host name and the port are.
pub proof fn other_config_lines_say_nothing(ls: Seq<Seq<char>>, l: Seq<char>, out: Seq<char>)
    requires
        !(l.len() >= 5 && l.take(5) == "user "@),
        !(l.len() >= 9 && l.take(9) == "hostname "@),
        !(l.len() >= 5 && l.take(5) == "port "@),
        !(l.len() >= 13 && l.take(13) == "localforward "@),
        !(l.len() >= 12 && l.take(12) == "controlpath "@),
    ensures
        ({
            let start = discover::ConfigModel::start();
            let all = start.read_all(text::lines(out));
            &&& start.read_all(ls.push(l)) == start.read_all(ls)
            &&& start.read_all(Seq::empty()) == start
            &&& start.user is None && start.hostname is None && start.port is None
                && start.control_path is None && start.lforwards.len() == 0
            &&& discover::config_identity(out) is Some <==> all.user is Some && all.hostname is Some
                && all.port is Some
            &&& discover::config_identity(out) matches Some(r) ==> {
                &&& all.user == Some(r.user)
                &&& all.hostname == Some(r.hostname)
                &&& all.port == Some(r.port)
                &&& r.lforwards == all.lforwards
                &&& r.control_path == all.control_path
            }
        }),
{
    lemma_prefixes(l);
    assert(ls.push(l).drop_last() =~= ls);
}

/// A text that means `t` in a forward spec: as it is, where it has no colon and no bracket, or else in
/// brackets.
pub open spec fn means(a: Seq<char>, t: Seq<char>) -> bool {
    &&& !t.contains('[') && !t.contains(']')
    &&& a == t && !t.contains(':') || a == seq!['['] + t + seq![']']
}

proof fn lemma_in_bracket(s: Seq<char>, t: Seq<char>)
    requires
        discover::fwd_parts(s).depth == 1,
        discover::fwd_parts(s).parts.len() > 0,
        !t.contains('[') && !t.contains(']'),
    ensures
        ({
            let p = discover::fwd_parts(s).parts;
            discover::fwd_parts(s + t) == (discover::FwdParts {
                parts: p.drop_last().push(p.last() + t),
                depth: 1,
            })
        }),
    decreases t.len(),
{
    let p = discover::fwd_parts(s).parts;
    if t.len() == 0 {
        assert(s + t =~= s);
        assert(p.last() + t =~= p.last());
        assert(p.drop_last().push(p.last()) =~= p);
    } else {
        let front = t.drop_last();
        assert forall|c: char| front.contains(c) implies t.contains(c) by {
            let i = choose|i: int| 0 <= i < front.len() && front[i] == c;
            assert(t[i] == c);
        }
        lemma_in_bracket(s, front);
        assert((s + t).drop_last() =~= s + front);
        assert((s + t).last() == t.last());
        assert(t[t.len() - 1] == t.last());
        let before = p.drop_last().push(p.last() + front);
        assert(before.drop_last() =~= p.drop_last());
        assert(before.last() == p.last() + front);
        assert((p.last() + front).push(t.last()) =~= p.last() + t);
    }
}

proof fn lemma_meant(s: Seq<char>, a: Seq<char>, t: Seq<char>)
    requires
        discover::fwd_parts(s).depth == 0,
        discover::fwd_parts(s).parts.len() > 0,
        means(a, t),
    ensures
        ({
            let p = discover::fwd_parts(s).parts;
            discover::fwd_parts(s + a) == (discover::FwdParts {
                parts: p.drop_last().push(p.last() + t),
                depth: 0,
            })
        }),
{
    if a == t && !t.contains(':') {
        laws::lemma_part_grows(s, t);
    } else {
        let p = discover::fwd_parts(s).parts;
        let s1 = s.push('[');
        assert(s1.drop_last() =~= s);
        lemma_in_bracket(s1, t);
        let s2 = (s1 + t).push(']');
        assert(s2.drop_last() =~= s1 + t);
        assert(s2 =~= s + a);
    }
}

/// The parts of a forward spec are what stands between its colons, with the brackets taken away.
pub(crate) proof fn lemma_spec_part(s: Seq<char>, ps: Seq<Seq<char>>, a: Seq<char>, t: Seq<char>)
    requires
        discover::fwd_parts(s) == (discover::FwdParts { parts: ps, depth: 0 }),
        means(a, t),
    ensures
        discover::fwd_parts(s.push(':') + a) == (discover::FwdParts { parts: ps.push(t), depth: 0 }),
{
    laws::lemma_part_ends(s);
    let s1 = s.push(':');
    lemma_meant(s1, a, t);
    let p = ps.push(Seq::<char>::empty());
    assert(p.last() + t =~= t);
    assert(p.drop_last().push(t) =~= ps.push(t));
}

pub(crate) proof fn lemma_spec_start(a: Seq<char>, t: Seq<char>)
    requires
        means(a, t),
    ensures
        discover::fwd_parts(a) == (discover::FwdParts { parts: seq![t], depth: 0 }),
{
    let none = Seq::<char>::empty();
    assert(discover::fwd_parts(none).parts =~= seq![none]);
    lemma_meant(none, a, t);
    assert(none + a =~= a);
    assert(none + t =~= t);
    assert(seq![none].drop_last().push(t) =~= seq![t]);
}

/// An -L spec `lport:host:rport`, with or without an address to bind to before it, and with each host
/// in brackets or not, is a forward from lport to that host on rport.
pub proof fn forward_specs_are_read(
    bind: Seq<char>,
    b: Seq<char>,
    lport: u16,
    name: Seq<char>,
    h: Seq<char>,
    rport: u16,
)
    requires
        means(b, bind),
        means(h, name),
    ensures
        ({
            let tail = text::decimal(lport as nat) + seq![':'] + h + seq![':'] + text::decimal(
                rport as nat,
            );
            &&& discover::l_spec(tail) == Some((lport, name, rport))
            &&& discover::l_spec(b + seq![':'] + tail) == Some((lport, name, rport))
        }),
{
    let l = text::decimal(lport as nat);
    let r = text::decimal(rport as nat);
    laws::lemma_no_marks(lport as nat);
    laws::lemma_no_marks(rport as nat);
    laws::decimal_reads_back(lport as nat, 0xffff);
    laws::decimal_reads_back(rport as nat, 0xffff);
    let tail = l + seq![':'] + h + seq![':'] + r;
    lemma_spec_start(l, l);
    lemma_spec_part(l, seq![l], h, name);
    let s1 = l.push(':') + h;
    lemma_spec_part(s1, seq![l].push(name), r, r);
    assert(s1.push(':') + r =~= tail);
    assert(discover::fwd_parts(tail).parts =~= seq![l, name, r]);
    lemma_spec_start(b, bind);
    lemma_spec_part(b, seq![bind], l, l);
    let t1 = b.push(':') + l;
    lemma_spec_part(t1, seq![bind].push(l), h, name);
    let t2 = t1.push(':') + h;
    lemma_spec_part(t2, seq![bind].push(l).push(name), r, r);
    assert(t2.push(':') + r =~= b + seq![':'] + tail);
    assert(discover::fwd_parts(b + seq![':'] + tail).parts =~= seq![bind, l, name, r]);
}

/// The tail of a localforward line of `ssh -G`, `lport host:rport` or `bind:lport host:rport`, is a
/// forward from lport to rport where the host is the server itself, and none where it is another.
pub proof fn localforward_lines_are_read(
    bind: Seq<char>,
    b: Seq<char>,
    lport: u16,
    name: Seq<char>,
    h: Seq<char>,
    rport: u16,
)
    requires
        means(b, bind),
        means(h, name),
        text_laws::solid(b),
        text_laws::solid(h),
    ensures
        ({
            let tail = text::decimal(lport as nat) + " "@ + h + ":"@ + text::decimal(rport as nat);
            let want = if discover::loopback_host(name) {
                Some((lport, rport))
            } else {
                None
            };
            &&& discover::g_localforward(tail) == want
            &&& discover::g_localforward(b + ":"@ + tail) == want
        }),
{
    reveal_strlit(" ");
    reveal_strlit(":");
    let none = Seq::<char>::empty();
    let l = text::decimal(lport as nat);
    let r = text::decimal(rport as nat);
    lemma_decimal_solid(lport as nat);
    lemma_decimal_solid(rport as nat);
    laws::lemma_no_marks(lport as nat);
    laws::lemma_no_marks(rport as nat);
    laws::decimal_reads_back(lport as nat, 0xffff);
    laws::decimal_reads_back(rport as nat, 0xffff);
    let connect = h.push(':') + r;
    let bound = b.push(':') + l;
    lemma_spec_start(h, name);
    lemma_spec_part(h, seq![name], r, r);
    assert(discover::fwd_parts(connect).parts =~= seq![name, r]);
    lemma_spec_start(l, l);
    lemma_spec_start(b, bind);
    lemma_spec_part(b, seq![bind], l, l);
    assert(discover::fwd_parts(bound).parts =~= seq![bind, l]);
    assert(text_laws::solid(connect)) by {
        assert forall|i: int| 0 <= i < connect.len() implies !text::is_white(
            #[trigger] connect[i],
        ) by {
            if i < h.len() {
                assert(connect[i] == h[i]);
            } else if i > h.len() {
                assert(connect[i] == r[i - h.len() - 1]);
            }
        }
    }
    assert(text_laws::solid(bound)) by {
        assert forall|i: int| 0 <= i < bound.len() implies !text::is_white(#[trigger] bound[i]) by {
            if i < b.len() {
                assert(bound[i] == b[i]);
            } else if i > b.len() {
                assert(bound[i] == l[i - b.len() - 1]);
            }
        }
    }
    let tail = l + " "@ + h + ":"@ + r;
    text_laws::words_stand_between_white_space(none, ' ', l);
    text_laws::words_stand_between_white_space(l, ' ', connect);
    assert(l.push(' ') + connect =~= tail);
    assert(text::words(tail) =~= seq![l, connect]);
    text_laws::words_stand_between_white_space(none, ' ', bound);
    text_laws::words_stand_between_white_space(bound, ' ', connect);
    assert(bound.push(' ') + connect =~= b + ":"@ + tail);
    assert(text::words(b + ":"@ + tail) =~= seq![bound, connect]);
}

/// The server itself is meant by "localhost", in whatever case, by 127.0.0.1 and by ::1, and by no
/// other name.
pub proof fn the_server_itself_has_three_names(h: Seq<char>)
    ensures
        discover::loopback_host(h) <==> h == "127.0.0.1"@ || h == "::1"@ || (h.len() == 9
            && forall|i: int|
            0 <= i < 9 ==> #[trigger] h[i] == "localhost"@[i] || h[i] as nat + 32
                == "localhost"@[i] as nat),
{
    reveal_strlit("localhost");
    let n = "localhost"@;
    assert(n[0] == 'l' && n[1] == 'o' && n[2] == 'c' && n[3] == 'a' && n[4] == 'l' && n[5] == 'h'
        && n[6] == 'o' && n[7] == 's' && n[8] == 't');
    assert forall|i: int| 0 <= i < 9 && h.len() == 9 implies (discover::ascii_lower(#[trigger] h[i])
        == discover::ascii_lower(n[i]) <==> h[i] == n[i] || h[i] as nat + 32 == n[i] as nat) by {
        lemma_lower(h[i], n[i]);
    }
    if discover::same_ignoring_case(h, n) {
        assert forall|i: int| 0 <= i < 9 implies #[trigger] h[i] == n[i] || h[i] as nat + 32
            == n[i] as nat by {
            assert(discover::ascii_lower(h[i]) == discover::ascii_lower(n[i]));
        }
    }
    if h.len() == 9 && forall|i: int|
        0 <= i < 9 ==> #[trigger] h[i] == n[i] || h[i] as nat + 32 == n[i] as nat {
        assert forall|i: int| 0 <= i < h.len() implies discover::ascii_lower(#[trigger] h[i])
            == discover::ascii_lower(n[i]) by {
            assert(h[i] == n[i] || h[i] as nat + 32 == n[i] as nat);
        }
    }
}

proof fn lemma_lower(a: char, b: char)
    requires
        'a' <= b <= 'z',
    ensures
        discover::ascii_lower(a) == discover::ascii_lower(b) <==> a == b || a as nat + 32 == b as nat,
{
}

/// The command that resolves a destination hands ssh the options that go with it, and the
/// destination last; nothing is connected to (-G).
pub proof fn resolving_asks_ssh(dest: Seq<char>, extra: Seq<Seq<char>>, i: int)
    ensures
        ({
            let c = discover::resolve_invocation(dest, extra);
            &&& c.program == "ssh"@
            &&& c.args.len() == extra.len() + 2
            &&& c.args[0] == "-G"@
            &&& 0 <= i < extra.len() ==> c.args[i + 1] == extra[i]
            &&& c.args.last() == dest
            &&& c.stdin is None
            &&& c.timeout_secs == 5
        }),
{
}

} // verus!
