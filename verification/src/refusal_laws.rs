//! What is made of lines and texts that do not have the form they should have.
use vstd::prelude::*;
use crate::addr;
use crate::discover;
use crate::discover::ConnKey;
use crate::laws;
use crate::maps;
use crate::remote;
use crate::scan_laws;
use crate::session_laws;
use crate::text;
use crate::text_laws;

verus! {

/// A line of the process table that does not begin with a number of thirty-two bits and white space
/// behind it is no session.
pub proof fn lines_without_a_number_are_no_sessions(
    lead: Seq<char>,
    word: Seq<char>,
    gap: char,
    rest: Seq<char>,
)
    requires
        text_laws::hollow(lead),
        text_laws::solid(word),
        word.len() > 0,
        text::is_white(gap),
    ensures
        discover::ps_line(lead + word) is None,
        text::parse_uint(word, 10, 0xffff_ffff) is None ==> discover::ps_line(
            lead + word + seq![gap] + rest,
        ) is None,
        discover::ps_line(lead) is None,
{
    assert(!text::is_white(word[0]));
    text_laws::lemma_trim_front(lead, word);
    discover::lemma_no_white(word);
    let body = word + seq![gap] + rest;
    assert(body[0] == word[0]);
    text_laws::lemma_trim_front(lead, body);
    assert(lead + word + seq![gap] + rest =~= lead + body);
    let n = word.len() as int;
    assert(body[n] == gap);
    assert forall|j: int| 0 <= j < n implies !text::is_white(#[trigger] body[j]) by {
        assert(body[j] == word[j]);
    }
    discover::lemma_split_white(body, n);
    assert(body.take(n) =~= word);
    text_laws::lemma_trim_front(lead, Seq::empty());
    assert(lead + Seq::<char>::empty() =~= lead);
}

/// The program and its arguments may stand behind any white space, and a line with a number alone is
/// no session.
pub proof fn any_white_space_ends_the_number(
    lead: Seq<char>,
    pid: u32,
    gap: char,
    rest: Seq<char>,
)
    requires
        text_laws::hollow(lead),
        text::is_white(gap),
    ensures
        discover::ps_line(lead + text::decimal(pid as nat) + seq![gap] + rest) == discover::ps_line(
            text::decimal(pid as nat) + " "@ + rest,
        ),
        text_laws::hollow(rest) ==> discover::ps_line(
            text::decimal(pid as nat) + " "@ + rest,
        ) is None,
{
    reveal_strlit(" ");
    let word = text::decimal(pid as nat);
    session_laws::lemma_decimal_solid(pid as nat);
    lemma_number_split(lead, word, gap, rest);
    lemma_number_split(Seq::empty(), word, ' ', rest);
    assert(Seq::<char>::empty() + word + seq![' '] + rest =~= word + " "@ + rest);
    if text_laws::hollow(rest) {
        lemma_hollow_words(rest);
    }
}

proof fn lemma_number_split(lead: Seq<char>, word: Seq<char>, gap: char, rest: Seq<char>)
    requires
        text_laws::hollow(lead),
        text_laws::solid(word),
        word.len() > 0,
        text::is_white(gap),
    ensures
        discover::split_white(text::trim_start(lead + word + seq![gap] + rest)) == Some((word, rest)),
{
    assert(!text::is_white(word[0]));
    let body = word + seq![gap] + rest;
    assert(body[0] == word[0]);
    text_laws::lemma_trim_front(lead, body);
    assert(lead + word + seq![gap] + rest =~= lead + body);
    let n = word.len() as int;
    assert(body[n] == gap);
    assert forall|j: int| 0 <= j < n implies !text::is_white(#[trigger] body[j]) by {
        assert(body[j] == word[j]);
    }
    discover::lemma_split_white(body, n);
    assert(body.take(n) =~= word);
    assert(body.skip(n + 1) =~= rest);
}

proof fn lemma_hollow_words(s: Seq<char>)
    requires
        text_laws::hollow(s),
    ensures
        text::words(s).len() == 0,
    decreases s.len(),
{
    if s.len() > 0 {
        let init = s.drop_last();
        assert forall|i: int| 0 <= i < init.len() implies text::is_white(#[trigger] init[i]) by {
            assert(init[i] == s[i]);
        }
        assert(text::is_white(s[s.len() - 1]));
        lemma_hollow_words(init);
    }
}

/// An -L spec has three or four parts between its colons, and the first and the last of the last three
/// are port numbers; what has not is no forward.
pub proof fn forward_specs_need_their_parts(a: Seq<Seq<char>>, t: Seq<Seq<char>>)
    requires
        a.len() == 5,
        t.len() == 5,
        forall|i: int| 0 <= i < 5 ==> session_laws::means(#[trigger] a[i], t[i]),
    ensures
        ({
            let c = seq![':'];
            let port = |s: Seq<char>| text::parse_uint(s, 10, 65535);
            let three = discover::l_spec(a[0] + c + a[1] + c + a[2]);
            let four = discover::l_spec(a[0] + c + a[1] + c + a[2] + c + a[3]);
            &&& discover::l_spec(a[0]) is None
            &&& discover::l_spec(a[0] + c + a[1]) is None
            &&& three is Some <==> port(t[0]) is Some && port(t[2]) is Some
            &&& three matches Some((l, name, r)) ==> port(t[0]) == Some(l as nat) && name == t[1]
                && port(t[2]) == Some(r as nat)
            &&& four is Some <==> port(t[1]) is Some && port(t[3]) is Some
            &&& four matches Some((l, name, r)) ==> port(t[1]) == Some(l as nat) && name == t[2]
                && port(t[3]) == Some(r as nat)
            &&& discover::l_spec(
                a[0] + c + a[1] + c + a[2] + c + a[3] + c + a[4],
            ) is None
        }),
{
    let c = seq![':'];
    assert(session_laws::means(a[0], t[0]) && session_laws::means(a[1], t[1])
        && session_laws::means(a[2], t[2]) && session_laws::means(a[3], t[3])
        && session_laws::means(a[4], t[4]));
    let s1 = a[0];
    let s2 = a[0] + c + a[1];
    let s3 = s2 + c + a[2];
    let s4 = s3 + c + a[3];
    let s5 = s4 + c + a[4];
    session_laws::lemma_spec_start(a[0], t[0]);
    session_laws::lemma_spec_part(s1, seq![t[0]], a[1], t[1]);
    assert(s1.push(':') + a[1] =~= s2);
    session_laws::lemma_spec_part(s2, seq![t[0]].push(t[1]), a[2], t[2]);
    assert(s2.push(':') + a[2] =~= s3);
    session_laws::lemma_spec_part(s3, seq![t[0]].push(t[1]).push(t[2]), a[3], t[3]);
    assert(s3.push(':') + a[3] =~= s4);
    session_laws::lemma_spec_part(
        s4,
        seq![t[0]].push(t[1]).push(t[2]).push(t[3]),
        a[4],
        t[4],
    );
    assert(s4.push(':') + a[4] =~= s5);
    text_laws::only_numbers_are_read(t[0], 0, 65535);
    text_laws::only_numbers_are_read(t[1], 0, 65535);
    text_laws::only_numbers_are_read(t[2], 0, 65535);
    text_laws::only_numbers_are_read(t[3], 0, 65535);
}

proof fn lemma_parts_go_on(a: Seq<char>, b: Seq<char>, t: Seq<char>)
    requires
        discover::fwd_parts(a) == discover::fwd_parts(b),
    ensures
        discover::fwd_parts(a + t) == discover::fwd_parts(b + t),
    decreases t.len(),
{
    if t.len() == 0 {
        assert(a + t =~= a);
        assert(b + t =~= b);
    } else {
        lemma_parts_go_on(a, b, t.drop_last());
        assert((a + t).drop_last() =~= a + t.drop_last());
        assert((b + t).drop_last() =~= b + t.drop_last());
        assert((a + t).last() == t.last() && (b + t).last() == t.last());
    }
}

proof fn lemma_not_inside(s: Seq<char>)
    requires
        !s.contains('['),
    ensures
        discover::fwd_parts(s).depth == 0,
    decreases s.len(),
{
    if s.len() > 0 {
        let front = s.drop_last();
        if front.contains('[') {
            let i = choose|i: int| 0 <= i < front.len() && front[i] == '[';
            assert(s[i] == '[');
        }
        assert(s[s.len() - 1] == s.last());
        lemma_not_inside(front);
    }
}

/// Brackets never stand in the parts of a forward spec: one at its end, and a closing one that closes
/// nothing, make no difference.
pub proof fn stray_brackets_are_dropped(s: Seq<char>, t: Seq<char>)
    ensures
        discover::l_spec(s.push('[')) == discover::l_spec(s),
        discover::l_spec(s.push(']')) == discover::l_spec(s),
        !s.contains('[') ==> discover::l_spec(s.push(']') + t) == discover::l_spec(s + t),
{
    assert(s.push('[').drop_last() =~= s);
    assert(s.push(']').drop_last() =~= s);
    if !s.contains('[') {
        lemma_not_inside(s);
        assert(discover::fwd_parts(s.push(']')) == discover::fwd_parts(s));
        lemma_parts_go_on(s.push(']'), s, t);
    }
}

/// A localforward line of `ssh -G` has two words: the port to listen on, and the host and its port.
/// What has not, or has no port where one should stand, is no forward.
pub proof fn localforward_lines_need_their_parts(
    v: Seq<char>,
    more: Seq<Seq<char>>,
    la: Seq<char>,
    l: Seq<char>,
    h: Seq<char>,
    name: Seq<char>,
    ra: Seq<char>,
    r: Seq<char>,
)
    requires
        session_laws::means(la, l),
        session_laws::means(h, name),
        session_laws::means(ra, r),
    ensures
        ({
            let c = seq![':'];
            let port = |s: Seq<char>| text::parse_uint(s, 10, 65535);
            let got = discover::g_localforward(v);
            &&& text::words(v).len() < 2 ==> got is None
            &&& text::words(v) == seq![la, h] + more ==> got is None
            &&& text::words(v) == seq![la, h + c + ra + c + ra] + more ==> got is None
            &&& text::words(v) == seq![la, h + c + ra] + more ==> {
                &&& got is Some <==> discover::loopback_host(name) && port(l) is Some
                    && port(r) is Some
                &&& got matches Some((lp, rp)) ==> port(l) == Some(lp as nat) && port(r) == Some(
                    rp as nat,
                )
            }
        }),
{
    let c = seq![':'];
    let w = text::words(v);
    session_laws::lemma_spec_start(la, l);
    session_laws::lemma_spec_start(h, name);
    session_laws::lemma_spec_part(h, seq![name], ra, r);
    let connect = h + c + ra;
    assert(h.push(':') + ra =~= connect);
    session_laws::lemma_spec_part(connect, seq![name].push(r), ra, r);
    assert(connect.push(':') + ra =~= h + c + ra + c + ra);
    assert(discover::fwd_parts(connect).parts =~= seq![name, r]);
    text_laws::only_numbers_are_read(l, 0, 65535);
    text_laws::only_numbers_are_read(r, 0, 65535);
    if w == seq![la, h] + more {
        assert(w[0] == la && w[1] == h);
    }
    if w == seq![la, connect] + more {
        assert(w[0] == la && w[1] == connect);
    }
    if w == seq![la, h + c + ra + c + ra] + more {
        assert(w[1] == h + c + ra + c + ra);
    }
}

/// The order of connections: by their destinations, and those to one destination by the first of
/// their options that differs, with fewer options before more.
pub proof fn connections_are_in_order(out: Seq<char>, i: int, j: int)
    requires
        0 <= i < j < discover::session_listing(out).len(),
    ensures
        ({
            let a = discover::session_listing(out)[i];
            let b = discover::session_listing(out)[j];
            &&& a.dest != b.dest ==> text::text_before(a.dest, b.dest)
            &&& a.dest == b.dest ==> exists|k: int|
                0 <= k <= a.extra.len() && k < b.extra.len() && #[trigger] a.extra.take(k)
                    == b.extra.take(k) && (k == a.extra.len() || (a.extra[k] != b.extra[k]
                    && text::text_before(a.extra[k], b.extra[k])))
        }),
{
    let ls = text::lines(out);
    let m = discover::sessions(ls);
    let keys = maps::ordered_keys::<ConnKey, discover::ConnModel>(m);
    laws::lemma_sessions(ls);
    maps::lemma_ordered_keys::<ConnKey, discover::ConnModel>(m);
    assert(keys.to_set().contains(keys[i]) && keys.to_set().contains(keys[j]));
    assert(<ConnKey as maps::MapKey>::before(keys[i], keys[j]));
    let a = discover::session_listing(out)[i];
    let b = discover::session_listing(out)[j];
    assert(a.key() == keys[i] && b.key() == keys[j]);
    if a.dest == b.dest {
        lemma_list_order(a.extra, b.extra);
    }
}

proof fn lemma_list_order(a: Seq<Seq<char>>, b: Seq<Seq<char>>)
    requires
        discover::list_before(a, b),
    ensures
        exists|k: int|
            0 <= k <= a.len() && k < b.len() && #[trigger] a.take(k) == b.take(k) && (k == a.len()
                || (a[k] != b[k] && text::text_before(a[k], b[k]))),
    decreases a.len(),
{
    if a.len() == 0 || a[0] != b[0] {
        assert(a.take(0) =~= b.take(0));
    } else {
        let x = a.drop_first();
        let y = b.drop_first();
        lemma_list_order(x, y);
        let k = choose|k: int|
            0 <= k <= x.len() && k < y.len() && #[trigger] x.take(k) == y.take(k) && (k == x.len() || (
            x[k] != y[k] && text::text_before(x[k], y[k])));
        assert forall|n: int| 0 <= n < k + 1 implies #[trigger] a[n] == b[n] by {
            if n > 0 {
                assert(x.take(k)[n - 1] == a[n]);
                assert(y.take(k)[n - 1] == b[n]);
            }
        }
        assert(a.take(k + 1) =~= b.take(k + 1));
    }
}

/// Where a line of `ss` or `netstat` is a listener, its address and port are those that its fourth
/// word shows; a line of the right form is a listener exactly where that word shows some.
pub proof fn listeners_stand_in_the_fourth_word(line: Seq<char>)
    ensures
        ({
            let w = text::words(line);
            let at = addr::addr_port(w[3]);
            &&& remote::ss_line(line) is Some <==> w.len() >= 5 && w[0] == "LISTEN"@ && at is Some
            &&& remote::ss_line(line) matches Some(m) ==> at == Some((m.addr, m.port))
            &&& remote::netstat_line(line) is Some <==> w.len() >= 6 && w[0].len() >= 3 && w[0].take(3)
                == "tcp"@ && w.contains("LISTEN"@) && at is Some
            &&& remote::netstat_line(line) matches Some(m) ==> at == Some((m.addr, m.port))
        }),
{
    reveal_strlit("tcp");
    let w = text::words(line);
    if w.len() >= 6 && w[0].len() >= 3 {
        assert(w[0].subrange(0, 3) =~= w[0].take(3));
    }
}

/// An address without a colon, or without a port number behind its last colon, is none.
pub proof fn addresses_need_a_port(a: Seq<char>, t: Seq<char>)
    requires
        !t.contains(':'),
    ensures
        addr::addr_port(t) is None,
        addr::addr_port(a + ":"@ + t) is Some <==> text::parse_uint(t, 10, 65535) is Some,
        addr::addr_port(a + ":"@ + t) matches Some((_, p)) ==> text::parse_uint(t, 10, 65535) == Some(
            p as nat,
        ),
        addr::kernel_addr_port(t) is None,
{
    reveal_strlit(":");
    text_laws::splits_are_at_the_character(t, ':', a);
    text_laws::splits_are_at_the_character(a, ':', t);
    assert(a.push(':') + t =~= a + ":"@ + t);
    text_laws::only_numbers_are_read(t, 0, 65535);
}

/// An address of the kernel has eight or thirty-two digits, and its port is a hexadecimal number of
/// sixteen bits; anything else is none.
pub proof fn kernel_addresses_need_their_form(h: Seq<char>, p: Seq<char>, i: int)
    requires
        !h.contains(':'),
    ensures
        ({
            let got = addr::kernel_addr_port(h + ":"@ + p);
            &&& h.len() != 8 && h.len() != 32 ==> got is None
            &&& text::parse_uint(p, 16, 65535) is None ==> got is None
            &&& h.len() == 8 && text::parse_uint(h, 16, 0xffff_ffff) is None ==> got is None
            &&& h.len() == 32 && 0 <= i < 4 && text::parse_uint(
                h.subrange(8 * i, 8 * i + 8),
                16,
                0xffff_ffff,
            ) is None ==> got is None
        }),
{
    reveal_strlit(":");
    text_laws::splits_are_at_the_character(h, ':', p);
    assert(h.push(':') + p =~= h + ":"@ + p);
    assert(text::split_once(h + ":"@ + p, ':') == Some((h, p)));
    if 0 <= i < 4 {
        lemma_no_kernel_addr(h, i);
    } else {
        lemma_no_kernel_addr(h, 0);
    }
}

proof fn lemma_no_kernel_addr(h: Seq<char>, i: int)
    requires
        0 <= i < 4,
    ensures
        h.len() != 8 && h.len() != 32 ==> addr::kernel_addr(h) is None,
        h.len() == 8 && text::parse_uint(h, 16, 0xffff_ffff) is None ==> addr::kernel_addr(h) is None,
        h.len() == 32 && text::parse_uint(h.subrange(8 * i, 8 * i + 8), 16, 0xffff_ffff) is None
            ==> addr::kernel_addr(h) is None,
{
    assert(addr::hex_word(h, i) == text::parse_uint(
        h.subrange(8 * i, 8 * i + 8),
        16,
        0xffff_ffff,
    ));
}

/// A process that `netstat` names without a number before the slash is not known.
pub proof fn processes_need_a_number(w: Seq<Seq<char>>, k: int, p: Seq<char>, name: Seq<char>)
    requires
        0 <= k < w.len(),
        forall|j: int| 0 <= j < k ==> !(#[trigger] w[j]).contains('/'),
        !p.contains('/'),
        w[k] == p + "/"@ + name,
        text::parse_uint(p, 10, 0xffff_ffff) is None,
    ensures
        remote::netstat_process(w) == (None::<Seq<char>>, None::<u32>),
{
    reveal_strlit("/");
    text_laws::splits_are_at_the_character(p, '/', name);
    assert(p.push('/') + name =~= w[k]);
    assert(w[k][p.len() as int] == '/');
    lemma_first_with(w, k);
}

proof fn lemma_first_with(w: Seq<Seq<char>>, k: int)
    requires
        0 <= k < w.len(),
        forall|j: int| 0 <= j < k ==> !(#[trigger] w[j]).contains('/'),
        w[k].contains('/'),
    ensures
        remote::first_with(w, '/') == Some(w[k]),
    decreases w.len(),
{
    let fewer = w.drop_last();
    if k < fewer.len() {
        assert(fewer[k] == w[k]);
        assert forall|j: int| 0 <= j < k implies !(#[trigger] fewer[j]).contains('/') by {
            assert(fewer[j] == w[j]);
        }
        lemma_first_with(fewer, k);
    } else {
        lemma_no_first(fewer);
    }
}

proof fn lemma_no_first(w: Seq<Seq<char>>)
    requires
        forall|j: int| 0 <= j < w.len() ==> !(#[trigger] w[j]).contains('/'),
    ensures
        remote::first_with(w, '/') is None,
    decreases w.len(),
{
    if w.len() > 0 {
        let fewer = w.drop_last();
        assert forall|j: int| 0 <= j < fewer.len() implies !(#[trigger] fewer[j]).contains('/') by {
            assert(fewer[j] == w[j]);
        }
        assert(!w[w.len() - 1].contains('/'));
        lemma_no_first(fewer);
    }
}

/// A process that `ss` names without a number has a name and no number.
pub proof fn ss_processes_may_have_no_number(before: Seq<char>, name: Seq<char>, rest: Seq<char>)
    requires
        forall|k: int|
            0 <= k < before.len() ==> #[trigger] (before + "((\""@).subrange(k, k + 3) != "((\""@,
        !name.contains('"'),
        !text::contains_text(name.push('"') + rest, "pid="@),
    ensures
        remote::ss_process(before + "((\""@ + name + seq!['"'] + rest) == (Some(name), None::<u32>),
{
    reveal_strlit("((\"");
    let pat = "((\""@;
    let tail = name.push('"') + rest;
    let s = before + pat + name + seq!['"'] + rest;
    assert(s =~= before + pat + tail);
    scan_laws::lemma_quote_found(before, tail);
    assert(s.skip((before.len() + 3) as int) =~= tail);
    text_laws::splits_are_at_the_character(name, '"', rest);
}

/// A line about an inode begins with two numbers, that of the inode and that of the process, with one
/// blank between them.
#[verifier::spinoff_prover]
pub proof fn inode_lines_need_two_numbers(a: Seq<char>, b: Seq<char>, c: Seq<char>)
    requires
        !a.contains(' '),
        !b.contains(' '),
    ensures
        ({
            let known = text::parse_uint(a, 10, 0xffff_ffff_ffff_ffff) is Some && text::parse_uint(
                b,
                10,
                0xffff_ffff,
            ) is Some;
            &&& remote::map_line(a) is None
            &&& remote::map_line(a + " "@ + b) is Some <==> known
            &&& remote::map_line(a + " "@ + b + " "@ + c) is Some <==> known
        }),
{
    reveal_strlit(" ");
    let rest = b.push(' ') + c;
    assert(a.push(' ') + b =~= a + " "@ + b);
    assert(a.push(' ') + rest =~= a + " "@ + b + " "@ + c);
    assert(text::split_once(a, ' ') is None && text::split_once(a.push(' ') + b, ' ') == Some((a, b)))
        by {
        text_laws::splits_are_at_the_character(a, ' ', b);
    }
    assert(text::split_once(a.push(' ') + rest, ' ') == Some((a, rest))) by {
        text_laws::splits_are_at_the_character(a, ' ', rest);
    }
    assert(text::split_once(b, ' ') is None && text::split_once(rest, ' ') == Some((b, c))) by {
        text_laws::splits_are_at_the_character(b, ' ', c);
    }
}

#[verifier::rlimit(40)]
#[verifier::spinoff_prover]
proof fn lemma_formless(ls: Seq<Seq<char>>)
    requires
        forall|i: int|
            0 <= i < ls.len() ==> !text::starts_with(text::trim(#[trigger] ls[i]), "@@FMT "@),
    ensures
        ({
            let s = remote::ScanModel::start().read_all(ls);
            &&& s.fmt.len() == 0
            &&& s.listeners.len() == 0
            &&& s.rows.len() == 0
        }),
    decreases ls.len(),
{
    reveal_strlit("ss");
    reveal_strlit("netstat");
    reveal_strlit("proc");
    if ls.len() > 0 {
        let fewer = ls.drop_last();
        assert forall|i: int| 0 <= i < fewer.len() implies !text::starts_with(
            text::trim(#[trigger] fewer[i]),
            "@@FMT "@,
        ) by {
            assert(fewer[i] == ls[i]);
        }
        lemma_formless(fewer);
        assert(ls[ls.len() - 1] == ls.last());
    }
}

/// Without a line that says how the listeners are listed, a scan has found nothing.
pub proof fn lists_of_no_known_form_are_empty(out: Seq<char>)
    requires
        forall|i: int|
            0 <= i < text::lines(out).len() ==> !text::starts_with(
                text::trim(#[trigger] text::lines(out)[i]),
                "@@FMT "@,
            ),
    ensures
        remote::scan_listing(out).len() == 0,
{
    lemma_formless(text::lines(out));
    let found = remote::ScanModel::start().read_all(text::lines(out)).found();
    assert(found.len() == 0);
    laws::listings_have_each_port_once(found);
    if remote::listing(found).len() > 0 {
        let e = remote::listing(found)[0];
        assert(exists|i: int| 0 <= i < found.len() && (#[trigger] found[i]).port == e.port);
    }
}

} // verus!
