//! Who holds a local port.
use vstd::prelude::*;
use crate::laws;
use crate::ports;
use crate::scan_laws;
use crate::session_laws;
use crate::text;
use crate::text_laws;

verus! {

/// A line is about a listener on a port where it says LISTEN and one of its first five words ends in a
/// colon and the port.
pub proof fn listeners_on_a_port_are_recognised(line: Seq<char>, port: u16, i: int, a: Seq<char>)
    ensures
        text::contains_text(line, "LISTEN"@) && 0 <= i < text::words(line).len() && i < 5
            && text::words(line)[i] == a + ":"@ + text::decimal(port as nat) ==> ports::listens_on(
            line,
            port,
        ),
        !text::contains_text(line, "LISTEN"@) ==> !ports::listens_on(line, port),
        (forall|k: int|
            0 <= k < text::words(line).len() && k < 5 ==> !text::ends_with(
                #[trigger] text::words(line)[k],
                ":"@ + text::decimal(port as nat),
            )) ==> !ports::listens_on(line, port),
{
    reveal_strlit(":");
    let w = text::words(line);
    let n = if w.len() < 5 {
        w.len() as int
    } else {
        5
    };
    let head = w.take(n);
    let pat = ":"@ + text::decimal(port as nat);
    if 0 <= i < w.len() && i < 5 && w[i] == a + ":"@ + text::decimal(port as nat) {
        assert(w[i] =~= a + pat);
        let k = w[i].len() - pat.len();
        assert(w[i].subrange(k, k + pat.len()) =~= pat);
        assert(head[i] == w[i]);
        assert(text::ends_with(head[i], pat));
    }
    if ports::some_ends_with(head, pat) {
        let k = choose|k: int| 0 <= k < head.len() && text::ends_with(#[trigger] head[k], pat);
        assert(head[k] == w[k]);
    }
}

/// The holder of a port is named as `ss` names it, `(("name"`, or as `netstat` does, `number/name`;
/// where neither does, it is said that the port is in use.
pub proof fn holders_are_named(before: Seq<char>, name: Seq<char>, rest: Seq<char>)
    requires
        forall|k: int|
            0 <= k < before.len() ==> #[trigger] (before + "((\""@).subrange(k, k + 3) != "((\""@,
        !name.contains('"'),
    ensures
        ports::line_user(before + "((\""@ + name + "\""@ + rest) == "used by \""@ + name + "\""@,
{
    reveal_strlit("((\"");
    reveal_strlit("\"");
    let pat = "((\""@;
    let tail = name.push('"') + rest;
    let s = before + pat + name + "\""@ + rest;
    assert(s =~= before + pat + tail);
    scan_laws::lemma_quote_found(before, tail);
    assert(s.skip((before.len() + 3) as int) =~= tail);
    text_laws::splits_are_at_the_character(name, '"', rest);
}

/// A word that does not begin with a number and a slash.
pub open spec fn numberless(w: Seq<char>) -> bool {
    !w.contains('/') || exists|p: Seq<char>, x: Seq<char>|
        !p.contains('/') && w == #[trigger] (p + "/"@ + x) && text::parse_uint(p, 10, 0xffff_ffff) is None
}

proof fn lemma_numberless(w: Seq<char>)
    requires
        numberless(w),
    ensures
        ports::numbered_name(w) is None,
{
    reveal_strlit("/");
    if w.contains('/') {
        let (p, x) = choose|p: Seq<char>, x: Seq<char>|
            !p.contains('/') && w == #[trigger] (p + "/"@ + x) && text::parse_uint(
                p,
                10,
                0xffff_ffff,
            ) is None;
        assert(w =~= p.push('/') + x);
        text_laws::splits_are_at_the_character(p, '/', x);
    } else {
        text_laws::splits_are_at_the_character(w, '/', w);
    }
}

proof fn lemma_first_numbered(w: Seq<Seq<char>>, k: int, pid: u32, name: Seq<char>)
    requires
        0 <= k < w.len(),
        forall|j: int| 0 <= j < k ==> numberless(#[trigger] w[j]),
        w[k] == text::decimal(pid as nat) + "/"@ + name,
    ensures
        ports::first_numbered(w) == Some(name),
    decreases w.len(),
{
    if k == 0 {
        reveal_strlit("/");
        let d = text::decimal(pid as nat);
        session_laws::lemma_decimal_solid(pid as nat);
        assert(w[0] =~= d.push('/') + name);
        text_laws::splits_are_at_the_character(d, '/', name);
        laws::decimal_reads_back(pid as nat, 0xffff_ffff);
    } else {
        let rest = w.drop_first();
        assert(rest[k - 1] == w[k]);
        assert forall|j: int| 0 <= j < k - 1 implies numberless(#[trigger] rest[j]) by {
            assert(rest[j] == w[j + 1]);
        }
        lemma_numberless(w[0]);
        lemma_first_numbered(rest, k - 1, pid, name);
    }
}

/// The same as `netstat` names it.
pub proof fn holders_are_named_by_number(line: Seq<char>, k: int, pid: u32, name: Seq<char>)
    requires
        !text::contains_text(line, "((\""@),
        0 <= k < text::words(line).len(),
        forall|j: int| 0 <= j < k ==> numberless(#[trigger] text::words(line)[j]),
        text::words(line)[k] == text::decimal(pid as nat) + "/"@ + name,
    ensures
        ports::line_user(line) == "used by \""@ + name + "\""@,
{
    lemma_first_numbered(text::words(line), k, pid, name);
}

proof fn lemma_none_numbered(w: Seq<Seq<char>>)
    requires
        forall|j: int| 0 <= j < w.len() ==> numberless(#[trigger] w[j]),
    ensures
        ports::first_numbered(w) is None,
    decreases w.len(),
{
    if w.len() > 0 {
        let rest = w.drop_first();
        assert forall|j: int| 0 <= j < rest.len() implies numberless(#[trigger] rest[j]) by {
            assert(rest[j] == w[j + 1]);
        }
        lemma_numberless(w[0]);
        lemma_none_numbered(rest);
    }
}

/// And where no name is given.
pub proof fn holders_may_be_unknown(line: Seq<char>)
    requires
        !text::contains_text(line, "((\""@),
        forall|j: int|
            0 <= j < text::words(line).len() ==> numberless(#[trigger] text::words(line)[j]),
    ensures
        ports::line_user(line) == "already in use by another process"@,
{
    lemma_none_numbered(text::words(line));
}

/// The first line about a listener on the port tells who holds it, in the first listing that has one;
/// where none has, it is said that the port is in use.
pub proof fn the_first_listener_tells(
    ls: Seq<Seq<char>>,
    port: u16,
    i: int,
    listings: Seq<Seq<char>>,
    j: int,
)
    requires
        0 <= i <= ls.len(),
        forall|k: int| 0 <= k < i ==> !ports::listens_on(#[trigger] ls[k], port),
        0 <= j <= listings.len(),
        forall|k: int|
            0 <= k < j ==> ports::lines_user(text::lines(#[trigger] listings[k]), port) is None,
    ensures
        i < ls.len() && ports::listens_on(ls[i], port) ==> ports::lines_user(ls, port) == Some(
            ports::line_user(ls[i]),
        ),
        i == ls.len() ==> ports::lines_user(ls, port) is None,
        j < listings.len() ==> (ports::lines_user(text::lines(listings[j]), port) matches Some(u)
            ==> ports::port_user(listings, port) == u),
        j == listings.len() ==> ports::port_user(listings, port)
            == "already in use by another process"@,
{
    lemma_first_line(ls, port, i);
    lemma_first_listing(listings, port, j);
}

proof fn lemma_first_line(ls: Seq<Seq<char>>, port: u16, i: int)
    requires
        0 <= i <= ls.len(),
        forall|k: int| 0 <= k < i ==> !ports::listens_on(#[trigger] ls[k], port),
    ensures
        i < ls.len() && ports::listens_on(ls[i], port) ==> ports::lines_user(ls, port) == Some(
            ports::line_user(ls[i]),
        ),
        i == ls.len() ==> ports::lines_user(ls, port) is None,
    decreases ls.len(),
{
    if ls.len() > 0 && i > 0 {
        let rest = ls.drop_first();
        assert forall|k: int| 0 <= k < i - 1 implies !ports::listens_on(#[trigger] rest[k], port) by {
            assert(rest[k] == ls[k + 1]);
        }
        assert(!ports::listens_on(ls[0], port));
        if i < ls.len() {
            assert(rest[i - 1] == ls[i]);
        }
        lemma_first_line(rest, port, i - 1);
    }
}

proof fn lemma_first_listing(listings: Seq<Seq<char>>, port: u16, j: int)
    requires
        0 <= j <= listings.len(),
        forall|k: int|
            0 <= k < j ==> ports::lines_user(text::lines(#[trigger] listings[k]), port) is None,
    ensures
        j < listings.len() ==> (ports::lines_user(text::lines(listings[j]), port) matches Some(u)
            ==> ports::port_user(listings, port) == u),
        j == listings.len() ==> ports::port_user(listings, port)
            == "already in use by another process"@,
    decreases listings.len(),
{
    if listings.len() > 0 && j > 0 {
        let rest = listings.drop_first();
        assert forall|k: int| 0 <= k < j - 1 implies ports::lines_user(
            text::lines(#[trigger] rest[k]),
            port,
        ) is None by {
            assert(rest[k] == listings[k + 1]);
        }
        assert(ports::lines_user(text::lines(listings[0]), port) is None);
        if j < listings.len() {
            assert(rest[j - 1] == listings[j]);
        }
        lemma_first_listing(rest, port, j - 1);
    }
}

} // verus!
