//! Allocation of local ports, and who holds one.
use vstd::prelude::*;
use crate::maps;
use crate::text;
use crate::util;
use crate::util::{Invocation, Output};

verus! {

/// A port that may be picked automatically: not privileged, and not claimed by a forward.
pub open spec fn allowed(p: u16, taken: Set<u16>) -> bool {
    p >= 1024 && !taken.contains(p)
}

/// The preferred ports that are worth probing, in order of preference.
pub open spec fn candidates(preferred: Seq<u16>, taken: Set<u16>) -> Seq<u16>
    decreases preferred.len(),
{
    if preferred.len() == 0 {
        Seq::empty()
    } else {
        let before = candidates(preferred.drop_last(), taken);
        if allowed(preferred.last(), taken) {
            before.push(preferred.last())
        } else {
            before
        }
    }
}

/// The first preferred port that is allowed and free, or else the ephemeral one.
pub open spec fn picked(
    preferred: Seq<u16>,
    taken: Set<u16>,
    free: Seq<u16>,
    ephemeral: Option<u16>,
) -> Option<u16>
    decreases preferred.len(),
{
    if preferred.len() == 0 {
        ephemeral
    } else if allowed(preferred[0], taken) && free.contains(preferred[0]) {
        Some(preferred[0])
    } else {
        picked(preferred.drop_first(), taken, free, ephemeral)
    }
}

/// Whether a list holds a port.
pub fn has_port(v: &[u16], p: u16) -> (r: bool)
    ensures
        r == v@.contains(p),
{
    for i in 0..v.len()
        invariant
            forall|j: int| 0 <= j < i ==> v@[j] != p,
    {
        if v[i] == p {
            return true;
        }
    }
    false
}

/// The preferred ports that are worth probing; `taken` are the ports already claimed by pending or
/// active forwards.
pub fn probe_list(preferred: &[u16], taken: &[u16]) -> (r: Vec<u16>)
    ensures
        r@ == candidates(preferred@, taken@.to_set()),
{
    let mut out: Vec<u16> = Vec::new();
    assert(preferred@.take(0) =~= Seq::<u16>::empty());
    for i in 0..preferred.len()
        invariant
            out@ == candidates(preferred@.take(i as int), taken@.to_set()),
    {
        assert(preferred@.take(i + 1).drop_last() =~= preferred@.take(i as int));
        let p: u16 = preferred[i];
        if p >= 1024 && !has_port(taken, p) {
            out.push(p);
        }
    }
    assert(preferred@.take(preferred@.len() as int) =~= preferred@);
    out
}

/// Picks a local port: the first entry of `preferred` that is in `free` (privileged ports are never
/// picked automatically), otherwise the ephemeral port that the kernel handed out. `taken` are the
/// ports already claimed by pending or active forwards.
pub fn find_free(preferred: &[u16], taken: &[u16], free: &[u16], ephemeral: Option<u16>) -> (r:
    Option<u16>)
    ensures
        r == picked(preferred@, taken@.to_set(), free@, ephemeral),
{
    assert(preferred@.skip(0) =~= preferred@);
    for i in 0..preferred.len()
        invariant
            picked(preferred@, taken@.to_set(), free@, ephemeral) == picked(
                preferred@.skip(i as int),
                taken@.to_set(),
                free@,
                ephemeral,
            ),
    {
        let p: u16 = preferred[i];
        assert(preferred@.skip(i as int)[0] == p);
        assert(preferred@.skip(i as int).drop_first() =~= preferred@.skip(i + 1));
        if p >= 1024 && !has_port(taken, p) && has_port(free, p) {
            return Some(p);
        }
    }
    ephemeral
}

/// One of the texts ends with `pat`.
pub open spec fn some_ends_with(w: Seq<Seq<char>>, pat: Seq<char>) -> bool {
    exists|i: int| 0 <= i < w.len() && text::ends_with(#[trigger] w[i], pat)
}

/// A line of `ss` or `netstat` for a listener on `port`: one of its first five columns ends with
/// the port.
pub open spec fn listens_on(line: Seq<char>, port: u16) -> bool {
    let w = text::words(line);
    text::contains_text(line, "LISTEN"@) && some_ends_with(
        w.take(if w.len() < 5 {
            w.len() as int
        } else {
            5
        }),
        ":"@ + text::decimal(port as nat),
    )
}

/// The program name in a word `1234/name`.
pub open spec fn numbered_name(f: Seq<char>) -> Option<Seq<char>> {
    match text::split_once(f, '/') {
        None => None,
        Some((p, name)) => match text::parse_uint(p, 10, 0xffff_ffff) {
            None => None,
            Some(_) => Some(name),
        },
    }
}

/// The first program name in words `1234/name`.
pub open spec fn first_numbered(w: Seq<Seq<char>>) -> Option<Seq<char>>
    decreases w.len(),
{
    if w.len() == 0 {
        None
    } else if numbered_name(w[0]) is Some {
        numbered_name(w[0])
    } else {
        first_numbered(w.drop_first())
    }
}

/// The words for a holder of a port.
pub open spec fn used_by(name: Seq<char>) -> Seq<char> {
    "used by \""@ + name + "\""@
}

/// The words for a port whose holder is not known.
pub open spec fn used_by_unknown() -> Seq<char> {
    "already in use by another process"@
}

/// Who holds the port, as a line of `ss` or `netstat` tells.
pub open spec fn line_user(line: Seq<char>) -> Seq<char> {
    match text::find_text(line, "((\""@) {
        Some(i) => used_by(text::until(line.skip(i + 3), '"')),
        None => match first_numbered(text::words(line)) {
            Some(name) => used_by(name),
            None => used_by_unknown(),
        },
    }
}

/// Who holds the port, as the first line for a listener on it tells.
pub open spec fn lines_user(ls: Seq<Seq<char>>, port: u16) -> Option<Seq<char>>
    decreases ls.len(),
{
    if ls.len() == 0 {
        None
    } else if listens_on(ls[0], port) {
        Some(line_user(ls[0]))
    } else {
        lines_user(ls.drop_first(), port)
    }
}

/// Who holds the port, as the first of the listings that has a listener on it tells.
pub open spec fn port_user(listings: Seq<Seq<char>>, port: u16) -> Seq<char>
    decreases listings.len(),
{
    if listings.len() == 0 {
        used_by_unknown()
    } else {
        match lines_user(text::lines(listings[0]), port) {
            Some(u) => u,
            None => port_user(listings.drop_first(), port),
        }
    }
}

fn used_by_of(name: &[char]) -> (r: String)
    ensures
        r@ == used_by(name@),
{
    let mut s = "used by \"".to_owned();
    s.append(text::text_of(name).as_str());
    s.append("\"");
    s
}

fn listens_on_of(line: &[char], port: u16) -> (r: bool)
    ensures
        r == listens_on(line@, port),
{
    if !text::has_text(line, "LISTEN") {
        return false;
    }
    let mut needle = ":".to_owned();
    needle.append(text::decimal_of(port as u64).as_str());
    let w = text::words_of(line);
    let ghost ws = text::words(line@);
    assert(text::texts(w@) == ws);
    let n: usize = if w.len() < 5 {
        w.len()
    } else {
        5
    };
    let ghost head = ws.take(n as int);
    for i in 0..n
        invariant
            n <= w@.len(),
            text::texts(w@) == ws,
            ws == text::words(line@),
            n == (if ws.len() < 5 {
                ws.len() as int
            } else {
                5
            }),
            head == ws.take(n as int),
            needle@ == ":"@ + text::decimal(port as nat),
            text::contains_text(line@, "LISTEN"@),
            forall|j: int| 0 <= j < i ==> !text::ends_with(#[trigger] head[j], needle@),
    {
        assert(head[i as int] == w@[i as int]@);
        if text::ends(w[i].as_slice(), needle.as_str()) {
            return true;
        }
    }
    false
}

fn numbered_name_of(f: &[char]) -> (r: Option<&[char]>)
    ensures
        r is Some <==> numbered_name(f@) is Some,
        r matches Some(n) ==> numbered_name(f@) == Some(n@),
{
    match text::split_once_of(f, '/') {
        None => None,
        Some((p, name)) => if text::uint_of(p, 10, 0xffff_ffff).is_some() {
            Some(name)
        } else {
            None
        },
    }
}

fn line_user_of(line: &[char]) -> (r: String)
    ensures
        r@ == line_user(line@),
{
    proof {
        reveal_strlit("((\"");
    }
    match text::find_of(line, "((\"") {
        Some(i) => {
            assert(i + 3 <= line.len());
            used_by_of(text::until_of(text::back(line, i + 3), '"'))
        },
        None => {
            let w = text::words_of(line);
            let ghost ws = text::words(line@);
            assert(text::texts(w@) == ws);
            assert(ws.skip(0) =~= ws);
            for i in 0..w.len()
                invariant
                    text::texts(w@) == ws,
                    ws == text::words(line@),
                    text::find_text(line@, "((\""@) is None,
                    first_numbered(ws) == first_numbered(ws.skip(i as int)),
            {
                assert(ws.skip(i as int)[0] == w@[i as int]@);
                assert(ws.skip(i as int).drop_first() =~= ws.skip(i + 1));
                match numbered_name_of(w[i].as_slice()) {
                    Some(name) => {
                        return used_by_of(name);
                    },
                    None => {},
                }
            }
            "already in use by another process".to_owned()
        },
    }
}

/// Who holds the port, as one listing of `ss -tlnp` or `netstat -tlnp` tells.
pub fn listed_user(listing: &str, port: u16) -> (r: Option<String>)
    ensures
        r is Some <==> lines_user(text::lines(listing@), port) is Some,
        r matches Some(u) ==> lines_user(text::lines(listing@), port) == Some(u@),
{
    let cs = text::chars_of(listing);
    let ls = text::lines_of(cs.as_slice());
    let ghost lines = text::lines(listing@);
    assert(text::texts(ls@) == lines);
    assert(lines.skip(0) =~= lines);
    for i in 0..ls.len()
        invariant
            text::texts(ls@) == lines,
            lines == text::lines(listing@),
            lines_user(lines, port) == lines_user(lines.skip(i as int), port),
    {
        assert(lines.skip(i as int)[0] == ls@[i as int]@);
        assert(lines.skip(i as int).drop_first() =~= lines.skip(i + 1));
        if listens_on_of(ls[i].as_slice(), port) {
            return Some(line_user_of(ls[i].as_slice()));
        }
    }
    None
}

/// The commands that list the listeners of the local machine, in the order in which they are tried.
pub open spec fn listing_invocations() -> Seq<util::InvocationModel> {
    seq![
        util::InvocationModel {
            program: "ss"@,
            args: seq!["-tlnp"@],
            stdin: None,
            timeout_secs: 3,
        },
        util::InvocationModel {
            program: "netstat"@,
            args: seq!["-tlnp"@],
            stdin: None,
            timeout_secs: 3,
        },
    ]
}

fn listing_command(program: &str) -> (r: Invocation)
    ensures
        r@ == (util::InvocationModel {
            program: program@,
            args: seq!["-tlnp"@],
            stdin: None,
            timeout_secs: 3,
        }),
{
    let args: Vec<String> = vec!["-tlnp".to_owned()];
    assert(text::string_texts(args@) =~= seq!["-tlnp"@]);
    Invocation { program: program.to_owned(), args, stdin: None, timeout_secs: 3 }
}

/// The commands that list the listeners of the local machine, in the order in which they are tried.
pub fn listing_commands() -> (r: Vec<Invocation>)
    ensures
        maps::views(r@) == listing_invocations(),
{
    let r: Vec<Invocation> = vec![listing_command("ss"), listing_command("netstat")];
    assert(maps::views(r@) =~= listing_invocations());
    r
}

/// What the commands that ran have printed.
pub open spec fn listings(ran: Seq<Result<Output, String>>) -> Seq<Seq<char>>
    decreases ran.len(),
{
    if ran.len() == 0 {
        Seq::empty()
    } else {
        match ran[0] {
            Ok(out) => seq![util::lossy(out.stdout@)] + listings(ran.drop_first()),
            Err(_) => listings(ran.drop_first()),
        }
    }
}

/// Best effort, for error messages: who is listening on this local port? `ran` says how the
/// commands ran that list the listeners.
pub fn who_uses(ran: &Vec<Result<Output, String>>, port: u16) -> (r: String)
    ensures
        r@ == port_user(listings(ran@), port),
{
    let ghost all = ran@;
    assert(all.skip(0) =~= all);
    for i in 0..ran.len()
        invariant
            all == ran@,
            port_user(listings(all), port) == port_user(listings(all.skip(i as int)), port),
    {
        let ghost rest = all.skip(i as int);
        assert(rest[0] == all[i as int]);
        assert(rest.drop_first() =~= all.skip(i + 1));
        match &ran[i] {
            Ok(out) => {
                let listing = util::lossy_text(out.stdout.as_slice());
                proof {
                    let ls = listings(rest);
                    assert(ls[0] == listing@);
                    assert(ls.drop_first() =~= listings(all.skip(i + 1)));
                }
                match listed_user(listing.as_str(), port) {
                    Some(u) => {
                        return u;
                    },
                    None => {},
                }
            },
            Err(_) => {},
        }
    }
    "already in use by another process".to_owned()
}

} // verus!
