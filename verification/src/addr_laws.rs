//! What addresses are shown as, whatever they are.
use vstd::prelude::*;
use crate::addr;
use crate::control;
use crate::laws;
use crate::scan_laws;
use crate::session_laws;
use crate::text;
use crate::text_laws;

verus! {

proof fn lemma_no_leading_zero(n: nat)
    requires
        n > 0,
    ensures
        text::decimal(n)[0] != '0',
    decreases n,
{
    if n >= 10 {
        lemma_no_leading_zero(n / 10);
        laws::lemma_decimal(n / 10);
        assert(text::decimal(n)[0] == text::decimal(n / 10)[0]);
    }
}

proof fn lemma_octet(n: u8)
    ensures
        addr::octet(text::decimal(n as nat)) == Some(n),
{
    let d = text::decimal(n as nat);
    laws::lemma_decimal(n as nat);
    reveal_with_fuel(text::decimal, 4);
    assert(1 <= d.len() <= 3);
    assert forall|i: int| 0 <= i < d.len() implies text::digit_value(#[trigger] d[i]) < 10 by {
        assert('0' <= d[i] <= '9');
    }
    if d.len() > 1 {
        assert(n >= 10);
        lemma_no_leading_zero(n as nat);
    }
}

proof fn lemma_dotted(a: u8, b: u8, c: u8, d: u8)
    ensures
        addr::ipv4(scan_laws::dotted(a, b, c, d)) == Some(seq![a, b, c, d]),
{
    reveal_strlit(".");
    let (w, x, y, z) = (
        text::decimal(a as nat),
        text::decimal(b as nat),
        text::decimal(c as nat),
        text::decimal(d as nat),
    );
    session_laws::lemma_decimal_solid(a as nat);
    session_laws::lemma_decimal_solid(b as nat);
    session_laws::lemma_decimal_solid(c as nat);
    session_laws::lemma_decimal_solid(d as nat);
    lemma_octet(a);
    lemma_octet(b);
    lemma_octet(c);
    lemma_octet(d);
    let r2 = y.push('.') + z;
    let r1 = x.push('.') + r2;
    let s = w.push('.') + r1;
    assert(scan_laws::dotted(a, b, c, d) =~= s);
    text_laws::pieces_stand_between_separators(w, '.', r1);
    text_laws::pieces_stand_between_separators(x, '.', r2);
    text_laws::pieces_stand_between_separators(y, '.', z);
    text_laws::pieces_stand_between_separators(z, '.', z);
    let p = text::split_on(s, '.');
    assert(p =~= seq![w, x, y, z]);
    assert(p[0] == w && p[1] == x && p[2] == y && p[3] == z);
    assert(Seq::new(4, |i: int| addr::octet(p[i])->0) =~= seq![a, b, c, d]);
}

pub(crate) proof fn lemma_unbracketed(s: Seq<char>)
    requires
        s.len() > 0,
        s[0] != '[' && s[0] != ']',
        s.last() != '[' && s.last() != ']',
    ensures
        text::strip_ends(s, '[', ']') == s,
{
}

proof fn lemma_bracketed(s: Seq<char>)
    requires
        s.len() > 0,
        s[0] != '[' && s[0] != ']',
        s.last() != '[' && s.last() != ']',
    ensures
        text::strip_ends(seq!['['] + s + seq![']'], '[', ']') == s,
{
    let q = seq!['['] + s + seq![']'];
    let t = s.push(']');
    assert(q.drop_first() =~= t);
    assert(t[0] == s[0]);
    assert(text::strip_front(t, '[', ']') == t);
    assert(text::strip_front(q, '[', ']') == t);
    assert(t.drop_last() =~= s);
    assert(text::strip_back(s, '[', ']') == s);
    assert(text::strip_back(t, '[', ']') == s);
}

pub(crate) proof fn lemma_addr_port(a: Seq<char>, p: u16)
    ensures
        addr::addr_port(a + ":"@ + text::decimal(p as nat)) == Some(
            (addr::addr_name(text::strip_ends(a, '[', ']')), p),
        ),
{
    reveal_strlit(":");
    let d = text::decimal(p as nat);
    session_laws::lemma_decimal_solid(p as nat);
    assert(a + ":"@ + d =~= a.push(':') + d);
    text_laws::splits_are_at_the_character(a, ':', d);
    laws::decimal_reads_back(p as nat, 0xffff);
}

/// A listener on an IPv4 address is shown as on loopback where the address begins with 127, as on all
/// addresses where it is zero, and else by the address itself.
pub proof fn ipv4_listeners_are_shown(a: u8, b: u8, c: u8, d: u8, p: u16)
    ensures
        addr::addr_port(scan_laws::dotted(a, b, c, d) + ":"@ + text::decimal(p as nat)) == Some(
            (
                if a == 127 {
                    "lo"@
                } else if a == 0 && b == 0 && c == 0 && d == 0 {
                    "*"@
                } else {
                    scan_laws::dotted(a, b, c, d)
                },
                p,
            ),
        ),
{
    reveal_strlit(".");
    reveal_strlit("");
    reveal_strlit("*");
    reveal_strlit("::");
    reveal_strlit("::1");
    let s = scan_laws::dotted(a, b, c, d);
    laws::lemma_decimal(a as nat);
    laws::lemma_decimal(b as nat);
    laws::lemma_decimal(c as nat);
    laws::lemma_decimal(d as nat);
    let w = text::decimal(a as nat);
    let z = text::decimal(d as nat);
    assert(s.len() >= 7);
    assert(s[0] == w[0] && '0' <= w[0] <= '9');
    assert(s.last() == z[z.len() - 1] && '0' <= z[z.len() - 1] <= '9');
    lemma_unbracketed(s);
    lemma_addr_port(s, p);
    lemma_dotted(a, b, c, d);
    if s == "0.0.0.0"@ {
        lemma_zeros();
        assert(seq![a, b, c, d] == seq![0u8, 0u8, 0u8, 0u8]);
        assert(seq![a, b, c, d][0] == 0 && seq![a, b, c, d][1] == 0 && seq![a, b, c, d][2] == 0
            && seq![a, b, c, d][3] == 0);
    }
    if s == "127.0.0.1"@ {
        lemma_loopback();
        assert(seq![a, b, c, d] == seq![127u8, 0u8, 0u8, 1u8]);
        assert(seq![a, b, c, d][0] == 127);
    }
}

proof fn lemma_zeros()
    ensures
        addr::ipv4("0.0.0.0"@) == Some(seq![0u8, 0u8, 0u8, 0u8]),
{
    reveal_strlit("0.0.0.0");
    reveal_strlit(".");
    assert(text::decimal(0) =~= seq!['0']);
    assert("0.0.0.0"@ =~= scan_laws::dotted(0, 0, 0, 0));
    lemma_dotted(0, 0, 0, 0);
}

proof fn lemma_loopback()
    ensures
        addr::ipv4("127.0.0.1"@) == Some(seq![127u8, 0u8, 0u8, 1u8]),
{
    reveal_strlit("127.0.0.1");
    reveal_strlit(".");
    assert(text::decimal(0) =~= seq!['0']);
    assert(text::decimal(1) =~= seq!['1']);
    assert(text::decimal(12) =~= seq!['1', '2']);
    assert(text::decimal(127) =~= seq!['1', '2', '7']);
    assert("127.0.0.1"@ =~= scan_laws::dotted(127, 0, 0, 1));
    lemma_dotted(127, 0, 0, 1);
}

proof fn lemma_loopback_name()
    ensures
        addr::addr_name("::1"@) == "lo"@,
{
    reveal_strlit("");
    reveal_strlit("*");
    reveal_strlit("0.0.0.0");
    reveal_strlit("::");
    reveal_strlit("::1");
    assert("::1"@.len() == 3 && "::"@.len() == 2 && "*"@.len() == 1 && ""@.len() == 0
        && "0.0.0.0"@.len() == 7);
}

proof fn lemma_strip_wildcards()
    ensures
        text::strip_ends("*"@, '[', ']') == "*"@,
        text::strip_ends("::"@, '[', ']') == "::"@,
        text::strip_ends("::1"@, '[', ']') == "::1"@,
        text::strip_ends("[::]"@, '[', ']') == "::"@,
        text::strip_ends("[::1]"@, '[', ']') == "::1"@,
{
    reveal_strlit("*");
    reveal_strlit("::");
    reveal_strlit("[::]");
    reveal_strlit("::1");
    reveal_strlit("[::1]");
    lemma_unbracketed("*"@);
    lemma_unbracketed("::"@);
    lemma_unbracketed("::1"@);
    lemma_bracketed("::"@);
    lemma_bracketed("::1"@);
    assert(seq!['['] + "::"@ + seq![']'] =~= "[::]"@);
    assert(seq!['['] + "::1"@ + seq![']'] =~= "[::1]"@);
}

/// All addresses are meant by an asterisk and by `::`, the latter in brackets or not; loopback by
/// `::1`.
pub proof fn wildcards_are_shown(p: u16)
    ensures
        addr::addr_port("*"@ + ":"@ + text::decimal(p as nat)) == Some(("*"@, p)),
        addr::addr_port("::"@ + ":"@ + text::decimal(p as nat)) == Some(("*"@, p)),
        addr::addr_port("[::]"@ + ":"@ + text::decimal(p as nat)) == Some(("*"@, p)),
        addr::addr_port("::1"@ + ":"@ + text::decimal(p as nat)) == Some(("lo"@, p)),
        addr::addr_port("[::1]"@ + ":"@ + text::decimal(p as nat)) == Some(("lo"@, p)),
{
    lemma_strip_wildcards();
    lemma_loopback_name();
    lemma_addr_port("*"@, p);
    lemma_addr_port("::"@, p);
    lemma_addr_port("[::]"@, p);
    lemma_addr_port("::1"@, p);
    lemma_addr_port("[::1]"@, p);
}

/// A character of an address in hexadecimal or dotted notation.
pub open spec fn address_char(c: char) -> bool {
    '0' <= c <= '9' || 'a' <= c <= 'f' || 'A' <= c <= 'F' || c == '.' || c == ':'
}

proof fn lemma_digit_char(c: char)
    ensures
        text::digit_value(c) < 16 ==> address_char(c),
{
}

proof fn lemma_in_piece(s: Seq<char>, sep: char, i: int)
    requires
        0 <= i < s.len(),
        s[i] != sep,
    ensures
        exists|k: int|
            0 <= k < text::split_on(s, sep).len() && (#[trigger] text::split_on(s, sep)[k]).contains(
                s[i],
            ),
        text::split_on(s, sep).len() > 0,
    decreases s.len(),
{
    let init = s.drop_last();
    let rest = text::split_on(init, sep);
    let all = text::split_on(s, sep);
    lemma_some_piece(init, sep);
    if i < init.len() {
        assert(init[i] == s[i]);
        lemma_in_piece(init, sep, i);
        let k = choose|k: int| 0 <= k < rest.len() && (#[trigger] rest[k]).contains(s[i]);
        if k < rest.len() - 1 || s.last() == sep {
            assert(all[k] == rest[k]);
        } else {
            let j = choose|j: int| 0 <= j < rest[k].len() && rest[k][j] == s[i];
            assert(all[k] == rest[k].push(s.last()));
            assert(all[k][j] == s[i]);
        }
    } else {
        let k = rest.len() - 1;
        assert(all[k] == rest.last().push(s.last()));
        assert(all[k][rest.last().len() as int] == s[i]);
    }
}

proof fn lemma_some_piece(s: Seq<char>, sep: char)
    ensures
        text::split_on(s, sep).len() > 0,
    decreases s.len(),
{
    if s.len() > 0 {
        lemma_some_piece(s.drop_last(), sep);
    }
}

proof fn lemma_ipv4_chars(s: Seq<char>, i: int)
    requires
        addr::ipv4(s) is Some,
        0 <= i < s.len(),
    ensures
        '0' <= s[i] <= '9' || s[i] == '.',
{
    if s[i] != '.' {
        lemma_in_piece(s, '.', i);
        let p = text::split_on(s, '.');
        let k = choose|k: int| 0 <= k < p.len() && (#[trigger] p[k]).contains(s[i]);
        assert(addr::octet(p[k]) is Some);
        let j = choose|j: int| 0 <= j < p[k].len() && p[k][j] == s[i];
        assert(text::digit_value(p[k][j]) < 10);
        text_laws::lemma_no_digit(s[i]);
    }
}

proof fn lemma_hex_groups(p: Seq<Seq<char>>, k: int)
    requires
        addr::hex_groups(p) is Some,
        0 <= k < p.len(),
    ensures
        addr::hex_group(p[k]) is Some,
    decreases p.len(),
{
    if k < p.len() - 1 {
        assert(p.drop_last()[k] == p[k]);
        lemma_hex_groups(p.drop_last(), k);
    }
}

proof fn lemma_colon_chars(s: Seq<char>, v4_end: bool, i: int)
    requires
        addr::colon_groups(s, v4_end) is Some,
        0 <= i < s.len(),
    ensures
        address_char(s[i]),
{
    if s[i] != ':' {
        lemma_in_piece(s, ':', i);
        let p = text::split_on(s, ':');
        let k = choose|k: int| 0 <= k < p.len() && (#[trigger] p[k]).contains(s[i]);
        let j = choose|j: int| 0 <= j < p[k].len() && p[k][j] == s[i];
        if k < p.len() - 1 {
            lemma_hex_groups(p.drop_last(), k);
            assert(p.drop_last()[k] == p[k]);
            assert(text::digit_value(p[k][j]) < 16);
            lemma_digit_char(s[i]);
        } else if addr::hex_group(p.last()) is Some {
            assert(text::digit_value(p[k][j]) < 16);
            lemma_digit_char(s[i]);
        } else {
            lemma_ipv4_chars(p.last(), j);
        }
    }
}

proof fn lemma_ipv6_chars(s: Seq<char>, i: int)
    requires
        addr::ipv6(s) is Some,
        0 <= i < s.len(),
    ensures
        address_char(s[i]),
{
    reveal_strlit("::");
    match text::find_text(s, "::"@) {
        None => {
            lemma_colon_chars(s, true, i);
        },
        Some(k) => {
            let at = choose|k: int| text::occurs_at(s, "::"@, k);
            text_laws::texts_are_found_where_they_stand_first(s, "::"@, at);
            assert(s.subrange(k, k + 2) == "::"@);
            if i < k {
                assert(s.take(k)[i] == s[i]);
                lemma_colon_chars(s.take(k), false, i);
            } else if i < k + 2 {
                assert(s.subrange(k, k + 2)[i - k] == s[i]);
            } else {
                assert(s.skip(k + 2)[i - k - 2] == s[i]);
                lemma_colon_chars(s.skip(k + 2), true, i - k - 2);
            }
        },
    }
}

proof fn lemma_no_literal(a: Seq<char>, i: int)
    requires
        0 <= i < a.len(),
        !address_char(a[i]),
    ensures
        a != ""@ && a != "0.0.0.0"@ && a != "::"@ && a != "127.0.0.1"@ && a != "::1"@,
{
    reveal_strlit("");
    reveal_strlit("0.0.0.0");
    reveal_strlit("::");
    reveal_strlit("127.0.0.1");
    reveal_strlit("::1");
    if a == "0.0.0.0"@ || a == "::"@ || a == "127.0.0.1"@ || a == "::1"@ {
        assert(a[i] == '0' || a[i] == '1' || a[i] == '2' || a[i] == '7' || a[i] == '.' || a[i] == ':');
    }
}

proof fn lemma_kept(a: Seq<char>, i: int)
    requires
        0 <= i < a.len(),
        !address_char(a[i]),
        a != "*"@,
    ensures
        addr::addr_name(a) == a,
{
    lemma_no_literal(a, i);
    if addr::ipv4(a) is Some {
        lemma_ipv4_chars(a, i);
    }
    if addr::ipv6(a) is Some {
        lemma_ipv6_chars(a, i);
    }
}

/// An address that is neither in dotted nor in hexadecimal notation, such as one with the name of an
/// interface, is shown as it is.
pub proof fn other_addresses_are_shown_as_they_are(a: Seq<char>, i: int, p: u16)
    requires
        0 <= i < a.len(),
        !address_char(a[i]),
        a != "*"@,
        a[0] != '[' && a[0] != ']',
        a.last() != '[' && a.last() != ']',
    ensures
        addr::addr_port(a + ":"@ + text::decimal(p as nat)) == Some((a, p)),
        addr::addr_port(seq!['['] + a + seq![']'] + ":"@ + text::decimal(p as nat)) == Some((a, p)),
{
    lemma_addr_port(a, p);
    lemma_addr_port(seq!['['] + a + seq![']'], p);
    lemma_unbracketed(a);
    lemma_bracketed(a);
    lemma_kept(a, i);
}

proof fn lemma_hexadecimal(n: nat, max: nat, width: nat)
    requires
        width >= 1,
        n < vstd::arithmetic::power::pow(16, width),
    ensures
        1 <= text::hexadecimal(n).len() <= width,
        text::all_digits(text::hexadecimal(n), 16),
        text::digits_value(text::hexadecimal(n), 16) == n,
    decreases n,
{
    let h = text::hexadecimal(n);
    scan_laws::lemma_hex_digit(n % 16);
    if n < 16 {
        assert(h.drop_last() =~= Seq::<char>::empty());
        assert(text::digits_value(h.drop_last(), 16) == 0);
    } else {
        assert(vstd::arithmetic::power::pow(16, width) == 16 * vstd::arithmetic::power::pow(
            16,
            (width - 1) as nat,
        )) by {
            reveal(vstd::arithmetic::power::pow);
        }
        if width == 1 {
            vstd::arithmetic::power::lemma_pow1(16);
        }
        lemma_hexadecimal(n / 16, max, (width - 1) as nat);
        let front = text::hexadecimal(n / 16);
        assert(h.drop_last() =~= front);
        assert forall|i: int| 0 <= i < h.len() implies text::digit_value(#[trigger] h[i]) < 16 by {
            if i < front.len() {
                assert(h[i] == front[i]);
            }
        }
        assert(n / 16 * 16 + n % 16 == n);
    }
}

proof fn lemma_group(n: u16)
    ensures
        addr::hex_group(text::hexadecimal(n as nat)) == Some(n),
        text::hexadecimal(n as nat).len() > 0,
        !text::hexadecimal(n as nat).contains(':'),
{
    assert(vstd::arithmetic::power::pow(16, 4) == 0x1_0000) by {
        reveal_with_fuel(vstd::arithmetic::power::pow, 5);
    }
    lemma_hexadecimal(n as nat, 0xffff, 4);
    let h = text::hexadecimal(n as nat);
    assert forall|c: char| h.contains(c) implies c != ':' by {
        let i = choose|i: int| 0 <= i < h.len() && h[i] == c;
        assert(text::digit_value(h[i]) < 16);
    }
}

proof fn lemma_split_last(s: Seq<char>, sep: char, piece: Seq<char>)
    requires
        !piece.contains(sep),
    ensures
        text::split_on(s.push(sep) + piece, sep) == text::split_on(s, sep).push(piece),
    decreases piece.len(),
{
    let all = s.push(sep) + piece;
    if piece.len() == 0 {
        assert(all =~= s.push(sep));
        assert(all.drop_last() =~= s);
        assert(piece =~= Seq::<char>::empty());
    } else {
        let init = piece.drop_last();
        assert forall|c: char| init.contains(c) implies piece.contains(c) by {
            let i = choose|i: int| 0 <= i < init.len() && init[i] == c;
            assert(piece[i] == c);
        }
        lemma_split_last(s, sep, init);
        assert(piece.contains(piece[piece.len() - 1]));
        assert(all.drop_last() =~= s.push(sep) + init);
        let before = text::split_on(s, sep).push(init);
        assert(before.drop_last() =~= text::split_on(s, sep));
        assert(init.push(piece.last()) =~= piece);
    }
}

/// The texts of groups.
spec fn group_texts(g: Seq<u16>) -> Seq<Seq<char>> {
    Seq::new(g.len(), |i: int| text::hexadecimal(g[i] as nat))
}

proof fn lemma_joined(g: Seq<u16>)
    requires
        g.len() > 0,
    ensures
        text::split_on(addr::joined_groups(g), ':') == group_texts(g),
        addr::hex_groups(group_texts(g)) == Some(g),
        addr::joined_groups(g).len() > 0,
        addr::joined_groups(g)[0] != ':',
        addr::joined_groups(g).last() != ':',
    decreases g.len(),
{
    reveal_strlit(":");
    let s = addr::joined_groups(g);
    let last = text::hexadecimal(g.last() as nat);
    lemma_group(g.last());
    assert(last.contains(last[0]) && last.contains(last[last.len() - 1]));
    if g.len() == 1 {
        text_laws::pieces_stand_between_separators(last, ':', last);
        assert(group_texts(g) =~= seq![last]);
        assert(group_texts(g).drop_last() =~= Seq::<Seq<char>>::empty());
        assert(addr::hex_groups(group_texts(g).drop_last()) == Some(Seq::<u16>::empty()));
        assert(Seq::<u16>::empty().push(g[0]) =~= g);
    } else {
        let fewer = g.drop_last();
        lemma_joined(fewer);
        let front = addr::joined_groups(fewer);
        assert(s =~= front.push(':') + last);
        lemma_split_last(front, ':', last);
        assert(group_texts(fewer).push(last) =~= group_texts(g));
        assert(group_texts(g).drop_last() =~= group_texts(fewer));
        assert(fewer.push(g.last()) =~= g);
        assert(s[0] == front[0]);
        assert(s.last() == last[last.len() - 1]);
    }
}

proof fn lemma_joined_reads_back(g: Seq<u16>, v4_end: bool)
    ensures
        addr::colon_groups(addr::joined_groups(g), v4_end) == Some(g),
{
    if g.len() > 0 {
        lemma_joined(g);
        let p = group_texts(g);
        assert(addr::hex_groups(p) == Some(g));
        lemma_group(g.last());
        assert(p.last() == text::hexadecimal(g.last() as nat));
        let front = addr::hex_groups(p.drop_last());
        assert(front is Some);
    } else {
        assert(g =~= Seq::<u16>::empty());
    }
}

proof fn lemma_no_double(g: Seq<u16>, k: int)
    requires
        0 <= k,
        k + 1 < addr::joined_groups(g).len(),
    ensures
        !(addr::joined_groups(g)[k] == ':' && addr::joined_groups(g)[k + 1] == ':'),
    decreases g.len(),
{
    reveal_strlit(":");
    let s = addr::joined_groups(g);
    if g.len() > 0 {
        lemma_joined(g);
        let last = text::hexadecimal(g.last() as nat);
        lemma_group(g.last());
        if g.len() == 1 {
            assert(last.contains(s[k]));
        } else {
            let front = addr::joined_groups(g.drop_last());
            lemma_joined(g.drop_last());
            assert(s =~= front.push(':') + last);
            if k + 1 < front.len() {
                lemma_no_double(g.drop_last(), k);
            } else if k + 1 == front.len() {
                assert(s[k] == front.last());
            } else {
                assert(last.contains(s[k + 1]));
            }
        }
    }
}

proof fn lemma_zero_run(g: Seq<u16>, i: int)
    requires
        0 <= i <= g.len(),
    ensures
        i + addr::zero_run(g, i) <= g.len(),
        forall|k: int| i <= k < i + addr::zero_run(g, i) ==> #[trigger] g[k] == 0,
    decreases g.len() - i,
{
    if i < g.len() && g[i] == 0 {
        lemma_zero_run(g, i + 1);
    }
}

proof fn lemma_longest(g: Seq<u16>, n: nat)
    requires
        n <= g.len(),
    ensures
        ({
            let (start, len) = addr::longest_run(g, n);
            &&& 0 <= start
            &&& start + len <= g.len()
            &&& forall|k: int| start <= k < start + len ==> #[trigger] g[k] == 0
        }),
    decreases n,
{
    if n > 0 {
        lemma_longest(g, (n - 1) as nat);
        lemma_zero_run(g, n - 1);
    }
}

proof fn lemma_double_found(a: Seq<u16>, y: Seq<char>)
    ensures
        text::find_text(addr::joined_groups(a) + "::"@ + y, "::"@) == Some(
            addr::joined_groups(a).len() as int,
        ),
{
    reveal_strlit("::");
    let pat = "::"@;
    let x = addr::joined_groups(a);
    let s = x + pat + y;
    let n = x.len() as int;
    assert(s.subrange(n, n + 2) =~= pat);
    if a.len() > 0 {
        lemma_joined(a);
    }
    assert forall|k: int| 0 <= k < n implies !text::occurs_at(s, pat, k) by {
        if text::occurs_at(s, pat, k) {
            let t = s.subrange(k, k + 2);
            assert(t[0] == s[k] && t[1] == s[k + 1]);
            assert(s[k] == x[k]);
            if k + 1 < n {
                assert(s[k + 1] == x[k + 1]);
                lemma_no_double(a, k);
            }
        }
    }
    text::lemma_first_at(s, pat, n);
}

proof fn lemma_double_missing(g: Seq<u16>)
    ensures
        text::find_text(addr::joined_groups(g), "::"@) is None,
{
    reveal_strlit("::");
    let s = addr::joined_groups(g);
    if text::contains_text(s, "::"@) {
        let k = choose|k: int| text::occurs_at(s, "::"@, k);
        let t = s.subrange(k, k + 2);
        assert(t[0] == s[k] && t[1] == s[k + 1]);
        lemma_no_double(g, k);
    }
}

/// The text of an IPv6 address means that address.
pub proof fn ipv6_texts_read_back(g: Seq<u16>)
    requires
        g.len() == 8,
    ensures
        addr::ipv6(addr::v6_text(g)) == Some(g),
{
    reveal_strlit("::");
    let s = addr::v6_text(g);
    let (start, len) = addr::longest_run(g, 8);
    lemma_longest(g, 8);
    if len >= 2 {
        let a = g.take(start);
        let b = g.skip(start + len);
        let x = addr::joined_groups(a);
        let y = addr::joined_groups(b);
        let n = x.len() as int;
        lemma_double_found(a, y);
        assert(s.take(n) =~= x);
        assert(s.skip(n + 2) =~= y);
        lemma_joined_reads_back(a, false);
        lemma_joined_reads_back(b, true);
        let back = a + Seq::new((8 - a.len() - b.len()) as nat, |j: int| 0u16) + b;
        assert forall|j: int| 0 <= j < 8 implies back[j] == g[j] by {
            if start <= j < start + len {
                assert(g[j] == 0);
            }
        }
        assert(back =~= g);
    } else {
        lemma_double_missing(g);
        lemma_joined_reads_back(g, true);
    }
}

/// The text of an IPv6 address leaves no two zero groups next to each other that it could have left
/// out: it has a `::` wherever there are any.
pub proof fn ipv6_texts_leave_zeros_out(g: Seq<u16>, k: int)
    requires
        0 <= k,
        k + 1 < g.len(),
        g[k] == 0,
        g[k + 1] == 0,
    ensures
        text::contains_text(addr::v6_text(g), "::"@),
{
    reveal_strlit("::");
    lemma_run_seen(g, g.len(), k);
    lemma_longest(g, g.len());
    let (start, len) = addr::longest_run(g, g.len());
    let x = addr::joined_groups(g.take(start));
    let y = addr::joined_groups(g.skip(start + len));
    let s = x + "::"@ + y;
    let n = x.len() as int;
    assert(s.subrange(n, n + 2) =~= "::"@);
    assert(text::occurs_at(s, "::"@, n));
}

proof fn lemma_run_seen(g: Seq<u16>, n: nat, k: int)
    requires
        0 <= k,
        k + 1 < g.len(),
        g[k] == 0,
        g[k + 1] == 0,
        k < n <= g.len(),
    ensures
        ({
            let (start, len) = addr::longest_run(g, n);
            len >= 2
        }),
    decreases n,
{
    if n - 1 == k {
        assert(addr::zero_run(g, k) == 1 + addr::zero_run(g, k + 1));
        assert(addr::zero_run(g, k + 1) == 1 + addr::zero_run(g, k + 2));
    } else {
        lemma_run_seen(g, (n - 1) as nat, k);
    }
}

/// A listener on an IPv6 address other than loopback and zero is shown by that address.
pub proof fn ipv6_listeners_are_shown(g: Seq<u16>, p: u16)
    requires
        g.len() == 8,
        g[7] > 1 || exists|k: int| 0 <= k < 7 && #[trigger] g[k] != 0,
    ensures
        addr::addr_port(seq!['['] + addr::v6_text(g) + seq![']'] + ":"@ + text::decimal(p as nat))
            == Some((addr::v6_text(g), p)),
{
    let s = addr::v6_text(g);
    ipv6_texts_read_back(g);
    lemma_v6_shape(g);
    lemma_bracketed(s);
    lemma_addr_port(seq!['['] + s + seq![']'], p);
    let l = addr::loopback_groups();
    assert(l[7] == 1 && forall|k: int| 0 <= k < 7 ==> #[trigger] l[k] == 0);
    if g[7] > 1 {
        assert(g != l);
        assert(g[7] != 0);
    } else {
        let k = choose|k: int| 0 <= k < 7 && #[trigger] g[k] != 0;
        assert(l[k] == 0);
    }
    lemma_v6_literals(g);
}

pub(crate) proof fn lemma_v6_shape(g: Seq<u16>)
    requires
        g.len() == 8,
    ensures
        addr::v6_text(g).len() > 0,
        address_char(addr::v6_text(g)[0]),
        address_char(addr::v6_text(g).last()),
        addr::v6_text(g).contains(':'),
{
    reveal_strlit("::");
    reveal_strlit(":");
    let s = addr::v6_text(g);
    ipv6_texts_read_back(g);
    let (start, len) = addr::longest_run(g, 8);
    lemma_longest(g, 8);
    if len >= 2 {
        let x = addr::joined_groups(g.take(start));
        assert(s[x.len() as int] == ':');
    } else {
        let front = addr::joined_groups(g.drop_last());
        assert(s[front.len() as int] == ':');
    }
    lemma_ipv6_chars(s, 0);
    lemma_ipv6_chars(s, s.len() - 1);
}

proof fn lemma_colon_is_no_ipv4(s: Seq<char>)
    requires
        s.contains(':'),
    ensures
        addr::ipv4(s) is None,
        s != ""@ && s != "*"@ && s != "0.0.0.0"@ && s != "127.0.0.1"@,
{
    reveal_strlit("");
    reveal_strlit("*");
    reveal_strlit("0.0.0.0");
    reveal_strlit("127.0.0.1");
    let i = choose|i: int| 0 <= i < s.len() && s[i] == ':';
    if addr::ipv4(s) is Some {
        lemma_ipv4_chars(s, i);
    }
}

pub(crate) proof fn lemma_v6_literals(g: Seq<u16>)
    requires
        g.len() == 8,
        g != addr::loopback_groups(),
        exists|k: int| 0 <= k < 8 && #[trigger] g[k] != 0,
    ensures
        addr::addr_name(addr::v6_text(g)) == addr::v6_text(g),
{
    let s = addr::v6_text(g);
    ipv6_texts_read_back(g);
    lemma_v6_shape(g);
    lemma_colon_is_no_ipv4(s);
    lemma_double_colon();
    lemma_double_colon_one();
    let k = choose|k: int| 0 <= k < 8 && #[trigger] g[k] != 0;
    assert(Seq::new(8, |j: int| 0u16)[k] == 0);
}

proof fn lemma_double_colon()
    ensures
        addr::ipv6("::"@) == Some(Seq::new(8, |j: int| 0u16)),
{
    let z = Seq::new(8, |j: int| 0u16);
    ipv6_texts_read_back(z);
    reveal_strlit("::");
    lemma_all_zero(z, 0);
    assert forall|k: int| 0 < k < z.len() implies #[trigger] addr::zero_run(z, k) <= addr::zero_run(
        z,
        0,
    ) by {
        lemma_zero_run(z, k);
    }
    lemma_first_longest(z, 8);
    assert(z.take(0) =~= Seq::<u16>::empty());
    assert(z.skip(8) =~= Seq::<u16>::empty());
    assert(addr::v6_text(z) =~= "::"@);
}

proof fn lemma_all_zero(g: Seq<u16>, i: int)
    requires
        0 <= i <= g.len(),
        forall|k: int| i <= k < g.len() ==> #[trigger] g[k] == 0,
    ensures
        addr::zero_run(g, i) == g.len() - i,
    decreases g.len() - i,
{
    if i < g.len() {
        lemma_all_zero(g, i + 1);
    }
}

proof fn lemma_first_longest(g: Seq<u16>, n: nat)
    requires
        0 < n <= g.len(),
        addr::zero_run(g, 0) > 0,
        forall|k: int| 0 < k < g.len() ==> #[trigger] addr::zero_run(g, k) <= addr::zero_run(g, 0),
    ensures
        addr::longest_run(g, n) == (0int, addr::zero_run(g, 0)),
    decreases n,
{
    if n > 1 {
        lemma_first_longest(g, (n - 1) as nat);
        assert(addr::zero_run(g, n - 1) <= addr::zero_run(g, 0));
    } else {
        assert(addr::longest_run(g, 0) == (0int, 0nat));
    }
}

proof fn lemma_double_colon_one()
    ensures
        addr::ipv6("::1"@) == Some(addr::loopback_groups()),
{
    reveal_strlit("::");
    reveal_strlit("::1");
    let z = addr::loopback_groups();
    ipv6_texts_read_back(z);
    assert(z[7] == 1);
    assert(z[0] == 0 && z[1] == 0 && z[2] == 0 && z[3] == 0 && z[4] == 0 && z[5] == 0 && z[6] == 0);
    assert(addr::zero_run(z, 7) == 0);
    assert(addr::zero_run(z, 6) == 1);
    assert(addr::zero_run(z, 5) == 2);
    assert(addr::zero_run(z, 4) == 3);
    assert(addr::zero_run(z, 3) == 4);
    assert(addr::zero_run(z, 2) == 5);
    assert(addr::zero_run(z, 1) == 6);
    assert(addr::zero_run(z, 0) == 7);
    assert forall|k: int| 0 < k < z.len() implies #[trigger] addr::zero_run(z, k) <= 7 by {
        lemma_zero_run(z, k);
    }
    lemma_first_longest(z, 8);
    assert(z.take(0) =~= Seq::<u16>::empty());
    let one = z.skip(7);
    assert(one.len() == 1 && one[0] == 1);
    assert(text::hexadecimal(1) =~= seq!['1']);
    assert(addr::joined_groups(one) == seq!['1']);
    assert(addr::v6_text(z) =~= "::1"@);
}

/// Four bytes of an address as the kernel writes them: one number in hexadecimal, the first byte
/// lowest.
pub open spec fn kernel_word(b: Seq<u8>, w: int) -> Seq<char> {
    control::hex(
        (b[4 * w] + 256 * b[4 * w + 1] + 65536 * b[4 * w + 2] + 16777216 * b[4 * w + 3]) as nat,
        8,
    )
}

proof fn lemma_kernel_word(b: Seq<u8>, w: int)
    ensures
        kernel_word(b, w).len() == 8,
        !kernel_word(b, w).contains(':'),
        text::parse_uint(kernel_word(b, w), 16, 0xffff_ffff) matches Some(v) && addr::byte_of(v, 0)
            == b[4 * w] && addr::byte_of(v, 1) == b[4 * w + 1] && addr::byte_of(v, 2) == b[4 * w + 2]
            && addr::byte_of(v, 3) == b[4 * w + 3],
{
    let (p, q, r, s) = (b[4 * w], b[4 * w + 1], b[4 * w + 2], b[4 * w + 3]);
    let v = (p + 256 * q + 65536 * r + 16777216 * s) as nat;
    scan_laws::lemma_bytes(p, q, r, s);
    assert(vstd::arithmetic::power::pow(16, 8) == 0x1_0000_0000) by {
        reveal_with_fuel(vstd::arithmetic::power::pow, 9);
    }
    scan_laws::lemma_hex_value(v, 8);
    scan_laws::lemma_hex_reads_back(v, 8, 0xffff_ffff);
}

proof fn lemma_word_bytes(b: Seq<u8>, h: Seq<char>, w: int)
    requires
        h.subrange(w * 8, w * 8 + 8) == kernel_word(b, w),
    ensures
        addr::hex_word(h, w) is Some,
        forall|k: int|
            0 <= k < 4 ==> #[trigger] addr::byte_of(addr::hex_word(h, w)->0, k) == b[4 * w + k],
{
    lemma_kernel_word(b, w);
    assert forall|k: int| 0 <= k < 4 implies #[trigger] addr::byte_of(addr::hex_word(h, w)->0, k)
        == b[4 * w + k] by {
        assert(k == 0 || k == 1 || k == 2 || k == 3);
    }
}

spec fn kernel_words(b: Seq<u8>) -> Seq<char> {
    kernel_word(b, 0) + kernel_word(b, 1) + kernel_word(b, 2) + kernel_word(b, 3)
}

proof fn lemma_kernel_pieces(b: Seq<u8>, w: int)
    requires
        0 <= w < 4,
    ensures
        kernel_words(b).len() == 32,
        kernel_words(b).subrange(w * 8, w * 8 + 8) == kernel_word(b, w),
{
    lemma_kernel_word(b, 0);
    lemma_kernel_word(b, 1);
    lemma_kernel_word(b, 2);
    lemma_kernel_word(b, 3);
    let h = kernel_words(b);
    if w == 0 {
        assert(h.subrange(0, 8) =~= kernel_word(b, 0));
    } else if w == 1 {
        assert(h.subrange(8, 16) =~= kernel_word(b, 1));
    } else if w == 2 {
        assert(h.subrange(16, 24) =~= kernel_word(b, 2));
    } else {
        assert(h.subrange(24, 32) =~= kernel_word(b, 3));
    }
}

proof fn lemma_kernel_bytes(b: Seq<u8>)
    requires
        b.len() == 16,
    ensures
        addr::kernel_addr(kernel_words(b)) == Some(addr::v6_name(b)),
{
    let h = kernel_words(b);
    lemma_kernel_pieces(b, 0);
    assert forall|w: int| 0 <= w < 4 implies #[trigger] addr::hex_word(h, w) is Some by {
        lemma_kernel_pieces(b, w);
        lemma_word_bytes(b, h, w);
    }
    let o = Seq::new(16, |i: int| addr::byte_of(addr::hex_word(h, i / 4)->0, i % 4));
    assert forall|i: int| 0 <= i < 16 implies #[trigger] o[i] == b[i] by {
        let w = i / 4;
        lemma_kernel_pieces(b, w);
        lemma_word_bytes(b, h, w);
        assert(4 * w + i % 4 == i);
    }
    assert(o =~= b);
}

/// The kernel writes an IPv6 address as four numbers: an IPv4-mapped one is shown as that IPv4
/// address, ::1 as loopback, zero as all addresses, and every other by the text that means it.
pub proof fn kernel_ipv6_addresses_are_shown(b: Seq<u8>, port: u16)
    requires
        b.len() == 16,
    ensures
        ({
            let h = kernel_word(b, 0) + kernel_word(b, 1) + kernel_word(b, 2) + kernel_word(b, 3);
            let shown = addr::kernel_addr_port(h + ":"@ + control::hex(port as nat, 4));
            let g = Seq::new(8, |k: int| (256 * b[2 * k] + b[2 * k + 1]) as u16);
            let high = forall|i: int| 0 <= i < 10 ==> #[trigger] b[i] == 0;
            let mapped = high && b[10] == 255 && b[11] == 255;
            let low = high && b[10] == 0 && b[11] == 0 && b[12] == 0 && b[13] == 0 && b[14] == 0;
            &&& shown is Some
            &&& shown == Some((addr::v6_name(b), port))
            &&& mapped ==> addr::v6_name(b) == (if b[12] == 127 {
                "lo"@
            } else if b[12] == 0 && b[13] == 0 && b[14] == 0 && b[15] == 0 {
                "*"@
            } else {
                scan_laws::dotted(b[12], b[13], b[14], b[15])
            })
            &&& low && b[15] == 1 ==> addr::v6_name(b) == "lo"@
            &&& low && b[15] == 0 ==> addr::v6_name(b) == "*"@
            &&& !mapped && !(low && b[15] <= 1) ==> addr::v6_name(b) == addr::v6_text(g)
                && addr::ipv6(addr::v6_name(b)) == Some(g)
        }),
{
    reveal_strlit(":");
    let h = kernel_word(b, 0) + kernel_word(b, 1) + kernel_word(b, 2) + kernel_word(b, 3);
    let p = control::hex(port as nat, 4);
    assert(vstd::arithmetic::power::pow(16, 4) == 0x1_0000) by {
        reveal_with_fuel(vstd::arithmetic::power::pow, 5);
    }
    scan_laws::lemma_hex_reads_back(port as nat, 4, 0xffff);
    lemma_kernel_bytes(b);
    assert(h == kernel_words(b));
    lemma_kernel_word(b, 0);
    lemma_kernel_word(b, 1);
    lemma_kernel_word(b, 2);
    lemma_kernel_word(b, 3);
    assert(!h.contains(':')) by {
        assert forall|i: int| 0 <= i < h.len() implies h[i] != ':' by {
            if i < 8 {
                assert(kernel_word(b, 0).contains(h[i]));
            } else if i < 16 {
                assert(kernel_word(b, 1)[i - 8] == h[i]);
                assert(kernel_word(b, 1).contains(h[i]));
            } else if i < 24 {
                assert(kernel_word(b, 2)[i - 16] == h[i]);
                assert(kernel_word(b, 2).contains(h[i]));
            } else {
                assert(kernel_word(b, 3)[i - 24] == h[i]);
                assert(kernel_word(b, 3).contains(h[i]));
            }
        }
    }
    assert(h + ":"@ + p =~= h.push(':') + p);
    text_laws::splits_are_at_the_character(h, ':', p);
    lemma_v6_names(b);
}

proof fn lemma_v6_names(b: Seq<u8>)
    requires
        b.len() == 16,
    ensures
        ({
            let g = Seq::new(8, |k: int| (256 * b[2 * k] + b[2 * k + 1]) as u16);
            let high = forall|i: int| 0 <= i < 10 ==> #[trigger] b[i] == 0;
            let mapped = high && b[10] == 255 && b[11] == 255;
            let low = high && b[10] == 0 && b[11] == 0 && b[12] == 0 && b[13] == 0 && b[14] == 0;
            &&& mapped ==> addr::v6_name(b) == (if b[12] == 127 {
                "lo"@
            } else if b[12] == 0 && b[13] == 0 && b[14] == 0 && b[15] == 0 {
                "*"@
            } else {
                scan_laws::dotted(b[12], b[13], b[14], b[15])
            })
            &&& low && b[15] == 1 ==> addr::v6_name(b) == "lo"@
            &&& low && b[15] == 0 ==> addr::v6_name(b) == "*"@
            &&& !mapped && !(low && b[15] <= 1) ==> addr::v6_name(b) == addr::v6_text(g)
                && addr::ipv6(addr::v6_name(b)) == Some(g)
        }),
{
    let g = Seq::new(8, |k: int| (256 * b[2 * k] + b[2 * k + 1]) as u16);
    let t = b.subrange(12, 16);
    assert(t[0] == b[12] && t[1] == b[13] && t[2] == b[14] && t[3] == b[15]);
    assert(addr::groups(b) =~= g);
    ipv6_texts_read_back(g);
}

/// An IPv6 address is shown in the same way without brackets around it.
pub proof fn unbracketed_ipv6_listeners_are_shown(g: Seq<u16>, p: u16)
    requires
        g.len() == 8,
        g[7] > 1 || exists|k: int| 0 <= k < 7 && #[trigger] g[k] != 0,
    ensures
        addr::addr_port(addr::v6_text(g) + ":"@ + text::decimal(p as nat)) == Some(
            (addr::v6_text(g), p),
        ),
{
    let s = addr::v6_text(g);
    lemma_v6_shape(g);
    lemma_unbracketed(s);
    lemma_bracketed(s);
    lemma_addr_port(s, p);
    lemma_addr_port(seq!['['] + s + seq![']'], p);
    ipv6_listeners_are_shown(g, p);
}

/// The loopback address is recognised with all its zeros written out, too.
pub proof fn the_long_loopback_is_shown(p: u16)
    ensures
        addr::addr_port(addr::joined_groups(addr::loopback_groups()) + ":"@ + text::decimal(p as nat))
            == Some(("lo"@, p)),
{
    let g = addr::loopback_groups();
    let s = addr::joined_groups(g);
    lemma_joined_reads_back(g, true);
    lemma_double_missing(g);
    assert(addr::ipv6(s) == Some(g));
    lemma_joined(g);
    lemma_long_shape(g);
    lemma_colon_is_no_ipv4(s);
    lemma_unbracketed(s);
    lemma_addr_port(s, p);
    lemma_double_colon_is_short(s);
}

proof fn lemma_long_shape(g: Seq<u16>)
    requires
        g.len() > 1,
    ensures
        addr::joined_groups(g).len() > 2 * (g.len() - 1),
        addr::joined_groups(g).contains(':'),
        address_char(addr::joined_groups(g)[0]),
        address_char(addr::joined_groups(g).last()),
    decreases g.len(),
{
    reveal_strlit(":");
    let front = addr::joined_groups(g.drop_last());
    let d = text::hexadecimal(g.last() as nat);
    let s = addr::joined_groups(g);
    lemma_group(g.last());
    assert(s == front + ":"@ + d);
    assert(s[front.len() as int] == ':');
    assert(s.last() == d.last());
    lemma_digit_char(d[d.len() - 1]);
    if g.len() == 2 {
        assert(g.drop_last().len() == 1);
        lemma_group(g[0]);
        assert(front == text::hexadecimal(g[0] as nat));
        lemma_digit_char(front[0]);
    } else {
        lemma_long_shape(g.drop_last());
    }
    assert(s[0] == front[0]);
}

proof fn lemma_double_colon_is_short(s: Seq<char>)
    requires
        s.len() > 3,
    ensures
        s != "::"@ && s != "::1"@ && s != ""@,
{
    reveal_strlit("::");
    reveal_strlit("::1");
    reveal_strlit("");
}

/// Four numbers with dots between them of which one is above 255, or has a zero before it, are no
/// IPv4 address, and are shown as they are.
pub proof fn other_dotted_texts_are_shown_as_they_are(q: Seq<Seq<char>>, k: int, p: u16)
    requires
        q.len() == 4,
        forall|i: int| 0 <= i < 4 ==> (#[trigger] q[i]).len() > 0 && text::all_digits(q[i], 10),
        0 <= k < 4,
        (exists|n: nat| n > 255 && q[k] == #[trigger] text::decimal(n)) || (q[k].len() > 1 && q[k][0]
            == '0'),
    ensures
        ({
            let a = q[0] + "."@ + q[1] + "."@ + q[2] + "."@ + q[3];
            addr::addr_port(a + ":"@ + text::decimal(p as nat)) == Some((a, p))
        }),
{
    reveal_strlit(".");
    let a = q[0] + "."@ + q[1] + "."@ + q[2] + "."@ + q[3];
    lemma_no_dot(q[0]);
    lemma_no_dot(q[1]);
    lemma_no_dot(q[2]);
    lemma_no_dot(q[3]);
    let r2 = q[2].push('.') + q[3];
    let r1 = q[1].push('.') + r2;
    let s = q[0].push('.') + r1;
    assert(a =~= s);
    text_laws::pieces_stand_between_separators(q[0], '.', r1);
    text_laws::pieces_stand_between_separators(q[1], '.', r2);
    text_laws::pieces_stand_between_separators(q[2], '.', q[3]);
    text_laws::pieces_stand_between_separators(q[3], '.', q[3]);
    let ps = text::split_on(a, '.');
    assert(ps =~= seq![q[0], q[1], q[2], q[3]]);
    assert(ps[k] == q[k]);
    lemma_no_octet(q[k]);
    assert(addr::octet(ps[k]) is None);
    assert(addr::ipv4(a) is None);
    lemma_dotted_shape(q, a);
    lemma_no_ipv6(a, q[0].len() as int);
    lemma_unbracketed(a);
    lemma_addr_port(a, p);
    lemma_known_ipv4(a);
}

proof fn lemma_no_dot(d: Seq<char>)
    requires
        text::all_digits(d, 10),
    ensures
        !d.contains('.'),
        !d.contains(':'),
{
    if d.contains('.') {
        let i = choose|i: int| 0 <= i < d.len() && d[i] == '.';
        assert(text::digit_value(d[i]) < 10);
    }
    if d.contains(':') {
        let i = choose|i: int| 0 <= i < d.len() && d[i] == ':';
        assert(text::digit_value(d[i]) < 10);
    }
}

proof fn lemma_no_octet(d: Seq<char>)
    requires
        (exists|n: nat| n > 255 && d == #[trigger] text::decimal(n)) || (d.len() > 1 && d[0] == '0'),
    ensures
        addr::octet(d) is None,
{
    if !(d.len() > 1 && d[0] == '0') {
        let n = choose|n: nat| n > 255 && d == #[trigger] text::decimal(n);
        laws::decimal_reads_back(n, n);
        session_laws::lemma_decimal_solid(n);
        laws::lemma_decimal(n);
        assert('0' <= d[0] <= '9');
        assert(text::digits_value(d, 10) == n);
    }
}

proof fn lemma_dotted_shape(q: Seq<Seq<char>>, a: Seq<char>)
    requires
        q.len() == 4,
        forall|i: int| 0 <= i < 4 ==> (#[trigger] q[i]).len() > 0 && text::all_digits(q[i], 10),
        a == q[0] + "."@ + q[1] + "."@ + q[2] + "."@ + q[3],
    ensures
        a.len() >= 7,
        a[q[0].len() as int] == '.',
        !a.contains(':'),
        a[0] != '[' && a[0] != ']',
        a.last() != '[' && a.last() != ']',
{
    reveal_strlit(".");
    assert(q[0].len() > 0 && q[1].len() > 0 && q[2].len() > 0 && q[3].len() > 0);
    let x = q[0] + "."@ + q[1];
    let y = x + "."@ + q[2];
    assert(a == y + "."@ + q[3]);
    lemma_no_dot(q[0]);
    lemma_no_dot(q[1]);
    lemma_no_dot(q[2]);
    lemma_no_dot(q[3]);
    assert(a[0] == q[0][0]);
    assert(text::digit_value(q[0][0]) < 10);
    assert(a.last() == q[3][q[3].len() - 1]);
    assert(text::digit_value(q[3][q[3].len() - 1]) < 10);
    if a.contains(':') {
        let i = choose|i: int| 0 <= i < a.len() && a[i] == ':';
        if i < q[0].len() {
            assert(q[0][i] == ':');
        } else if q[0].len() < i < x.len() {
            assert(q[1][i - q[0].len() - 1] == ':');
        } else if x.len() < i < y.len() {
            assert(q[2][i - x.len() - 1] == ':');
        } else if i > y.len() {
            assert(q[3][i - y.len() - 1] == ':');
        }
    }
}

proof fn lemma_no_ipv6(a: Seq<char>, i: int)
    requires
        !a.contains(':'),
        0 <= i < a.len(),
        a[i] == '.',
        addr::ipv4(a) is None,
    ensures
        addr::ipv6(a) is None,
{
    reveal_strlit("::");
    if text::contains_text(a, "::"@) {
        let j = choose|j: int| text::occurs_at(a, "::"@, j);
        assert(a.subrange(j, j + 2)[0] == ':');
        assert(a[j] == ':');
    }
    text_laws::pieces_stand_between_separators(a, ':', a);
    let ps = text::split_on(a, ':');
    assert(ps.last() == a);
    assert(text::digit_value(a[i]) >= 16);
    assert(addr::hex_group(a) is None);
    assert(ps.drop_last() =~= Seq::<Seq<char>>::empty());
}

proof fn lemma_known_ipv4(a: Seq<char>)
    requires
        addr::ipv4(a) is None,
        addr::ipv6(a) is None,
        !a.contains(':'),
        a.len() >= 7,
    ensures
        addr::addr_name(a) == a,
{
    reveal_strlit("");
    reveal_strlit("*");
    reveal_strlit("::");
    reveal_strlit("::1");
    if a == "0.0.0.0"@ {
        lemma_zeros();
    }
    if a == "127.0.0.1"@ {
        lemma_loopback();
    }
}

/// The groups `k` to `k + n` are zero.
pub open spec fn zeros(g: Seq<u16>, k: int, n: nat) -> bool {
    0 <= k && k + n <= g.len() && forall|i: int| k <= i < k + n ==> #[trigger] g[i] == 0
}

proof fn lemma_run_reaches(g: Seq<u16>, i: int, m: nat)
    requires
        zeros(g, i, m),
    ensures
        addr::zero_run(g, i) >= m,
    decreases m,
{
    if m > 0 {
        assert(g[i] == 0);
        assert(zeros(g, i + 1, (m - 1) as nat));
        lemma_run_reaches(g, i + 1, (m - 1) as nat);
    }
}

proof fn lemma_longest_is(g: Seq<u16>, n: nat, k: int, len: nat)
    requires
        n <= g.len(),
        len > 0,
        zeros(g, k, len),
        forall|j: int, m: nat| #[trigger] zeros(g, j, m) ==> m <= len,
        forall|j: int| 0 <= j < k ==> !#[trigger] zeros(g, j, len),
    ensures
        n > k ==> addr::longest_run(g, n) == (k, len),
        n <= k ==> addr::longest_run(g, n).1 < len,
    decreases n,
{
    if n > 0 {
        lemma_longest_is(g, (n - 1) as nat, k, len);
        let r = addr::zero_run(g, n - 1);
        lemma_zero_run(g, n - 1);
        assert(zeros(g, n - 1, r));
        if n - 1 < k {
            assert(!zeros(g, n - 1, len));
        } else if n - 1 == k {
            lemma_run_reaches(g, k, len);
        }
    }
}

/// The text of an IPv6 address leaves out the longest run of two or more zero groups, the first of
/// them where there are several, and writes all groups where there is none.
pub proof fn ipv6_texts_leave_out_the_longest_run(g: Seq<u16>, k: int, n: nat)
    ensures
        n >= 2 && zeros(g, k, n) && (forall|j: int, m: nat| #[trigger] zeros(g, j, m) ==> m <= n) && (
        forall|j: int| 0 <= j < k ==> !#[trigger] zeros(g, j, n)) ==> addr::v6_text(g)
            == addr::joined_groups(g.take(k)) + "::"@ + addr::joined_groups(g.skip(k + n)),
        (forall|j: int| !#[trigger] zeros(g, j, 2)) ==> addr::v6_text(g) == addr::joined_groups(g),
{
    if n >= 2 && zeros(g, k, n) && (forall|j: int, m: nat| #[trigger] zeros(g, j, m) ==> m <= n) && (
    forall|j: int| 0 <= j < k ==> !#[trigger] zeros(g, j, n)) {
        lemma_longest_is(g, g.len(), k, n);
    }
    if forall|j: int| !#[trigger] zeros(g, j, 2) {
        lemma_longest(g, g.len());
        let (start, len) = addr::longest_run(g, g.len());
        if len >= 2 {
            assert(zeros(g, start, 2));
        }
    }
}

/// Groups are written as hexadecimal numbers with colons between them.
pub proof fn groups_are_written_in_order(g: Seq<u16>, x: u16)
    ensures
        addr::joined_groups(Seq::empty()) == Seq::<char>::empty(),
        addr::joined_groups(seq![x]) == text::hexadecimal(x as nat),
        g.len() > 0 ==> addr::joined_groups(g.push(x)) == addr::joined_groups(g) + ":"@
            + text::hexadecimal(x as nat),
{
    assert(g.push(x).drop_last() =~= g);
}

} // verus!
