//! Internet addresses as text and as the kernel writes them.
use vstd::prelude::*;
use crate::text;

verus! {

/// A number between 0 and 255 in decimal digits, without leading zeros.
pub open spec fn octet(s: Seq<char>) -> Option<u8> {
    if 1 <= s.len() <= 3 && text::all_digits(s, 10) && (s.len() == 1 || s[0] != '0') && text::digits_value(s, 10)
        <= 255 {
        Some(text::digits_value(s, 10) as u8)
    } else {
        None
    }
}

/// The four numbers of an IPv4 address in dotted decimal notation.
pub open spec fn ipv4(s: Seq<char>) -> Option<Seq<u8>> {
    let p = text::split_on(s, '.');
    if p.len() == 4 && forall|i: int| 0 <= i < 4 ==> octet(#[trigger] p[i]) is Some {
        Some(Seq::new(4, |i: int| octet(p[i])->0))
    } else {
        None
    }
}

/// One group of an IPv6 address: one to four hexadecimal digits.
pub open spec fn hex_group(s: Seq<char>) -> Option<u16> {
    if 1 <= s.len() <= 4 && text::all_digits(s, 16) {
        Some(text::digits_value(s, 16) as u16)
    } else {
        None
    }
}

/// The values of texts that are all groups.
pub open spec fn hex_groups(p: Seq<Seq<char>>) -> Option<Seq<u16>>
    decreases p.len(),
{
    if p.len() == 0 {
        Some(Seq::empty())
    } else {
        match (hex_groups(p.drop_last()), hex_group(p.last())) {
            (Some(a), Some(g)) => Some(a.push(g)),
            _ => None,
        }
    }
}

/// Groups between colons; where `v4_end` holds, an IPv4 address may stand for the last two.
pub open spec fn colon_groups(s: Seq<char>, v4_end: bool) -> Option<Seq<u16>> {
    if s.len() == 0 {
        Some(Seq::empty())
    } else {
        let p = text::split_on(s, ':');
        match hex_groups(p.drop_last()) {
            None => None,
            Some(a) => match hex_group(p.last()) {
                Some(g) => Some(a.push(g)),
                None => match ipv4(p.last()) {
                    Some(o) => if v4_end {
                        Some(
                            a.push((o[0] * 256 + o[1]) as u16).push((o[2] * 256 + o[3]) as u16),
                        )
                    } else {
                        None
                    },
                    None => None,
                },
            },
        }
    }
}

/// The eight groups of an IPv6 address as text: all eight, or fewer with one `::` for the zeros
/// that are left out.
pub open spec fn ipv6(s: Seq<char>) -> Option<Seq<u16>> {
    match text::find_text(s, "::"@) {
        None => match colon_groups(s, true) {
            Some(g) => if g.len() == 8 {
                Some(g)
            } else {
                None
            },
            None => None,
        },
        Some(i) => match (colon_groups(s.take(i), false), colon_groups(s.skip(i + 2), true)) {
            (Some(a), Some(b)) => if a.len() + b.len() <= 7 {
                Some(a + Seq::new((8 - a.len() - b.len()) as nat, |j: int| 0u16) + b)
            } else {
                None
            },
            _ => None,
        },
    }
}

/// The groups of the IPv6 loopback address.
pub open spec fn loopback_groups() -> Seq<u16> {
    Seq::new(8, |i: int| if i == 7 { 1u16 } else { 0u16 })
}

/// An IPv4 address as it is shown: "lo" for loopback, "*" for all, else dotted decimal.
pub open spec fn v4_name(o: Seq<u8>) -> Seq<char> {
    if o[0] == 127 {
        "lo"@
    } else if o[0] == 0 && o[1] == 0 && o[2] == 0 && o[3] == 0 {
        "*"@
    } else {
        text::decimal(o[0] as nat) + "."@ + text::decimal(o[1] as nat) + "."@ + text::decimal(o[2] as nat) + "."@
            + text::decimal(o[3] as nat)
    }
}

/// A textual bind address as it is shown.
pub open spec fn addr_name(a: Seq<char>) -> Seq<char> {
    if a == ""@ || a == "*"@ || a == "0.0.0.0"@ || a == "::"@ {
        "*"@
    } else if a == "127.0.0.1"@ || a == "::1"@ {
        "lo"@
    } else if ipv4(a) is Some {
        v4_name(ipv4(a)->0)
    } else if ipv6(a) == Some(loopback_groups()) {
        "lo"@
    } else {
        a
    }
}

/// `address:port` as `ss` and `netstat` write it: the shown address and the port.
pub open spec fn addr_port(s: Seq<char>) -> Option<(Seq<char>, u16)> {
    match text::rsplit_once(s, ':') {
        None => None,
        Some((a, p)) => match text::parse_uint(p, 10, 0xffff) {
            None => None,
            Some(n) => Some((addr_name(text::strip_ends(a, '[', ']')), n as u16)),
        },
    }
}

/// The byte `k` of a number, the lowest first.
pub open spec fn byte_of(v: nat, k: int) -> u8 {
    if k == 0 {
        (v % 256) as u8
    } else if k == 1 {
        ((v / 256) % 256) as u8
    } else if k == 2 {
        ((v / 65536) % 256) as u8
    } else {
        ((v / 16777216) % 256) as u8
    }
}

/// The eight hexadecimal digits of the word `w` of an address.
pub open spec fn hex_word(h: Seq<char>, w: int) -> Option<nat> {
    text::parse_uint(h.subrange(w * 8, w * 8 + 8), 16, 0xffff_ffff)
}

/// The eight groups of the sixteen bytes of an IPv6 address.
pub open spec fn groups(b: Seq<u8>) -> Seq<u16> {
    Seq::new(8, |i: int| (b[2 * i] * 256 + b[2 * i + 1]) as u16)
}

/// Groups in hexadecimal, with colons between them.
pub open spec fn joined_groups(g: Seq<u16>) -> Seq<char>
    decreases g.len(),
{
    if g.len() == 0 {
        Seq::empty()
    } else if g.len() == 1 {
        text::hexadecimal(g[0] as nat)
    } else {
        joined_groups(g.drop_last()) + ":"@ + text::hexadecimal(g.last() as nat)
    }
}

/// How many groups from position `i` on are zero without a break.
pub open spec fn zero_run(g: Seq<u16>, i: int) -> nat
    decreases g.len() - i,
{
    if 0 <= i < g.len() && g[i] == 0 {
        1 + zero_run(g, i + 1)
    } else {
        0
    }
}

/// The start and the length of the longest run of zero groups among those that start before `n`,
/// the first of them where there are several.
pub open spec fn longest_run(g: Seq<u16>, n: nat) -> (int, nat)
    decreases n,
{
    if n == 0 {
        (0, 0)
    } else {
        let before = longest_run(g, (n - 1) as nat);
        if zero_run(g, n - 1) > before.1 {
            (n - 1, zero_run(g, n - 1))
        } else {
            before
        }
    }
}

/// The text of an IPv6 address: its longest run of two or more zero groups is written `::`.
pub open spec fn v6_text(g: Seq<u16>) -> Seq<char> {
    let (start, len) = longest_run(g, g.len());
    if len >= 2 {
        joined_groups(g.take(start)) + "::"@ + joined_groups(g.skip(start + len))
    } else {
        joined_groups(g)
    }
}

/// The sixteen bytes of an IPv6 address as it is shown: "lo" for loopback, "*" for all, an
/// IPv4-mapped one as that IPv4 address, else the address itself.
pub open spec fn v6_name(b: Seq<u8>) -> Seq<char> {
    if (forall|i: int| 0 <= i < 10 ==> #[trigger] b[i] == 0) && b[10] == 255 && b[11] == 255 {
        v4_name(b.subrange(12, 16))
    } else if (forall|i: int| 0 <= i < 15 ==> #[trigger] b[i] == 0) && b[15] == 1 {
        "lo"@
    } else if forall|i: int| 0 <= i < 16 ==> #[trigger] b[i] == 0 {
        "*"@
    } else {
        v6_text(groups(b))
    }
}

/// The address part of a kernel `ADDR:PORT`: each word of four bytes in host (little-endian) order.
pub open spec fn kernel_addr(h: Seq<char>) -> Option<Seq<char>> {
    if h.len() == 8 {
        match text::parse_uint(h, 16, 0xffff_ffff) {
            None => None,
            Some(v) => Some(v4_name(Seq::new(4, |i: int| byte_of(v, i)))),
        }
    } else if h.len() == 32 {
        if forall|w: int| 0 <= w < 4 ==> #[trigger] hex_word(h, w) is Some {
            Some(v6_name(Seq::new(16, |i: int| byte_of(hex_word(h, i / 4)->0, i % 4))))
        } else {
            None
        }
    } else {
        None
    }
}

/// A kernel `ADDR:PORT` in hexadecimal: the shown address and the port.
pub open spec fn kernel_addr_port(s: Seq<char>) -> Option<(Seq<char>, u16)> {
    match text::split_once(s, ':') {
        None => None,
        Some((h, p)) => match (text::parse_uint(p, 16, 0xffff), kernel_addr(h)) {
            (Some(n), Some(a)) => Some((a, n as u16)),
            _ => None,
        },
    }
}

/// The value of one number of an IPv4 address.
fn octet_of(s: &[char]) -> (r: Option<u8>)
    ensures
        r == octet(s@),
{
    if s.len() < 1 || s.len() > 3 || (s.len() > 1 && s[0] == '0') {
        return None;
    }
    let mut acc: u32 = 0;
    for i in 0..s.len()
        invariant
            1 <= s@.len() <= 3,
            acc == text::digits_value(s@.take(i as int), 10),
            acc <= (if i == 0 { 0int } else if i == 1 { 9 } else if i == 2 { 99 } else { 999 }),
            forall|j: int| 0 <= j < i ==> text::digit_value(#[trigger] s@[j]) < 10,
    {
        let v: u32 = text::digit_of(s[i]);
        if v >= 10 {
            return None;
        }
        assert(s@.take(i + 1).drop_last() =~= s@.take(i as int));
        acc = acc * 10 + v;
    }
    assert(s@.take(s@.len() as int) =~= s@);
    if acc <= 255 {
        Some(acc as u8)
    } else {
        None
    }
}

/// The four numbers of an IPv4 address.
pub fn ipv4_of(s: &[char]) -> (r: Option<Vec<u8>>)
    ensures
        r is Some <==> ipv4(s@) is Some,
        r matches Some(o) ==> ipv4(s@) == Some(o@) && o@.len() == 4,
{
    let p = text::split_of(s, '.');
    let ghost ps = text::split_on(s@, '.');
    assert(text::texts(p@) == ps);
    if p.len() != 4 {
        return None;
    }
    let mut out: Vec<u8> = Vec::new();
    for i in 0..4usize
        invariant
            p@.len() == 4,
            text::texts(p@) == ps,
            ps == text::split_on(s@, '.'),
            out@.len() == i,
            forall|j: int| 0 <= j < i ==> octet(#[trigger] ps[j]) == Some(out@[j]),
    {
        assert(ps[i as int] == p@[i as int]@);
        match octet_of(p[i].as_slice()) {
            None => {
                return None;
            },
            Some(v) => {
                out.push(v);
            },
        }
    }
    assert(out@ =~= Seq::new(4, |i: int| octet(ps[i])->0));
    Some(out)
}

/// The value of one group of an IPv6 address.
fn hex_group_of(s: &[char]) -> (r: Option<u16>)
    ensures
        r == hex_group(s@),
{
    if s.len() < 1 || s.len() > 4 {
        return None;
    }
    let mut acc: u32 = 0;
    for i in 0..s.len()
        invariant
            1 <= s@.len() <= 4,
            acc == text::digits_value(s@.take(i as int), 16),
            acc <= (if i == 0 {
                0int
            } else if i == 1 {
                0xf
            } else if i == 2 {
                0xff
            } else if i == 3 {
                0xfff
            } else {
                0xffff
            }),
            forall|j: int| 0 <= j < i ==> text::digit_value(#[trigger] s@[j]) < 16,
    {
        let v: u32 = text::digit_of(s[i]);
        if v >= 16 {
            return None;
        }
        assert(s@.take(i + 1).drop_last() =~= s@.take(i as int));
        acc = acc * 16 + v;
    }
    assert(s@.take(s@.len() as int) =~= s@);
    Some(acc as u16)
}

proof fn lemma_groups_fail(p: Seq<Seq<char>>, i: int)
    requires
        0 <= i < p.len(),
        hex_group(p[i]) is None,
    ensures
        hex_groups(p) is None,
    decreases p.len(),
{
    if i < p.len() - 1 {
        assert(p.drop_last()[i] == p[i]);
        lemma_groups_fail(p.drop_last(), i);
    }
}

/// The groups between colons.
fn colon_groups_of(s: &[char], v4_end: bool) -> (r: Option<Vec<u16>>)
    ensures
        r is Some <==> colon_groups(s@, v4_end) is Some,
        r matches Some(g) ==> colon_groups(s@, v4_end) == Some(g@),
{
    let mut out: Vec<u16> = Vec::new();
    if s.len() == 0 {
        assert(out@ =~= Seq::<u16>::empty());
        return Some(out);
    }
    let p = text::split_of(s, ':');
    let ghost ps = text::split_on(s@, ':');
    let n: usize = p.len() - 1;
    assert(ps.drop_last().take(0) =~= Seq::<Seq<char>>::empty());
    assert(out@ =~= Seq::<u16>::empty());
    for i in 0..n
        invariant
            p@.len() == n + 1,
            s@.len() > 0,
            text::texts(p@) == ps,
            ps == text::split_on(s@, ':'),
            hex_groups(ps.drop_last().take(i as int)) == Some(out@),
    {
        let ghost init = ps.drop_last();
        assert(init[i as int] == p@[i as int]@);
        match hex_group_of(p[i].as_slice()) {
            None => {
                proof {
                    lemma_groups_fail(init, i as int);
                }
                return None;
            },
            Some(g) => {
                assert(init.take(i + 1).drop_last() =~= init.take(i as int));
                out.push(g);
            },
        }
    }
    assert(ps.drop_last().take(n as int) =~= ps.drop_last());
    assert(ps.last() == p@[n as int]@);
    match hex_group_of(p[n].as_slice()) {
        Some(g) => {
            out.push(g);
            Some(out)
        },
        None => match ipv4_of(p[n].as_slice()) {
            Some(o) => if v4_end {
                out.push(o[0] as u16 * 256 + o[1] as u16);
                out.push(o[2] as u16 * 256 + o[3] as u16);
                Some(out)
            } else {
                None
            },
            None => None,
        },
    }
}

/// Whether a text is an IPv6 address that stands for loopback.
pub fn is_loopback_v6(s: &[char]) -> (r: bool)
    ensures
        r == (ipv6(s@) == Some(loopback_groups())),
{
    proof {
        reveal_strlit("::");
    }
    match text::find_of(s, "::") {
        None => match colon_groups_of(s, true) {
            None => false,
            Some(g) => {
                if g.len() != 8 {
                    return false;
                }
                let r = g[0] == 0 && g[1] == 0 && g[2] == 0 && g[3] == 0 && g[4] == 0 && g[5] == 0
                    && g[6] == 0 && g[7] == 1;
                proof {
                    let l = loopback_groups();
                    if r {
                        assert(g@ =~= l);
                    }
                    assert(l[0] == 0 && l[1] == 0 && l[2] == 0 && l[3] == 0 && l[4] == 0 && l[5] == 0
                        && l[6] == 0 && l[7] == 1);
                }
                r
            },
        },
        Some(i) => {
            assert(i + 2 <= s.len());
            let a = colon_groups_of(text::front(s, i), false);
            let b = colon_groups_of(text::back(s, i + 2), true);
            match (a, b) {
                (Some(a), Some(b)) => {
                    if a.len() > 7 || b.len() > 7 || a.len() + b.len() > 7 {
                        return false;
                    }
                    let ghost whole = a@ + Seq::new(
                        (8 - a@.len() - b@.len()) as nat,
                        |j: int| 0u16,
                    ) + b@;
                    assert(ipv6(s@) == Some(whole));
                    let mut g: Vec<u16> = Vec::new();
                    for k in 0..8usize
                        invariant
                            a@.len() + b@.len() <= 7,
                            whole == a@ + Seq::new(
                                (8 - a@.len() - b@.len()) as nat,
                                |j: int| 0u16,
                            ) + b@,
                            g@ == whole.take(k as int),
                    {
                        let v: u16 = if k < a.len() {
                            a[k]
                        } else if k >= 8 - b.len() {
                            b[k - (8 - b.len())]
                        } else {
                            0
                        };
                        assert(v == whole[k as int]);
                        g.push(v);
                        assert(whole.take(k + 1) =~= whole.take(k as int).push(v));
                    }
                    assert(whole.take(8) =~= whole);
                    let r = g[0] == 0 && g[1] == 0 && g[2] == 0 && g[3] == 0 && g[4] == 0 && g[5]
                        == 0 && g[6] == 0 && g[7] == 1;
                    proof {
                        let l = loopback_groups();
                        if r {
                            assert(g@ =~= l);
                        }
                        assert(l[0] == 0 && l[1] == 0 && l[2] == 0 && l[3] == 0 && l[4] == 0 && l[5]
                            == 0 && l[6] == 0 && l[7] == 1);
                    }
                    r
                },
                _ => false,
            }
        },
    }
}


/// An IPv4 address as it is shown.
pub fn normalize_v4(o: &[u8]) -> (r: String)
    requires
        o@.len() == 4,
    ensures
        r@ == v4_name(o@),
{
    if o[0] == 127 {
        "lo".to_owned()
    } else if o[0] == 0 && o[1] == 0 && o[2] == 0 && o[3] == 0 {
        "*".to_owned()
    } else {
        let mut s = text::decimal_of(o[0] as u64);
        s.append(".");
        s.append(text::decimal_of(o[1] as u64).as_str());
        s.append(".");
        s.append(text::decimal_of(o[2] as u64).as_str());
        s.append(".");
        s.append(text::decimal_of(o[3] as u64).as_str());
        s
    }
}

/// A textual bind address as it is shown.
fn addr_name_of(a: &[char]) -> (r: String)
    ensures
        r@ == addr_name(a@),
{
    if text::is_text(a, "") || text::is_text(a, "*") || text::is_text(a, "0.0.0.0") || text::is_text(
        a,
        "::",
    ) {
        return "*".to_owned();
    }
    if text::is_text(a, "127.0.0.1") || text::is_text(a, "::1") {
        return "lo".to_owned();
    }
    match ipv4_of(a) {
        Some(o) => normalize_v4(o.as_slice()),
        None => if is_loopback_v6(a) {
            "lo".to_owned()
        } else {
            text::text_of(a)
        },
    }
}

/// Splits the port off an address from `ss` or `netstat` and gives the address as it is shown.
pub fn split_addr_port(s: &[char]) -> (r: Option<(String, u16)>)
    ensures
        r is Some <==> addr_port(s@) is Some,
        r matches Some((a, p)) ==> addr_port(s@) == Some((a@, p)),
{
    match text::rsplit_once_of(s, ':') {
        None => None,
        Some((a, p)) => match text::port_of(p) {
            None => None,
            Some(n) => Some((addr_name_of(text::strip_ends_of(a, '[', ']')), n)),
        },
    }
}

/// The bytes of a word, the lowest first.
fn word_bytes(v: u64) -> (r: Vec<u8>)
    requires
        v <= 0xffff_ffff,
    ensures
        r@ == Seq::new(4, |i: int| byte_of(v as nat, i)),
{
    let mut b: Vec<u8> = Vec::new();
    b.push((v % 256) as u8);
    b.push(((v / 256) % 256) as u8);
    b.push(((v / 65536) % 256) as u8);
    b.push(((v / 16777216) % 256) as u8);
    assert(b@ =~= Seq::new(4, |i: int| byte_of(v as nat, i)));
    b
}

/// Whether the first `n` bytes are zero.
fn zeros(b: &[u8], n: usize) -> (r: bool)
    requires
        n <= b@.len(),
    ensures
        r == (forall|i: int| 0 <= i < n ==> #[trigger] b@[i] == 0),
{
    for i in 0..n
        invariant
            n <= b@.len(),
            forall|j: int| 0 <= j < i ==> #[trigger] b@[j] == 0,
    {
        if b[i] != 0 {
            return false;
        }
    }
    true
}

fn zero_run_of(g: &[u16], i: usize) -> (r: usize)
    requires
        i <= g@.len(),
    ensures
        r == zero_run(g@, i as int),
        i + r <= g@.len(),
{
    let mut end: usize = i;
    while end < g.len() && g[end] == 0
        invariant
            i <= end <= g@.len(),
            zero_run(g@, i as int) == (end - i) + zero_run(g@, end as int),
        decreases g@.len() - end,
    {
        end = end + 1;
    }
    end - i
}

fn joined_groups_of(g: &[u16]) -> (r: String)
    ensures
        r@ == joined_groups(g@),
{
    let mut s = String::new();
    assert(g@.take(0) =~= Seq::<u16>::empty());
    for i in 0..g.len()
        invariant
            s@ == joined_groups(g@.take(i as int)),
    {
        assert(g@.take(i + 1).drop_last() =~= g@.take(i as int));
        if i > 0 {
            s.append(":");
        }
        s.append(text::hexadecimal_of(g[i] as u64).as_str());
        assert(s@ =~= joined_groups(g@.take(i + 1)));
    }
    assert(g@.take(g@.len() as int) =~= g@);
    s
}

/// The text of an IPv6 address.
fn v6_text_of(g: &[u16]) -> (r: String)
    ensures
        r@ == v6_text(g@),
{
    let mut start: usize = 0;
    let mut len: usize = 0;
    for i in 0..g.len()
        invariant
            longest_run(g@, i as nat) == (start as int, len as nat),
            start + len <= g@.len(),
    {
        let n: usize = zero_run_of(g, i);
        if n > len {
            start = i;
            len = n;
        }
    }
    if len >= 2 {
        let mut s = joined_groups_of(&g[0..start]);
        s.append("::");
        s.append(joined_groups_of(&g[start + len..g.len()]).as_str());
        assert(g@.subrange(0, start as int) =~= g@.take(start as int));
        assert(g@.subrange(start + len, g@.len() as int) =~= g@.skip(start + len));
        s
    } else {
        joined_groups_of(g)
    }
}

fn groups_of(b: &[u8]) -> (r: Vec<u16>)
    requires
        b@.len() == 16,
    ensures
        r@ == groups(b@),
{
    let mut g: Vec<u16> = Vec::new();
    for i in 0..8usize
        invariant
            b@.len() == 16,
            g@ == groups(b@).take(i as int),
    {
        g.push((b[2 * i] as u16) * 256 + (b[2 * i + 1] as u16));
        assert(g@ =~= groups(b@).take(i + 1));
    }
    assert(groups(b@).take(8) =~= groups(b@));
    g
}

/// The sixteen bytes of an IPv6 address as it is shown.
fn v6_name_of(b: &[u8]) -> (r: String)
    requires
        b@.len() == 16,
    ensures
        r@ == v6_name(b@),
{
    if zeros(b, 10) && b[10] == 255 && b[11] == 255 {
        normalize_v4(&b[12..16])
    } else if zeros(b, 15) && b[15] == 1 {
        "lo".to_owned()
    } else if zeros(b, 16) {
        "*".to_owned()
    } else {
        v6_text_of(groups_of(b).as_slice())
    }
}

/// The address part of a kernel `ADDR:PORT`.
fn kernel_addr_of(h: &[char]) -> (r: Option<String>)
    ensures
        r is Some <==> kernel_addr(h@) is Some,
        r matches Some(a) ==> kernel_addr(h@) == Some(a@),
{
    if h.len() == 8 {
        match text::uint_of(h, 16, 0xffff_ffff) {
            None => None,
            Some(v) => Some(normalize_v4(word_bytes(v).as_slice())),
        }
    } else if h.len() == 32 {
        let mut b: Vec<u8> = Vec::new();
        for w in 0..4usize
            invariant
                h@.len() == 32,
                b@.len() == w * 4,
                forall|x: int| 0 <= x < w ==> #[trigger] hex_word(h@, x) is Some,
                forall|i: int| 0 <= i < w * 4 ==> #[trigger] b@[i] == byte_of(hex_word(h@, i / 4)->0, i % 4),
        {
            let word = text::uint_of(&h[w * 8..w * 8 + 8], 16, 0xffff_ffff);
            match word {
                None => {
                    assert(hex_word(h@, w as int) is None);
                    return None;
                },
                Some(v) => {
                    assert(hex_word(h@, w as int) == Some(v as nat));
                    let mut q = word_bytes(v);
                    let ghost before = b@;
                    let ghost qs = q@;
                    b.append(&mut q);
                    assert(b@ =~= before + qs);
                    assert forall|i: int| 0 <= i < (w + 1) * 4 implies #[trigger] b@[i] == byte_of(
                        hex_word(h@, i / 4)->0,
                        i % 4,
                    ) by {
                        if i >= w * 4 {
                            assert(i / 4 == w && i % 4 == i - w * 4);
                        }
                    }
                },
            }
        }
        assert(b@ =~= Seq::new(16, |i: int| byte_of(hex_word(h@, i / 4)->0, i % 4)));
        Some(v6_name_of(b.as_slice()))
    } else {
        None
    }
}

/// Decodes a kernel `ADDR:PORT` from /proc/net/tcp and /proc/net/tcp6.
pub fn decode_hex_addr(s: &[char]) -> (r: Option<(String, u16)>)
    ensures
        r is Some <==> kernel_addr_port(s@) is Some,
        r matches Some((a, p)) ==> kernel_addr_port(s@) == Some((a@, p)),
{
    match text::split_once_of(s, ':') {
        None => None,
        Some((h, p)) => match text::uint_of(p, 16, 0xffff) {
            None => None,
            Some(n) => match kernel_addr_of(h) {
                None => None,
                Some(a) => Some((a, n as u16)),
            },
        },
    }
}

} // verus!
