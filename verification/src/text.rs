//! Text as sequences of characters: white space, lines, words, searching, numbers and order.
use vstd::prelude::*;
use crate::maps::MapKey;

verus! {

/// Appending to a string: `String::push` appends the given character to the end.
pub assume_specification[ String::push ](s: &mut String, c: char)
    ensures
        final(s)@ == old(s)@.push(c),
;

/// The characters with the Unicode property White_Space.
pub open spec fn is_white(c: char) -> bool {
    let n = c as u32;
    ||| 0x09 <= n <= 0x0d
    ||| n == 0x20
    ||| n == 0x85
    ||| n == 0xa0
    ||| n == 0x1680
    ||| 0x2000 <= n <= 0x200a
    ||| n == 0x2028
    ||| n == 0x2029
    ||| n == 0x202f
    ||| n == 0x205f
    ||| n == 0x3000
}

/// `s` without the white space at its start.
pub open spec fn trim_start(s: Seq<char>) -> Seq<char>
    decreases s.len(),
{
    if s.len() > 0 && is_white(s[0]) {
        trim_start(s.drop_first())
    } else {
        s
    }
}

/// `s` without the white space at its end.
pub open spec fn trim_end(s: Seq<char>) -> Seq<char>
    decreases s.len(),
{
    if s.len() > 0 && is_white(s.last()) {
        trim_end(s.drop_last())
    } else {
        s
    }
}

/// `s` without the white space at its two ends.
pub open spec fn trim(s: Seq<char>) -> Seq<char> {
    trim_end(trim_start(s))
}

/// The pieces of `s` between the separators `sep`: one more than there are separators.
pub open spec fn split_on(s: Seq<char>, sep: char) -> Seq<Seq<char>>
    decreases s.len(),
{
    if s.len() == 0 {
        seq![s]
    } else {
        let rest = split_on(s.drop_last(), sep);
        if s.last() == sep {
            rest.push(Seq::empty())
        } else {
            rest.drop_last().push(rest.last().push(s.last()))
        }
    }
}

/// A line without the carriage return at its end.
pub open spec fn strip_return(s: Seq<char>) -> Seq<char> {
    if s.len() > 0 && s.last() == '\r' {
        s.drop_last()
    } else {
        s
    }
}

/// The lines of `s`: each ends in a line feed, or in a carriage return and a line feed, which do
/// not belong to it; the last line need not have that ending.
pub open spec fn lines(s: Seq<char>) -> Seq<Seq<char>> {
    let pieces = split_on(s, '\n');
    let ended = Seq::new((pieces.len() - 1) as nat, |i: int| strip_return(pieces[i]));
    if pieces.last().len() == 0 {
        ended
    } else {
        ended.push(pieces.last())
    }
}

/// The maximal runs of characters that are not white space.
pub open spec fn words(s: Seq<char>) -> Seq<Seq<char>>
    decreases s.len(),
{
    if s.len() == 0 {
        Seq::empty()
    } else {
        let init = s.drop_last();
        let rest = words(init);
        if is_white(s.last()) {
            rest
        } else if init.len() == 0 || is_white(init.last()) {
            rest.push(seq![s.last()])
        } else {
            rest.drop_last().push(rest.last().push(s.last()))
        }
    }
}

/// `pat` stands in `s` at position `i`.
pub open spec fn occurs_at(s: Seq<char>, pat: Seq<char>, i: int) -> bool {
    0 <= i && i + pat.len() <= s.len() && s.subrange(i, i + pat.len()) == pat
}

/// `pat` stands somewhere in `s`.
pub open spec fn contains_text(s: Seq<char>, pat: Seq<char>) -> bool {
    exists|i: int| occurs_at(s, pat, i)
}

/// `pat` stands in `s` at position `i` and at none before it.
pub open spec fn first_at(s: Seq<char>, pat: Seq<char>, i: int) -> bool {
    occurs_at(s, pat, i) && forall|j: int| 0 <= j < i ==> !occurs_at(s, pat, j)
}

/// The first position of `pat` in `s`.
pub open spec fn find_text(s: Seq<char>, pat: Seq<char>) -> Option<int> {
    if contains_text(s, pat) {
        Some(choose|i: int| first_at(s, pat, i))
    } else {
        None
    }
}

/// `s` begins with `pat`.
pub open spec fn starts_with(s: Seq<char>, pat: Seq<char>) -> bool {
    occurs_at(s, pat, 0)
}

/// `s` ends with `pat`.
pub open spec fn ends_with(s: Seq<char>, pat: Seq<char>) -> bool {
    occurs_at(s, pat, s.len() - pat.len())
}

/// The first position of the character `c` in `s`.
pub open spec fn first_index(s: Seq<char>, c: char) -> int {
    choose|i: int| 0 <= i < s.len() && s[i] == c && !s.take(i).contains(c)
}

/// The last position of the character `c` in `s`.
pub open spec fn last_index(s: Seq<char>, c: char) -> int {
    choose|i: int| 0 <= i < s.len() && s[i] == c && !s.skip(i + 1).contains(c)
}

/// What stands before and after the first `c` in `s`.
pub open spec fn split_once(s: Seq<char>, c: char) -> Option<(Seq<char>, Seq<char>)> {
    if s.contains(c) {
        let i = first_index(s, c);
        Some((s.take(i), s.skip(i + 1)))
    } else {
        None
    }
}

/// What stands before and after the last `c` in `s`.
pub open spec fn rsplit_once(s: Seq<char>, c: char) -> Option<(Seq<char>, Seq<char>)> {
    if s.contains(c) {
        let i = last_index(s, c);
        Some((s.take(i), s.skip(i + 1)))
    } else {
        None
    }
}

/// `s` up to its first `c`, or the whole of `s` where there is none.
pub open spec fn until(s: Seq<char>, c: char) -> Seq<char> {
    if s.contains(c) {
        s.take(first_index(s, c))
    } else {
        s
    }
}

/// The value of a digit of a base up to 16; 16 for other characters.
pub open spec fn digit_value(c: char) -> nat {
    if '0' as nat <= c as nat <= '9' as nat {
        (c as nat - '0' as nat) as nat
    } else if 'a' as nat <= c as nat <= 'f' as nat {
        (c as nat - 'a' as nat + 10) as nat
    } else if 'A' as nat <= c as nat <= 'F' as nat {
        (c as nat - 'A' as nat + 10) as nat
    } else {
        16
    }
}

/// All characters of `s` are digits of base `radix`.
pub open spec fn all_digits(s: Seq<char>, radix: nat) -> bool {
    forall|i: int| 0 <= i < s.len() ==> digit_value(#[trigger] s[i]) < radix
}

/// The number that the digits `s` write in base `radix`.
pub open spec fn digits_value(s: Seq<char>, radix: nat) -> nat
    decreases s.len(),
{
    if s.len() == 0 {
        0
    } else {
        digits_value(s.drop_last(), radix) * radix + digit_value(s.last())
    }
}

/// The number that `s` writes in base `radix`: an optional plus sign and at least one digit, for a
/// number that is at most `max`.
pub open spec fn parse_uint(s: Seq<char>, radix: nat, max: nat) -> Option<nat> {
    let digits = if s.len() > 0 && s[0] == '+' {
        s.skip(1)
    } else {
        s
    };
    if digits.len() > 0 && all_digits(digits, radix) && digits_value(digits, radix) <= max {
        Some(digits_value(digits, radix))
    } else {
        None
    }
}

/// The decimal digit of a number below ten.
pub open spec fn decimal_digit(n: nat) -> char {
    ('0' as nat + n) as char
}

/// The decimal digits of `n`, without leading zeros.
pub open spec fn decimal(n: nat) -> Seq<char>
    decreases n,
{
    if n < 10 {
        seq![decimal_digit(n)]
    } else {
        decimal(n / 10).push(decimal_digit(n % 10))
    }
}

/// The order of texts: character by character, a proper prefix first.
pub open spec fn text_before(a: Seq<char>, b: Seq<char>) -> bool
    decreases a.len(),
{
    if b.len() == 0 {
        false
    } else if a.len() == 0 {
        true
    } else if a[0] != b[0] {
        a[0] < b[0]
    } else {
        text_before(a.drop_first(), b.drop_first())
    }
}

/// No text comes before itself.
pub proof fn lemma_text_irreflexive(a: Seq<char>)
    ensures
        !text_before(a, a),
    decreases a.len(),
{
    if a.len() > 0 {
        lemma_text_irreflexive(a.drop_first());
    }
}

/// What comes before something comes before all that follows it.
pub proof fn lemma_text_transitive(a: Seq<char>, b: Seq<char>, c: Seq<char>)
    requires
        text_before(a, b),
        text_before(b, c),
    ensures
        text_before(a, c),
    decreases a.len(),
{
    if a.len() > 0 && a[0] == b[0] && b[0] == c[0] {
        lemma_text_transitive(a.drop_first(), b.drop_first(), c.drop_first());
    }
}

/// Of two different texts one comes before the other.
pub proof fn lemma_text_total(a: Seq<char>, b: Seq<char>)
    ensures
        a == b || text_before(a, b) || text_before(b, a),
    decreases a.len(),
{
    if a.len() == 0 || b.len() == 0 {
        if a.len() == 0 && b.len() == 0 {
            assert(a =~= b);
        }
    } else if a[0] == b[0] {
        lemma_text_total(a.drop_first(), b.drop_first());
        if a.drop_first() == b.drop_first() {
            assert(a =~= seq![a[0]] + a.drop_first());
            assert(b =~= seq![b[0]] + b.drop_first());
        }
    }
}

impl MapKey for String {
    open spec fn before(a: Seq<char>, b: Seq<char>) -> bool {
        text_before(a, b)
    }

    proof fn before_irreflexive(a: Seq<char>) {
        lemma_text_irreflexive(a);
    }

    proof fn before_transitive(a: Seq<char>, b: Seq<char>, c: Seq<char>) {
        lemma_text_transitive(a, b, c);
    }

    proof fn before_total(a: Seq<char>, b: Seq<char>) {
        lemma_text_total(a, b);
    }

    fn precedes(&self, other: &String) -> (r: bool) {
        text_precedes(self.as_str(), other.as_str())
    }

    fn copy_key(&self) -> (r: String) {
        self.clone()
    }
}

/// The characters of a string.
pub fn chars_of(s: &str) -> (r: Vec<char>)
    ensures
        r@ == s@,
{
    let mut v: Vec<char> = Vec::new();
    for c in it: s.chars()
        invariant
            v@ == it.seq().take(it.index()),
            it.seq() == s@,
    {
        v.push(c);
    }
    v
}

/// The string of the characters.
pub fn text_of(cs: &[char]) -> (r: String)
    ensures
        r@ == cs@,
{
    let mut s = String::new();
    for i in 0..cs.len()
        invariant
            s@ == cs@.take(i as int),
    {
        s.push(cs[i]);
    }
    s
}

/// Whether `a` comes strictly before `b` in the order of texts.
pub fn text_precedes(a: &str, b: &str) -> (r: bool)
    ensures
        r == text_before(a@, b@),
{
    let x = chars_of(a);
    let y = chars_of(b);
    let mut i: usize = 0;
    assert(x@.skip(0) =~= x@ && y@.skip(0) =~= y@);
    while i < x.len() && i < y.len()
        invariant
            x@ == a@,
            y@ == b@,
            i <= x@.len(),
            i <= y@.len(),
            text_before(x@, y@) == text_before(x@.skip(i as int), y@.skip(i as int)),
        decreases x@.len() - i,
    {
        let c: char = x[i];
        let d: char = y[i];
        if c != d {
            assert(x@.skip(i as int)[0] == c && y@.skip(i as int)[0] == d);
            return c < d;
        }
        proof {
            assert(x@.skip(i as int).drop_first() =~= x@.skip(i + 1));
            assert(y@.skip(i as int).drop_first() =~= y@.skip(i + 1));
        }
        i = i + 1;
    }
    i < y.len()
}

/// The texts that the vectors hold.
pub open spec fn texts(v: Seq<Vec<char>>) -> Seq<Seq<char>> {
    Seq::new(v.len(), |i: int| v[i]@)
}

/// The texts that the strings hold.
pub open spec fn string_texts(v: Seq<String>) -> Seq<Seq<char>> {
    Seq::new(v.len(), |i: int| v[i]@)
}

/// Whether a character is white space.
pub fn white(c: char) -> (r: bool)
    ensures
        r == is_white(c),
{
    let n: u32 = c as u32;
    (0x09 <= n && n <= 0x0d) || n == 0x20 || n == 0x85 || n == 0xa0 || n == 0x1680 || (0x2000 <= n
        && n <= 0x200a) || n == 0x2028 || n == 0x2029 || n == 0x202f || n == 0x205f || n == 0x3000
}

/// The slice without the white space at its start.
pub fn trim_start_of(s: &[char]) -> (r: &[char])
    ensures
        r@ == trim_start(s@),
{
    let mut i: usize = 0;
    assert(s@.skip(0) =~= s@);
    while i < s.len() && white(s[i])
        invariant
            i <= s@.len(),
            trim_start(s@) == trim_start(s@.skip(i as int)),
        decreases s@.len() - i,
    {
        assert(s@.skip(i as int).drop_first() =~= s@.skip(i + 1));
        i = i + 1;
    }
    &s[i..s.len()]
}

/// The slice without the white space at its end.
pub fn trim_end_of(s: &[char]) -> (r: &[char])
    ensures
        r@ == trim_end(s@),
{
    let mut j: usize = s.len();
    assert(s@.take(j as int) =~= s@);
    while j > 0 && white(s[j - 1])
        invariant
            j <= s@.len(),
            trim_end(s@) == trim_end(s@.take(j as int)),
        decreases j,
    {
        assert(s@.take(j as int).drop_last() =~= s@.take(j - 1));
        j = j - 1;
    }
    &s[0..j]
}

/// The slice without the white space at its two ends.
pub fn trim_of(s: &[char]) -> (r: &[char])
    ensures
        r@ == trim(s@),
{
    trim_end_of(trim_start_of(s))
}

/// The pieces between the separators.
pub fn split_of(s: &[char], sep: char) -> (r: Vec<Vec<char>>)
    ensures
        texts(r@) == split_on(s@, sep),
        r@.len() > 0,
{
    let mut out: Vec<Vec<char>> = Vec::new();
    let mut cur: Vec<char> = Vec::new();
    assert(s@.take(0) =~= cur@);
    assert(texts(out@).push(cur@) =~= split_on(s@.take(0), sep));
    for i in 0..s.len()
        invariant
            texts(out@).push(cur@) == split_on(s@.take(i as int), sep),
    {
        let ghost before = texts(out@);
        assert(s@.take(i + 1).drop_last() =~= s@.take(i as int));
        let c: char = s[i];
        if c == sep {
            out.push(cur);
            cur = Vec::new();
            assert(texts(out@).push(cur@) =~= split_on(s@.take(i as int), sep).push(Seq::empty()));
        } else {
            cur.push(c);
            assert(before.push(cur@) =~= split_on(s@.take(i + 1), sep));
        }
    }
    assert(s@.take(s@.len() as int) =~= s@);
    let ghost before = texts(out@);
    let ghost last = cur@;
    out.push(cur);
    assert(texts(out@) =~= before.push(last));
    out
}

/// The lines of a text.
pub fn lines_of(s: &[char]) -> (r: Vec<Vec<char>>)
    ensures
        texts(r@) == lines(s@),
{
    let mut parts = split_of(s, '\n');
    let ghost pieces = texts(parts@);
    let mut out: Vec<Vec<char>> = Vec::new();
    let n: usize = parts.len() - 1;
    let ghost ended = Seq::new((pieces.len() - 1) as nat, |i: int| strip_return(pieces[i]));
    for i in 0..n
        invariant
            parts@.len() == n + 1,
            pieces == texts(parts@),
            ended == Seq::new((pieces.len() - 1) as nat, |i: int| strip_return(pieces[i])),
            texts(out@) == ended.take(i as int),
    {
        let ghost before = texts(out@);
        let mut line: Vec<char> = Vec::new();
        let src: &Vec<char> = &parts[i];
        let m: usize = if src.len() > 0 && src[src.len() - 1] == '\r' {
            src.len() - 1
        } else {
            src.len()
        };
        for j in 0..m
            invariant
                m <= src@.len(),
                line@ == src@.take(j as int),
        {
            line.push(src[j]);
        }
        assert(pieces[i as int] == src@);
        assert(src@.take(src@.len() as int) =~= src@);
        assert(line@ =~= strip_return(src@));
        out.push(line);
        assert(texts(out@) =~= before.push(line@));
        assert(ended.take(i + 1) =~= ended.take(i as int).push(ended[i as int]));
    }
    assert(ended.take(n as int) =~= ended);
    assert(pieces.last() == parts@[n as int]@);
    if parts[n].len() > 0 {
        let ghost before = texts(out@);
        let last = parts.remove(n);
        let ghost l = last@;
        out.push(last);
        assert(texts(out@) =~= before.push(l));
    }
    out
}

/// The words of a text.
pub fn words_of(s: &[char]) -> (r: Vec<Vec<char>>)
    ensures
        texts(r@) == words(s@),
{
    let mut out: Vec<Vec<char>> = Vec::new();
    let mut cur: Vec<char> = Vec::new();
    assert(texts(out@) =~= words(s@.take(0)));
    for i in 0..s.len()
        invariant
            cur@.len() > 0 <==> (i > 0 && !is_white(s@[i - 1])),
            words(s@.take(i as int)) == (if cur@.len() > 0 {
                texts(out@).push(cur@)
            } else {
                texts(out@)
            }),
    {
        let ghost before = texts(out@);
        let ghost held = cur@;
        assert(s@.take(i + 1).drop_last() =~= s@.take(i as int));
        let c: char = s[i];
        if white(c) {
            if cur.len() > 0 {
                out.push(cur);
                cur = Vec::new();
                assert(texts(out@) =~= before.push(held));
            }
        } else {
            cur.push(c);
            proof {
                if held.len() == 0 {
                    assert(cur@ =~= seq![c]);
                } else {
                    assert(before.push(held).drop_last() =~= before);
                }
                assert(before.push(cur@) =~= words(s@.take(i + 1)));
            }
        }
    }
    assert(s@.take(s@.len() as int) =~= s@);
    if cur.len() > 0 {
        let ghost before = texts(out@);
        let ghost last = cur@;
        out.push(cur);
        assert(texts(out@) =~= before.push(last));
    }
    out
}

/// Whether `pat` stands in `s` at position `i`.
fn matches_at(s: &[char], pat: &[char], i: usize) -> (r: bool)
    requires
        i + pat@.len() <= s@.len(),
    ensures
        r == occurs_at(s@, pat@, i as int),
{
    let n: usize = s.len();
    for j in 0..pat.len()
        invariant
            i + pat@.len() <= s@.len(),
            n == s@.len(),
            forall|k: int| 0 <= k < j ==> s@[i + k] == pat@[k],
    {
        if s[i + j] != pat[j] {
            assert(s@.subrange(i as int, i + pat@.len())[j as int] != pat@[j as int]);
            return false;
        }
    }
    assert(s@.subrange(i as int, i + pat@.len()) =~= pat@);
    true
}

/// A first position is the one that [`find_text`] gives.
pub proof fn lemma_first_at(s: Seq<char>, pat: Seq<char>, i: int)
    requires
        first_at(s, pat, i),
    ensures
        find_text(s, pat) == Some(i),
{
    let k = choose|k: int| first_at(s, pat, k);
    assert(first_at(s, pat, k));
    if k < i {
        assert(!occurs_at(s, pat, k));
    } else if i < k {
        assert(!occurs_at(s, pat, i));
    }
}

/// The first position of `pat` in `s`.
pub fn find_of(s: &[char], pat: &str) -> (r: Option<usize>)
    ensures
        r is Some <==> contains_text(s@, pat@),
        r is Some <==> find_text(s@, pat@) is Some,
        r matches Some(i) ==> find_text(s@, pat@) == Some(i as int) && i + pat@.len() <= s@.len(),
{
    let p = chars_of(pat);
    if p.len() > s.len() {
        return None;
    }
    let last: usize = s.len() - p.len();
    let mut i: usize = 0;
    while i <= last
        invariant
            p@ == pat@,
            last == s@.len() - p@.len(),
            i <= last + 1,
            forall|j: int| 0 <= j < i ==> !occurs_at(s@, pat@, j),
        decreases last + 1 - i,
    {
        if matches_at(s, p.as_slice(), i) {
            proof {
                lemma_first_at(s@, pat@, i as int);
            }
            return Some(i);
        }
        if i == last {
            assert forall|j: int| !occurs_at(s@, pat@, j) by {
                if occurs_at(s@, pat@, j) {
                    assert(0 <= j <= last);
                }
            }
            return None;
        }
        i = i + 1;
    }
    None
}

/// Whether `pat` stands somewhere in `s`.
pub fn has_text(s: &[char], pat: &str) -> (r: bool)
    ensures
        r == contains_text(s@, pat@),
{
    find_of(s, pat).is_some()
}

/// Whether `s` begins with `pat`.
pub fn begins(s: &[char], pat: &str) -> (r: bool)
    ensures
        r == starts_with(s@, pat@),
        r ==> pat@.len() <= s@.len(),
{
    let p = chars_of(pat);
    p.len() <= s.len() && matches_at(s, p.as_slice(), 0)
}

/// What follows `pat` at the start of `s`.
pub fn strip_of<'a>(s: &'a [char], pat: &str) -> (r: Option<&'a [char]>)
    ensures
        r is Some <==> starts_with(s@, pat@),
        r matches Some(t) ==> t@ == s@.skip(pat@.len() as int),
{
    let p = chars_of(pat);
    if p.len() <= s.len() && matches_at(s, p.as_slice(), 0) {
        Some(&s[p.len()..s.len()])
    } else {
        None
    }
}

/// Whether `s` ends with `pat`.
pub fn ends(s: &[char], pat: &str) -> (r: bool)
    ensures
        r == ends_with(s@, pat@),
{
    let p = chars_of(pat);
    p.len() <= s.len() && matches_at(s, p.as_slice(), s.len() - p.len())
}

/// Whether `s` is the text `lit`.
pub fn is_text(s: &[char], lit: &str) -> (r: bool)
    ensures
        r == (s@ == lit@),
{
    let p = chars_of(lit);
    if p.len() != s.len() {
        return false;
    }
    let r = matches_at(s, p.as_slice(), 0);
    assert(s@.subrange(0, s@.len() as int) =~= s@);
    r
}

/// Whether two texts are the same.
pub fn same_text(a: &str, b: &str) -> (r: bool)
    ensures
        r == (a@ == b@),
{
    let x = chars_of(a);
    is_text(x.as_slice(), b)
}

/// The first position of a character.
pub fn first_of(s: &[char], c: char) -> (r: Option<usize>)
    ensures
        r is Some <==> s@.contains(c),
        r matches Some(i) ==> i < s@.len() && s@[i as int] == c && i == first_index(s@, c),
{
    for i in 0..s.len()
        invariant
            forall|j: int| 0 <= j < i ==> s@[j] != c,
    {
        if s[i] == c {
            proof {
                let k = first_index(s@, c);
                assert(!s@.take(i as int).contains(c));
                assert(0 <= k < s@.len() && s@[k] == c && !s@.take(k).contains(c));
                if i < k {
                    assert(s@.take(k)[i as int] == c);
                }
            }
            return Some(i);
        }
    }
    None
}

/// The last position of a character.
pub fn last_of(s: &[char], c: char) -> (r: Option<usize>)
    ensures
        r is Some <==> s@.contains(c),
        r matches Some(i) ==> i < s@.len() && s@[i as int] == c && i == last_index(s@, c),
{
    let mut i: usize = s.len();
    while i > 0
        invariant
            i <= s@.len(),
            forall|j: int| i <= j < s@.len() ==> s@[j] != c,
        decreases i,
    {
        i = i - 1;
        if s[i] == c {
            proof {
                let k = last_index(s@, c);
                assert(!s@.skip(i + 1).contains(c));
                assert(0 <= k < s@.len() && s@[k] == c && !s@.skip(k + 1).contains(c));
                if k < i {
                    assert(s@.skip(k + 1)[i - k - 1] == c);
                }
            }
            return Some(i);
        }
    }
    None
}

/// The first `i` characters.
pub fn front(s: &[char], i: usize) -> (r: &[char])
    requires
        i <= s@.len(),
    ensures
        r@ == s@.take(i as int),
{
    &s[0..i]
}

/// What follows the first `i` characters.
pub fn back(s: &[char], i: usize) -> (r: &[char])
    requires
        i <= s@.len(),
    ensures
        r@ == s@.skip(i as int),
{
    &s[i..s.len()]
}

/// What stands before and after the first `c`.
pub fn split_once_of(s: &[char], c: char) -> (r: Option<(&[char], &[char])>)
    ensures
        r is Some <==> split_once(s@, c) is Some,
        r matches Some((a, b)) ==> split_once(s@, c) == Some((a@, b@)),
{
    match first_of(s, c) {
        Some(i) => {
            assert(i < s.len());
            Some((front(s, i), back(s, i + 1)))
        },
        None => None,
    }
}

/// What stands before and after the last `c`.
pub fn rsplit_once_of(s: &[char], c: char) -> (r: Option<(&[char], &[char])>)
    ensures
        r is Some <==> rsplit_once(s@, c) is Some,
        r matches Some((a, b)) ==> rsplit_once(s@, c) == Some((a@, b@)),
{
    match last_of(s, c) {
        Some(i) => {
            assert(i < s.len());
            Some((front(s, i), back(s, i + 1)))
        },
        None => None,
    }
}

/// The text up to the first `c`.
pub fn until_of(s: &[char], c: char) -> (r: &[char])
    ensures
        r@ == until(s@, c),
{
    match first_of(s, c) {
        Some(i) => &s[0..i],
        None => s,
    }
}

/// The value of a digit of a base up to 16; 16 for other characters.
pub fn digit_of(c: char) -> (r: u32)
    ensures
        r == digit_value(c),
        r <= 16,
{
    let n: u32 = c as u32;
    if 48 <= n && n <= 57 {
        n - 48
    } else if 97 <= n && n <= 102 {
        n - 87
    } else if 65 <= n && n <= 70 {
        n - 55
    } else {
        16
    }
}

proof fn lemma_digits_grow(s: Seq<char>, radix: nat, i: int)
    requires
        0 <= i <= s.len(),
        1 <= radix,
    ensures
        digits_value(s.take(i), radix) <= digits_value(s, radix),
    decreases s.len() - i,
{
    if i < s.len() {
        lemma_digits_grow(s, radix, i + 1);
        let t = s.take(i + 1);
        assert(t.drop_last() =~= s.take(i));
        assert(digits_value(t, radix) == digits_value(s.take(i), radix) * radix + digit_value(t.last()));
        assert(digits_value(s.take(i), radix) * radix >= digits_value(s.take(i), radix)) by (nonlinear_arith)
            requires
                1 <= radix,
        ;
    } else {
        assert(s.take(i) =~= s);
    }
}

/// The number that a text writes in base `radix`.
pub fn uint_of(s: &[char], radix: u32, max: u64) -> (r: Option<u64>)
    requires
        2 <= radix <= 16,
    ensures
        r is Some <==> parse_uint(s@, radix as nat, max as nat) is Some,
        r matches Some(n) ==> parse_uint(s@, radix as nat, max as nat) == Some(n as nat) && n <= max,
{
    let d: &[char] = if s.len() > 0 && s[0] == '+' {
        &s[1..s.len()]
    } else {
        s
    };
    let ghost digits = if s@.len() > 0 && s@[0] == '+' {
        s@.skip(1)
    } else {
        s@
    };
    assert(d@ =~= digits);
    if d.len() == 0 {
        return None;
    }
    let mut acc: u64 = 0;
    for i in 0..d.len()
        invariant
            2 <= radix <= 16,
            acc <= max,
            acc == digits_value(d@.take(i as int), radix as nat),
            forall|j: int| 0 <= j < i ==> digit_value(#[trigger] d@[j]) < radix,
            d@ == digits,
            digits == (if s@.len() > 0 && s@[0] == '+' {
                s@.skip(1)
            } else {
                s@
            }),
    {
        let v: u32 = digit_of(d[i]);
        if v >= radix {
            assert(!all_digits(d@, radix as nat));
            return None;
        }
        assert(d@.take(i + 1).drop_last() =~= d@.take(i as int));
        assert(acc as int * radix as int <= 16 * max as int) by (nonlinear_arith)
            requires
                acc <= max,
                radix <= 16,
        ;
        assert(0 <= acc as int * radix as int) by (nonlinear_arith);
        let next: u128 = (acc as u128) * (radix as u128) + (v as u128);
        if next > max as u128 {
            proof {
                lemma_digits_grow(d@, radix as nat, i + 1);
            }
            return None;
        }
        acc = next as u64;
    }
    assert(d@.take(d@.len() as int) =~= d@);
    Some(acc)
}

/// A decimal number of sixteen bits.
pub fn port_of(s: &[char]) -> (r: Option<u16>)
    ensures
        r is Some <==> parse_uint(s@, 10, 0xffff) is Some,
        r matches Some(n) ==> parse_uint(s@, 10, 0xffff) == Some(n as nat),
{
    match uint_of(s, 10, 0xffff) {
        Some(n) => Some(n as u16),
        None => None,
    }
}

/// The decimal digits of a number.
pub fn decimal_of(n: u64) -> (r: String)
    ensures
        r@ == decimal(n as nat),
    decreases n,
{
    let d: u8 = (n % 10) as u8;
    let c: char = (48u8 + d) as char;
    assert(c == decimal_digit((n % 10) as nat));
    if n < 10 {
        let mut s = String::new();
        s.push(c);
        assert(s@ =~= decimal(n as nat));
        s
    } else {
        let mut s = decimal_of(n / 10);
        s.push(c);
        s
    }
}

/// `s` without the characters `a` and `b` at its start.
pub open spec fn strip_front(s: Seq<char>, a: char, b: char) -> Seq<char>
    decreases s.len(),
{
    if s.len() > 0 && (s[0] == a || s[0] == b) {
        strip_front(s.drop_first(), a, b)
    } else {
        s
    }
}

/// `s` without the characters `a` and `b` at its end.
pub open spec fn strip_back(s: Seq<char>, a: char, b: char) -> Seq<char>
    decreases s.len(),
{
    if s.len() > 0 && (s.last() == a || s.last() == b) {
        strip_back(s.drop_last(), a, b)
    } else {
        s
    }
}

/// `s` without the characters `a` and `b` at its two ends.
pub open spec fn strip_ends(s: Seq<char>, a: char, b: char) -> Seq<char> {
    strip_back(strip_front(s, a, b), a, b)
}

/// The slice without the characters `a` and `b` at its two ends.
pub fn strip_ends_of(s: &[char], a: char, b: char) -> (r: &[char])
    ensures
        r@ == strip_ends(s@, a, b),
{
    let mut i: usize = 0;
    assert(s@.skip(0) =~= s@);
    while i < s.len() && (s[i] == a || s[i] == b)
        invariant
            i <= s@.len(),
            strip_front(s@, a, b) == strip_front(s@.skip(i as int), a, b),
        decreases s@.len() - i,
    {
        assert(s@.skip(i as int).drop_first() =~= s@.skip(i + 1));
        i = i + 1;
    }
    let t = back(s, i);
    assert(t@ == strip_front(s@, a, b));
    let mut j: usize = t.len();
    assert(t@.take(j as int) =~= t@);
    while j > 0 && (t[j - 1] == a || t[j - 1] == b)
        invariant
            j <= t@.len(),
            strip_back(t@, a, b) == strip_back(t@.take(j as int), a, b),
        decreases j,
    {
        assert(t@.take(j as int).drop_last() =~= t@.take(j - 1));
        j = j - 1;
    }
    front(t, j)
}

/// Copies of strings.
pub fn copy_strings(v: &Vec<String>) -> (r: Vec<String>)
    ensures
        string_texts(r@) == string_texts(v@),
{
    let mut out: Vec<String> = Vec::new();
    for i in 0..v.len()
        invariant
            string_texts(out@) == string_texts(v@).take(i as int),
    {
        let ghost before = string_texts(out@);
        out.push(v[i].clone());
        assert(string_texts(out@) =~= before.push(v@[i as int]@));
        assert(string_texts(v@).take(i + 1) =~= before.push(v@[i as int]@));
    }
    assert(string_texts(out@) =~= string_texts(v@));
    out
}

/// A digit of a hexadecimal number.
pub open spec fn hex_digit(n: nat) -> char {
    if n < 10 {
        ('0' as u32 + n) as char
    } else {
        ('a' as u32 + n - 10) as char
    }
}

/// A digit of a hexadecimal number.
pub fn hex_digit_of(n: u64) -> (r: char)
    requires
        n < 16,
    ensures
        r == hex_digit(n as nat),
{
    if n < 10 {
        (48u8 + n as u8) as char
    } else {
        (87u8 + n as u8) as char
    }
}

/// The hexadecimal digits of `n`, in lower case and without leading zeros.
pub open spec fn hexadecimal(n: nat) -> Seq<char>
    decreases n,
{
    if n < 16 {
        seq![hex_digit(n)]
    } else {
        hexadecimal(n / 16).push(hex_digit(n % 16))
    }
}

/// The hexadecimal digits of a number.
pub fn hexadecimal_of(n: u64) -> (r: String)
    ensures
        r@ == hexadecimal(n as nat),
    decreases n,
{
    let mut s = if n < 16 {
        String::new()
    } else {
        hexadecimal_of(n / 16)
    };
    s.push(hex_digit_of(n % 16));
    assert(s@ =~= hexadecimal(n as nat));
    s
}

} // verus!
