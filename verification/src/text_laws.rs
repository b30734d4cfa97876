//! What holds of text: how lines, words and numbers are read, and how texts are ordered.
use vstd::prelude::*;
use crate::laws;
use crate::text;

verus! {

/// White space is what Unicode calls so, one by one.
pub proof fn white_space_is_listed(c: char)
    ensures
        text::is_white(c) <==> seq![
            0x09u32, 0x0a, 0x0b, 0x0c, 0x0d, 0x20, 0x85, 0xa0, 0x1680, 0x2000, 0x2001, 0x2002,
            0x2003, 0x2004, 0x2005, 0x2006, 0x2007, 0x2008, 0x2009, 0x200a, 0x2028, 0x2029, 0x202f,
            0x205f, 0x3000,
        ].contains(c as u32),
{
    let all = seq![
        0x09u32, 0x0a, 0x0b, 0x0c, 0x0d, 0x20, 0x85, 0xa0, 0x1680, 0x2000, 0x2001, 0x2002, 0x2003,
        0x2004, 0x2005, 0x2006, 0x2007, 0x2008, 0x2009, 0x200a, 0x2028, 0x2029, 0x202f, 0x205f,
        0x3000,
    ];
    let n = c as u32;
    assert(all[0] == 0x09 && all[1] == 0x0a && all[2] == 0x0b && all[3] == 0x0c && all[4] == 0x0d);
    assert(all[5] == 0x20 && all[6] == 0x85 && all[7] == 0xa0 && all[8] == 0x1680);
    assert(all[9] == 0x2000 && all[10] == 0x2001 && all[11] == 0x2002 && all[12] == 0x2003);
    assert(all[13] == 0x2004 && all[14] == 0x2005 && all[15] == 0x2006 && all[16] == 0x2007);
    assert(all[17] == 0x2008 && all[18] == 0x2009 && all[19] == 0x200a && all[20] == 0x2028);
    assert(all[21] == 0x2029 && all[22] == 0x202f && all[23] == 0x205f && all[24] == 0x3000);
    if all.contains(n) {
        let i = choose|i: int| 0 <= i < all.len() && all[i] == n;
        assert(0 <= i < 25);
    }
}

/// A text without white space.
pub open spec fn solid(s: Seq<char>) -> bool {
    forall|i: int| 0 <= i < s.len() ==> !text::is_white(#[trigger] s[i])
}

/// A text of white space only.
pub open spec fn hollow(s: Seq<char>) -> bool {
    forall|i: int| 0 <= i < s.len() ==> text::is_white(#[trigger] s[i])
}

proof fn lemma_word_grows(s: Seq<char>, w: Seq<char>)
    requires
        s.len() == 0 || text::is_white(s.last()),
        w.len() > 0,
        solid(w),
    ensures
        text::words(s + w) == text::words(s).push(w),
    decreases w.len(),
{
    let all = s + w;
    let init = w.drop_last();
    assert(all.drop_last() =~= s + init);
    assert(all.last() == w.last());
    assert(w[w.len() - 1] == w.last());
    if init.len() == 0 {
        assert(s + init =~= s);
        assert(seq![w.last()] =~= w);
    } else {
        assert forall|i: int| 0 <= i < init.len() implies !text::is_white(#[trigger] init[i]) by {
            assert(init[i] == w[i]);
        }
        lemma_word_grows(s, init);
        assert((s + init).last() == init.last());
        assert(init[init.len() - 1] == init.last());
        let before = text::words(s).push(init);
        assert(before.drop_last() =~= text::words(s));
        assert(init.push(w.last()) =~= w);
    }
}

/// The words of a text are what stands between white space, in order, and white space makes no word.
pub proof fn words_stand_between_white_space(s: Seq<char>, gap: char, w: Seq<char>)
    requires
        text::is_white(gap),
        w.len() > 0,
        solid(w),
    ensures
        text::words(Seq::empty()) == Seq::<Seq<char>>::empty(),
        text::words(w) == seq![w],
        text::words(s.push(gap)) == text::words(s),
        text::words(s.push(gap) + w) == text::words(s).push(w),
{
    let none = Seq::<char>::empty();
    lemma_word_grows(none, w);
    assert(none + w =~= w);
    assert(text::words(none).push(w) =~= seq![w]);
    assert(s.push(gap).drop_last() =~= s);
    assert(s.push(gap).last() == gap);
    lemma_word_grows(s.push(gap), w);
}

proof fn lemma_split_first(l: Seq<char>, sep: char, rest: Seq<char>)
    requires
        !l.contains(sep),
    ensures
        text::split_on(l, sep) == seq![l],
        text::split_on(l.push(sep) + rest, sep) == seq![l] + text::split_on(rest, sep),
        text::split_on(rest, sep).len() > 0,
    decreases l.len(), rest.len(),
{
    let none = Seq::<char>::empty();
    if l.len() > 0 {
        let init = l.drop_last();
        assert forall|i: int| 0 <= i < init.len() implies init[i] != sep by {
            assert(l.contains(l[i]));
        }
        lemma_split_first(init, sep, none);
        assert(l.contains(l[l.len() - 1]));
        assert(init.push(l.last()) =~= l);
        assert(seq![init].drop_last().push(l) =~= seq![l]);
        assert(text::split_on(l, sep) =~= seq![l]);
    } else {
        assert(l =~= none);
    }
    let all = l.push(sep) + rest;
    if rest.len() == 0 {
        assert(all =~= l.push(sep));
        assert(all.drop_last() =~= l);
        assert(rest =~= none);
        assert(text::split_on(rest, sep) =~= seq![none]);
        assert(text::split_on(all, sep) =~= seq![l] + seq![none]);
    } else {
        let init = rest.drop_last();
        lemma_split_first(l, sep, init);
        assert(all.drop_last() =~= l.push(sep) + init);
        assert(all.last() == rest.last());
        let p = text::split_on(init, sep);
        assert((seq![l] + p).drop_last() =~= seq![l] + p.drop_last());
        assert((seq![l] + p).last() == p.last());
        assert(text::split_on(all, sep) =~= seq![l] + text::split_on(rest, sep));
    }
}

/// A separator ends the first piece of a text, and the pieces of the rest follow.
pub proof fn pieces_stand_between_separators(piece: Seq<char>, sep: char, rest: Seq<char>)
    requires
        !piece.contains(sep),
    ensures
        text::split_on(piece, sep) == seq![piece],
        text::split_on(piece.push(sep) + rest, sep) == seq![piece] + text::split_on(rest, sep),
{
    lemma_split_first(piece, sep, rest);
}

/// A line feed ends a line, and so does a carriage return before one; the lines of the rest follow.
/// What stands behind the last line feed is a line too, unless it is nothing.
pub proof fn lines_end_at_line_feeds(l: Seq<char>, rest: Seq<char>)
    requires
        !l.contains('\n'),
    ensures
        text::lines(Seq::empty()) == Seq::<Seq<char>>::empty(),
        l.len() > 0 ==> text::lines(l) == seq![l],
        l.len() == 0 || l.last() != '\r' ==> text::lines(l.push('\n') + rest) == seq![l]
            + text::lines(rest),
        text::lines(l.push('\r').push('\n') + rest) == seq![l] + text::lines(rest),
{
    let none = Seq::<char>::empty();
    lemma_split_first(none, '\n', none);
    assert(text::lines(none) =~= Seq::<Seq<char>>::empty());
    lemma_split_first(l, '\n', rest);
    if l.len() > 0 {
        assert(text::lines(l) =~= seq![l]);
    }
    lemma_lines_first(l, rest);
    let m = l.push('\r');
    assert(!m.contains('\n')) by {
        assert forall|i: int| 0 <= i < m.len() implies m[i] != '\n' by {
            if i < l.len() {
                assert(l.contains(l[i]));
            }
        }
    }
    lemma_lines_first(m, rest);
    assert(m.drop_last() =~= l);
}

proof fn lemma_lines_first(l: Seq<char>, rest: Seq<char>)
    requires
        !l.contains('\n'),
    ensures
        text::lines(l.push('\n') + rest) == seq![text::strip_return(l)] + text::lines(rest),
{
    lemma_split_first(l, '\n', rest);
    let p = text::split_on(rest, '\n');
    let q = text::split_on(l.push('\n') + rest, '\n');
    assert(q.last() == p.last());
    assert(text::lines(l.push('\n') + rest) =~= seq![text::strip_return(l)] + text::lines(rest));
}

pub proof fn lemma_trim_front(a: Seq<char>, m: Seq<char>)
    requires
        hollow(a),
        m.len() == 0 || !text::is_white(m[0]),
    ensures
        text::trim_start(a + m) == m,
    decreases a.len(),
{
    if a.len() > 0 {
        assert((a + m)[0] == a[0]);
        assert((a + m).drop_first() =~= a.drop_first() + m);
        assert forall|i: int| 0 <= i < a.drop_first().len() implies text::is_white(
            #[trigger] a.drop_first()[i],
        ) by {
            assert(a.drop_first()[i] == a[i + 1]);
        }
        lemma_trim_front(a.drop_first(), m);
    } else {
        assert(a + m =~= m);
    }
}

proof fn lemma_trim_end(m: Seq<char>, b: Seq<char>)
    requires
        hollow(b),
        m.len() == 0 || !text::is_white(m.last()),
    ensures
        text::trim_end(m + b) == m,
    decreases b.len(),
{
    if b.len() > 0 {
        assert((m + b).last() == b[b.len() - 1]);
        assert((m + b).drop_last() =~= m + b.drop_last());
        assert forall|i: int| 0 <= i < b.drop_last().len() implies text::is_white(
            #[trigger] b.drop_last()[i],
        ) by {
            assert(b.drop_last()[i] == b[i]);
        }
        lemma_trim_end(m, b.drop_last());
    } else {
        assert(m + b =~= m);
    }
}

/// Trimming takes away exactly the white space at the two ends.
pub proof fn trimming_leaves_the_middle(a: Seq<char>, m: Seq<char>, b: Seq<char>)
    requires
        hollow(a),
        hollow(b),
        m.len() > 0 ==> !text::is_white(m[0]) && !text::is_white(m.last()),
    ensures
        text::trim(a + m + b) == m,
        text::trim_start(a + m) == m,
{
    if m.len() == 0 {
        let all = a + m + b;
        assert forall|i: int| 0 <= i < all.len() implies text::is_white(#[trigger] all[i]) by {
            if i < a.len() {
                assert(all[i] == a[i]);
            } else {
                assert(all[i] == b[i - a.len()]);
            }
        }
        assert(all =~= all + m);
        lemma_trim_front(all, m);
        assert(m + m =~= m);
        lemma_trim_end(m, m);
        lemma_trim_front(a, m);
    } else {
        assert(a + m + b =~= a + (m + b));
        assert((m + b)[0] == m[0]);
        lemma_trim_front(a, m + b);
        lemma_trim_end(m, b);
        lemma_trim_front(a, m);
    }
}

/// Every text is white space, a middle, and white space, and trimming gives that middle.
pub proof fn lemma_trim_parts(s: Seq<char>) -> (r: (Seq<char>, Seq<char>))
    ensures
        hollow(r.0),
        hollow(r.1),
        s == r.0 + text::trim(s) + r.1,
        text::trim(s).len() > 0 ==> !text::is_white(text::trim(s)[0]) && !text::is_white(
            text::trim(s).last(),
        ),
{
    let t = text::trim_start(s);
    let a = lemma_start_parts(s);
    let b = lemma_end_parts(t);
    let m = text::trim(s);
    assert(s =~= a + m + b);
    if m.len() > 0 {
        assert(t[0] == m[0]);
    }
    (a, b)
}

proof fn lemma_start_parts(s: Seq<char>) -> (a: Seq<char>)
    ensures
        hollow(a),
        s == a + text::trim_start(s),
        text::trim_start(s).len() > 0 ==> !text::is_white(text::trim_start(s)[0]),
    decreases s.len(),
{
    if s.len() > 0 && text::is_white(s[0]) {
        let b = lemma_start_parts(s.drop_first());
        let a = seq![s[0]] + b;
        assert forall|i: int| 0 <= i < a.len() implies text::is_white(#[trigger] a[i]) by {
            if i > 0 {
                assert(a[i] == b[i - 1]);
            }
        }
        assert(s =~= seq![s[0]] + s.drop_first());
        assert(s =~= a + text::trim_start(s));
        a
    } else {
        assert(s =~= Seq::<char>::empty() + s);
        Seq::empty()
    }
}

proof fn lemma_end_parts(s: Seq<char>) -> (b: Seq<char>)
    ensures
        hollow(b),
        s == text::trim_end(s) + b,
        text::trim_end(s).len() > 0 ==> !text::is_white(text::trim_end(s).last()),
    decreases s.len(),
{
    if s.len() > 0 && text::is_white(s.last()) {
        let a = lemma_end_parts(s.drop_last());
        let b = a.push(s.last());
        assert forall|i: int| 0 <= i < b.len() implies text::is_white(#[trigger] b[i]) by {
            if i < a.len() {
                assert(b[i] == a[i]);
            }
        }
        assert(s =~= s.drop_last().push(s.last()));
        assert(s =~= text::trim_end(s) + b);
        b
    } else {
        assert(s =~= s + Seq::<char>::empty());
        Seq::empty()
    }
}

/// White space at the ends makes no difference to the words.
pub proof fn lemma_words_of_trimmed(s: Seq<char>)
    ensures
        text::words(text::trim(s)) == text::words(s),
{
    let (a, b) = lemma_trim_parts(s);
    let m = text::trim(s);
    lemma_words_front(a, m);
    lemma_words_back(a + m, b);
}

proof fn lemma_words_back(m: Seq<char>, b: Seq<char>)
    requires
        hollow(b),
    ensures
        text::words(m + b) == text::words(m),
    decreases b.len(),
{
    if b.len() > 0 {
        let init = b.drop_last();
        assert forall|i: int| 0 <= i < init.len() implies text::is_white(#[trigger] init[i]) by {
            assert(init[i] == b[i]);
        }
        lemma_words_back(m, init);
        assert((m + b).drop_last() =~= m + init);
        assert((m + b).last() == b[b.len() - 1]);
    } else {
        assert(m + b =~= m);
    }
}

proof fn lemma_words_front(a: Seq<char>, m: Seq<char>)
    requires
        hollow(a),
    ensures
        text::words(a + m) == text::words(m),
    decreases m.len(),
{
    if m.len() > 0 {
        let init = m.drop_last();
        lemma_words_front(a, init);
        assert((a + m).drop_last() =~= a + init);
        if init.len() > 0 {
            assert((a + init).last() == init.last());
        } else if a.len() > 0 {
            assert((a + init).last() == a[a.len() - 1]);
        }
    } else {
        lemma_words_back(m, a);
        assert(a + m =~= m + a);
    }
}

/// Every word has characters, none of them white space; the first word of a text that does not
/// begin with white space begins where the text does.
pub proof fn lemma_word_shape(s: Seq<char>, i: int)
    requires
        0 <= i < text::words(s).len(),
    ensures
        text::words(s)[i].len() > 0,
        solid(text::words(s)[i]),
        i == 0 && !text::is_white(s[0]) ==> s.len() > 0 && text::words(s)[0][0] == s[0],
    decreases s.len(),
{
    if s.len() > 0 {
        let init = s.drop_last();
        let rest = text::words(init);
        if i < rest.len() {
            lemma_word_shape(init, i);
        }
        if init.len() > 0 {
            assert(init[0] == s[0]);
        }
        if !text::is_white(s.last()) && init.len() > 0 && !text::is_white(init.last()) {
            lemma_words_end(init);
            let last = rest.last();
            lemma_word_shape(init, rest.len() - 1);
            let w = last.push(s.last());
            assert forall|j: int| 0 <= j < w.len() implies !text::is_white(#[trigger] w[j]) by {
                if j < last.len() {
                    assert(w[j] == last[j]);
                }
            }
        }
        if i == 0 && !text::is_white(s[0]) && init.len() > 0 && rest.len() == 0 {
            lemma_words_some(init);
        }
    }
}

proof fn lemma_words_end(s: Seq<char>)
    requires
        s.len() > 0,
        !text::is_white(s.last()),
    ensures
        text::words(s).len() > 0,
    decreases s.len(),
{
    if s.drop_last().len() > 0 && !text::is_white(s.drop_last().last()) {
        lemma_words_end(s.drop_last());
    }
}

proof fn lemma_words_some(s: Seq<char>)
    requires
        s.len() > 0,
        !text::is_white(s[0]),
    ensures
        text::words(s).len() > 0,
    decreases s.len(),
{
    if s.drop_last().len() > 0 {
        lemma_words_some(s.drop_last());
    }
}

proof fn lemma_first_index(a: Seq<char>, c: char, b: Seq<char>)
    requires
        !a.contains(c),
    ensures
        (a.push(c) + b).contains(c),
        text::first_index(a.push(c) + b, c) == a.len(),
{
    let s = a.push(c) + b;
    let n = a.len() as int;
    assert(s[n] == c);
    assert(s.take(n) =~= a);
    let i = text::first_index(s, c);
    assert(0 <= i < s.len() && s[i] == c && !s.take(i).contains(c));
    if i < n {
        assert(a[i] == c);
    } else if i > n {
        assert(s.take(i)[n] == c);
    }
}

proof fn lemma_last_index(a: Seq<char>, c: char, b: Seq<char>)
    requires
        !b.contains(c),
    ensures
        (a.push(c) + b).contains(c),
        text::last_index(a.push(c) + b, c) == a.len(),
{
    let s = a.push(c) + b;
    let n = a.len() as int;
    assert(s[n] == c);
    assert(s.skip(n + 1) =~= b);
    let i = text::last_index(s, c);
    assert(0 <= i < s.len() && s[i] == c && !s.skip(i + 1).contains(c));
    if i > n {
        assert(b[i - n - 1] == c);
    } else if i < n {
        assert(s.skip(i + 1)[n - i - 1] == c);
    }
}

/// A text is split at the first of a character, or at the last of it, and only where it occurs.
pub proof fn splits_are_at_the_character(a: Seq<char>, c: char, b: Seq<char>)
    ensures
        !a.contains(c) ==> text::split_once(a.push(c) + b, c) == Some((a, b)),
        !a.contains(c) ==> text::until(a.push(c) + b, c) == a,
        !b.contains(c) ==> text::rsplit_once(a.push(c) + b, c) == Some((a, b)),
        !a.contains(c) ==> text::split_once(a, c) is None && text::rsplit_once(a, c) is None
            && text::until(a, c) == a,
{
    let s = a.push(c) + b;
    assert(s.take(a.len() as int) =~= a);
    assert(s.skip((a.len() + 1) as int) =~= b);
    if !a.contains(c) {
        lemma_first_index(a, c, b);
    }
    if !b.contains(c) {
        lemma_last_index(a, c, b);
    }
}

/// A text is found where it stands first.
pub proof fn texts_are_found_where_they_stand_first(s: Seq<char>, pat: Seq<char>, i: int)
    requires
        0 <= i <= s.len() - pat.len(),
        s.subrange(i, i + pat.len()) == pat,
    ensures
        text::contains_text(s, pat),
        text::find_text(s, pat) matches Some(j) && 0 <= j <= i && s.subrange(j, j + pat.len())
            == pat && forall|k: int|
            0 <= k < j ==> #[trigger] s.subrange(k, k + pat.len()) != pat,
    decreases i,
{
    assert(text::occurs_at(s, pat, i));
    if exists|k: int| 0 <= k < i && #[trigger] text::occurs_at(s, pat, k) {
        let k = choose|k: int| 0 <= k < i && #[trigger] text::occurs_at(s, pat, k);
        texts_are_found_where_they_stand_first(s, pat, k);
    } else {
        text::lemma_first_at(s, pat, i);
        assert(text::find_text(s, pat) == Some(i));
        assert forall|k: int| 0 <= k < i implies #[trigger] s.subrange(k, k + pat.len()) != pat by {
            assert(!text::occurs_at(s, pat, k));
        }
    }
}

/// A number is read digit by digit, each worth ten times less than the one before it.
pub proof fn numbers_are_read_digit_by_digit(s: Seq<char>, d: nat, max: nat)
    requires
        d < 10,
    ensures
        text::parse_uint(seq![('0' as nat + d) as char], 10, 9) == Some(d),
        s.len() > 0 && s != seq!['+'] ==> text::parse_uint(s.push(('0' as nat + d) as char), 10, max)
            == (match text::parse_uint(s, 10, max) {
            Some(n) => if 10 * n + d <= max {
                Some(10 * n + d)
            } else {
                None
            },
            None => None,
        }),
{
    let c = ('0' as nat + d) as char;
    assert(text::digit_value(c) == d);
    let one = seq![c];
    assert(one.drop_last() =~= Seq::<char>::empty());
    assert(text::digits_value(one.drop_last(), 10) == 0);
    assert(text::digits_value(one, 10) == d);
    if s.len() > 0 && s != seq!['+'] {
        let t = s.push(c);
        let signed = s[0] == '+';
        let ds = if signed {
            s.skip(1)
        } else {
            s
        };
        let dt = if signed {
            t.skip(1)
        } else {
            t
        };
        assert(dt =~= ds.push(c));
        if signed && ds.len() == 0 {
            assert(s =~= seq!['+']);
        }
        assert(dt.drop_last() =~= ds);
        assert(dt.last() == c);
        if text::all_digits(ds, 10) {
            assert forall|i: int| 0 <= i < dt.len() implies text::digit_value(#[trigger] dt[i]) < 10 by {
                if i < ds.len() {
                    assert(dt[i] == ds[i]);
                }
            }
        }
        if text::all_digits(dt, 10) {
            assert forall|i: int| 0 <= i < ds.len() implies text::digit_value(#[trigger] ds[i]) < 10 by {
                assert(dt[i] == ds[i]);
            }
        }
    }
}

pub proof fn lemma_no_digit(c: char)
    ensures
        '0' <= c <= '9' <==> text::digit_value(c) < 10,
{
}

/// Only a number is read as one: digits, at least one, with at most a plus sign before them.
pub proof fn only_numbers_are_read(s: Seq<char>, i: int, max: nat)
    ensures
        text::parse_uint(Seq::empty(), 10, max) is None,
        text::parse_uint(seq!['+'], 10, max) is None,
        text::parse_uint(s, 10, max) matches Some(n) ==> n <= max,
        0 <= i < s.len() && !('0' <= s[i] <= '9') && !(i == 0 && s[i] == '+') ==> text::parse_uint(
            s,
            10,
            max,
        ) is None,
{
    assert(seq!['+'].skip(1) =~= Seq::<char>::empty());
    if 0 <= i < s.len() && !('0' <= s[i] <= '9') && !(i == 0 && s[i] == '+') {
        lemma_no_digit(s[i]);
        if s[0] == '+' {
            assert(text::digit_value(s.skip(1)[i - 1]) >= 10);
        }
    }
}

/// A number that is larger than what fits is not read at all.
pub proof fn large_numbers_are_not_read(n: nat, max: nat)
    requires
        n > max,
    ensures
        text::parse_uint(text::decimal(n), 10, max) is None,
{
    laws::decimal_reads_back(n, n);
}

/// Two numbers that are written alike are the same.
pub proof fn decimals_differ(m: nat, n: nat)
    ensures
        text::decimal(m) == text::decimal(n) ==> m == n,
{
    let max = if m < n {
        n
    } else {
        m
    };
    laws::decimal_reads_back(m, max);
    laws::decimal_reads_back(n, max);
}

/// Texts are ordered by the first character in which they differ; a text comes before all that
/// continue it.
pub proof fn texts_are_ordered_by_the_first_difference(
    p: Seq<char>,
    c: char,
    x: Seq<char>,
    d: char,
    y: Seq<char>,
)
    ensures
        c != d ==> (text::text_before(p.push(c) + x, p.push(d) + y) <==> c < d),
        text::text_before(p, p.push(d) + y),
        !text::text_before(p.push(d) + y, p),
    decreases p.len(),
{
    let a = p.push(c) + x;
    let b = p.push(d) + y;
    if p.len() > 0 {
        let q = p.drop_first();
        texts_are_ordered_by_the_first_difference(q, c, x, d, y);
        assert(a.drop_first() =~= q.push(c) + x);
        assert(b.drop_first() =~= q.push(d) + y);
        assert(a[0] == p[0] && b[0] == p[0]);
    } else {
        assert(a[0] == c && b[0] == d);
    }
}

/// What a character counts as a digit of a hexadecimal number.
pub open spec fn hex_value(c: char) -> Option<nat> {
    if '0' <= c <= '9' {
        Some((c as nat - '0' as nat) as nat)
    } else if 'a' <= c <= 'f' {
        Some((c as nat - 'a' as nat + 10) as nat)
    } else if 'A' <= c <= 'F' {
        Some((c as nat - 'A' as nat + 10) as nat)
    } else {
        None
    }
}

/// Hexadecimal numbers are read digit by digit, in either case: one more digit makes the number
/// sixteen times as large and adds the digit; anything else makes it none.
pub proof fn hexadecimal_numbers_are_read_digit_by_digit(s: Seq<char>, c: char, max: nat)
    ensures
        text::parse_uint(seq![c], 16, 15) == hex_value(c),
        s.len() > 0 && s != seq!['+'] ==> text::parse_uint(s.push(c), 16, max) == (match (
            text::parse_uint(s, 16, max),
            hex_value(c),
        ) {
            (Some(n), Some(d)) => if 16 * n + d <= max {
                Some(16 * n + d)
            } else {
                None
            },
            _ => None,
        }),
{
    assert(text::digit_value(c) < 16 <==> hex_value(c) is Some);
    assert(hex_value(c) is Some ==> text::digit_value(c) == hex_value(c)->0);
    let one = seq![c];
    assert(one.drop_last() =~= Seq::<char>::empty());
    assert(text::digits_value(one.drop_last(), 16) == 0);
    assert(text::digits_value(one, 16) == text::digit_value(c));
    assert(one[0] == c);
    if c == '+' {
        assert(one.skip(1) =~= Seq::<char>::empty());
    }
    if s.len() > 0 && s != seq!['+'] {
        let t = s.push(c);
        let signed = s[0] == '+';
        let ds = if signed {
            s.skip(1)
        } else {
            s
        };
        let dt = if signed {
            t.skip(1)
        } else {
            t
        };
        assert(dt =~= ds.push(c));
        if signed && ds.len() == 0 {
            assert(s =~= seq!['+']);
        }
        assert(dt.drop_last() =~= ds);
        assert(dt.last() == c);
        if text::all_digits(ds, 16) && text::digit_value(c) < 16 {
            assert forall|i: int| 0 <= i < dt.len() implies text::digit_value(#[trigger] dt[i]) < 16 by {
                if i < ds.len() {
                    assert(dt[i] == ds[i]);
                }
            }
        }
        if text::all_digits(dt, 16) {
            assert(dt[dt.len() - 1] == c);
            assert forall|i: int| 0 <= i < ds.len() implies text::digit_value(#[trigger] ds[i]) < 16 by {
                assert(dt[i] == ds[i]);
            }
        }
    }
}

/// Numbers are written with decimal digits only, and without zeros that could be left out.
pub proof fn numbers_are_written_without_leading_zeros(n: nat, i: int)
    ensures
        text::decimal(0) == seq!['0'],
        text::decimal(n).len() > 0,
        n > 0 ==> text::decimal(n)[0] != '0',
        0 <= i < text::decimal(n).len() ==> '0' <= text::decimal(n)[i] <= '9',
    decreases n,
{
    laws::lemma_decimal(n);
    assert(text::decimal(0) =~= seq!['0']);
    if n >= 10 {
        numbers_are_written_without_leading_zeros(n / 10, 0);
        let d = text::decimal(n / 10);
        assert(text::decimal(n)[0] == d[0]);
    }
}

/// Taking two characters off the ends of a text leaves what stands between them.
pub proof fn ends_are_stripped(x: Seq<char>, m: Seq<char>, y: Seq<char>, a: char, b: char)
    requires
        forall|i: int| 0 <= i < x.len() ==> #[trigger] x[i] == a || x[i] == b,
        forall|i: int| 0 <= i < y.len() ==> #[trigger] y[i] == a || y[i] == b,
        m.len() > 0,
        m[0] != a && m[0] != b,
        m.last() != a && m.last() != b,
    ensures
        text::strip_ends(x + m + y, a, b) == m,
{
    lemma_front_stripped(x, m + y, a, b);
    assert(x + m + y =~= x + (m + y));
    assert((m + y)[0] == m[0]);
    lemma_back_stripped(m, y, a, b);
}

proof fn lemma_front_stripped(x: Seq<char>, m: Seq<char>, a: char, b: char)
    requires
        forall|i: int| 0 <= i < x.len() ==> #[trigger] x[i] == a || x[i] == b,
        m.len() > 0,
        m[0] != a && m[0] != b,
    ensures
        text::strip_front(x + m, a, b) == m,
    decreases x.len(),
{
    let s = x + m;
    if x.len() == 0 {
        assert(s =~= m);
    } else {
        assert(s[0] == x[0]);
        let rest = x.drop_first();
        assert forall|i: int| 0 <= i < rest.len() implies #[trigger] rest[i] == a || rest[i] == b by {
            assert(rest[i] == x[i + 1]);
        }
        assert(s.drop_first() =~= rest + m);
        lemma_front_stripped(rest, m, a, b);
    }
}

proof fn lemma_back_stripped(m: Seq<char>, y: Seq<char>, a: char, b: char)
    requires
        forall|i: int| 0 <= i < y.len() ==> #[trigger] y[i] == a || y[i] == b,
        m.len() > 0,
        m.last() != a && m.last() != b,
    ensures
        text::strip_back(m + y, a, b) == m,
    decreases y.len(),
{
    let s = m + y;
    if y.len() == 0 {
        assert(s =~= m);
    } else {
        assert(s.last() == y[y.len() - 1]);
        let rest = y.drop_last();
        assert forall|i: int| 0 <= i < rest.len() implies #[trigger] rest[i] == a || rest[i] == b by {
            assert(rest[i] == y[i]);
        }
        assert(s.drop_last() =~= m + rest);
        lemma_back_stripped(m, rest, a, b);
    }
}

/// Hexadecimal numbers are written in lower case and without zeros that could be left out, and read
/// back as the number they were written for.
pub proof fn hexadecimal_numbers_read_back(n: nat, i: int)
    ensures
        text::hexadecimal(n).len() > 0,
        text::parse_uint(text::hexadecimal(n), 16, n) == Some(n),
        n > 0 ==> text::hexadecimal(n)[0] != '0',
        0 <= i < text::hexadecimal(n).len() ==> '0' <= text::hexadecimal(n)[i] <= '9' || 'a'
            <= text::hexadecimal(n)[i] <= 'f',
{
    lemma_hex_text(n);
    let h = text::hexadecimal(n);
    if 0 <= i < h.len() {
        assert('0' <= h[i] <= '9' || 'a' <= h[i] <= 'f');
    }
    assert('0' <= h[0] <= '9' || 'a' <= h[0] <= 'f');
}

proof fn lemma_hex_text(n: nat)
    ensures
        text::hexadecimal(n).len() > 0,
        text::digits_value(text::hexadecimal(n), 16) == n,
        text::all_digits(text::hexadecimal(n), 16),
        n > 0 ==> text::hexadecimal(n)[0] != '0',
        forall|i: int|
            0 <= i < text::hexadecimal(n).len() ==> '0' <= #[trigger] text::hexadecimal(n)[i] <= '9'
                || 'a' <= text::hexadecimal(n)[i] <= 'f',
    decreases n,
{
    let h = text::hexadecimal(n);
    let d = text::hex_digit(n % 16);
    assert(text::digit_value(d) == n % 16);
    assert('0' <= d <= '9' || 'a' <= d <= 'f');
    if n < 16 {
        assert(h == seq![text::hex_digit(n)]);
        assert(h.drop_last() =~= Seq::<char>::empty());
        assert(text::digits_value(h.drop_last(), 16) == 0);
    } else {
        lemma_hex_text(n / 16);
        assert(h.drop_last() =~= text::hexadecimal(n / 16));
        assert(h.last() == d);
        assert(h[0] == text::hexadecimal(n / 16)[0]);
        assert forall|i: int| 0 <= i < h.len() implies text::digit_value(#[trigger] h[i]) < 16 && (
        '0' <= h[i] <= '9' || 'a' <= h[i] <= 'f') by {
            if i < h.len() - 1 {
                assert(h[i] == text::hexadecimal(n / 16)[i]);
            }
        }
    }
}

} // verus!
