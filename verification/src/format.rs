//! How texts, times and numbers are shown.

use vstd::prelude::*;

use crate::text::{chars_of, join, joined, replace, replaced, string_between, texts};

verus! {

/// Replacing one character by one other changes nothing but the places where it stands.
pub broadcast proof fn lemma_replaced_one(s: Seq<char>, from: char, to: char)
    ensures
        #![trigger replaced(s, from, seq![to])]
        replaced(s, from, seq![to]).len() == s.len(),
        forall|i: int|
            0 <= i < s.len() ==> #[trigger] replaced(s, from, seq![to])[i] == if s[i] == from {
                to
            } else {
                s[i]
            },
    decreases s.len(),
{
    if s.len() > 0 {
        lemma_replaced_one(s.drop_last(), from, to);
    }
}

/// The text on one line.
pub open spec fn one_line(s: Seq<char>) -> Seq<char> {
    replaced(s, '\n', seq![' '])
}

/// The text on one line, cut off behind `max` characters where it is longer.
pub open spec fn shortened(s: Seq<char>, max: nat) -> Seq<char> {
    if s.len() <= max {
        one_line(s)
    } else {
        one_line(s).take(max as int).push('…')
    }
}

/// The string on one line, cut off behind `max` characters where it is longer.
pub fn truncate(s: &str, max: usize) -> (r: String)
    ensures
        r@ == shortened(s@, max as nat),
{
    proof {
        reveal_strlit(" ");
        assert(" "@ == seq![' ']);
        lemma_replaced_one(s@, '\n', ' ');
    }
    let line = replace(s, '\n', " ");
    let chars = chars_of(line.as_str());
    if chars.len() <= max {
        line
    } else {
        let mut t = string_between(&chars, 0, max);
        t.push('…');
        assert(t@ == shortened(s@, max as nat));
        t
    }
}

/// A shortened text is a single line of at most `max` characters and the mark of the cut.
pub proof fn law_shortened_fits(s: Seq<char>, max: nat)
    ensures
        shortened(s, max).len() <= max + 1,
        !shortened(s, max).contains('\n'),
{
    lemma_replaced_one(s, '\n', ' ');
    let t = shortened(s, max);
    assert forall|i: int| 0 <= i < t.len() implies t[i] != '\n' by {
        if s.len() <= max || i < max {
            assert(t[i] == one_line(s)[i]);
        }
    }
}

/// Shortening a shortened text to the same length changes nothing.
pub proof fn law_shortened_idempotent(s: Seq<char>, max: nat)
    ensures
        shortened(shortened(s, max), max) == shortened(s, max),
{
    let t = shortened(s, max);
    law_shortened_fits(s, max);
    lemma_replaced_one(s, '\n', ' ');
    lemma_replaced_one(t, '\n', ' ');
    assert forall|i: int| 0 <= i < t.len() implies t[i] != '\n' by {
        assert(t.contains(t[i]));
    }
    assert(one_line(t) == t);
    if s.len() > max {
        assert(t.take(max as int).push('…') == t);
    }
}

/// ISO 8601 as `YYYY-MM-DD HH:MM`.
pub open spec fn minute(ts: Seq<char>) -> Seq<char> {
    let t = replaced(ts, 'T', seq![' ']);
    if t.len() <= 16 {
        t
    } else {
        t.take(16)
    }
}

/// ISO 8601 -> "YYYY-MM-DD HH:MM"
pub fn short_time(ts: &str) -> (r: String)
    ensures
        r@ == minute(ts@),
{
    proof {
        reveal_strlit(" ");
        assert(" "@ == seq![' ']);
    }
    let t = replace(ts, 'T', " ");
    let chars = chars_of(t.as_str());
    if chars.len() <= 16 {
        t
    } else {
        assert(t@.subrange(0, 16) == t@.take(16));
        string_between(&chars, 0, 16)
    }
}

/// A time is shown in at most sixteen characters, and without the mark between day and hour.
pub proof fn law_minute_fits(ts: Seq<char>)
    ensures
        minute(ts).len() <= 16,
        !minute(ts).contains('T'),
{
    lemma_replaced_one(ts, 'T', ' ');
    let t = replaced(ts, 'T', seq![' ']);
    assert forall|i: int| 0 <= i < minute(ts).len() implies minute(ts)[i] != 'T' by {
        assert(minute(ts)[i] == t[i]);
    }
}

/// The place of the first line feed, or the length where there is none.
pub open spec fn line_len(s: Seq<char>) -> nat
    decreases s.len(),
{
    if s.len() == 0 || s[0] == '\n' {
        0
    } else {
        1 + line_len(s.drop_first())
    }
}

/// A line ends at a line feed or goes on to the end.
pub proof fn lemma_line_len(s: Seq<char>)
    ensures
        line_len(s) <= s.len(),
        forall|i: int| 0 <= i < line_len(s) ==> #[trigger] s[i] != '\n',
        line_len(s) < s.len() ==> s[line_len(s) as int] == '\n',
    decreases s.len(),
{
    if s.len() > 0 && s[0] != '\n' {
        let rest = s.drop_first();
        lemma_line_len(rest);
        assert forall|i: int| 0 <= i < line_len(s) implies #[trigger] s[i] != '\n' by {
            if i > 0 {
                assert(rest[i - 1] == s[i]);
            }
        }
    }
}

/// The line without the carriage return that stood before its line feed.
pub open spec fn without_cr(line: Seq<char>) -> Seq<char> {
    if line.len() > 0 && line.last() == '\r' {
        line.drop_last()
    } else {
        line
    }
}

/// The lines of a text. A line ends in a line feed, which may stand behind a carriage return;
/// the last line may do without.
pub open spec fn lines_of(s: Seq<char>) -> Seq<Seq<char>>
    decreases s.len(),
{
    if s.len() == 0 {
        Seq::empty()
    } else {
        proof {
            lemma_line_len(s);
        }
        let n = line_len(s) as int;
        if n == s.len() {
            seq![s]
        } else {
            seq![without_cr(s.take(n))] + lines_of(s.skip(n + 1))
        }
    }
}

/// The lines of a string.
pub fn lines(s: &str) -> (r: Vec<String>)
    ensures
        texts(r@) == lines_of(s@),
{
    let chars = chars_of(s);
    let mut r: Vec<String> = Vec::new();
    let mut i: usize = 0;
    assert(chars@.skip(0) == chars@);
    assert(texts(r@) + lines_of(chars@) == lines_of(chars@));
    while i < chars.len()
        invariant
            i <= chars@.len(),
            texts(r@) + lines_of(chars@.skip(i as int)) == lines_of(chars@),
        decreases chars@.len() - i,
    {
        let ghost rest = chars@.skip(i as int);
        let start = i;
        while i < chars.len() && chars[i] != '\n'
            invariant
                start <= i <= chars@.len(),
                rest == chars@.skip(start as int),
                line_len(rest) == (i - start) + line_len(chars@.skip(i as int)),
            decreases chars@.len() - i,
        {
            assert(chars@.skip(i as int).drop_first() == chars@.skip(i + 1));
            i = i + 1;
        }
        let ghost n = line_len(rest) as int;
        assert(n == i - start);
        let ended = i < chars.len();
        let end = if ended && i > start && chars[i - 1] == '\r' {
            i - 1
        } else {
            i
        };
        let line = string_between(&chars, start, end);
        proof {
            assert(texts(r@.push(line)) == texts(r@) + seq![line@]);
            if ended {
                assert(rest.take(n) == chars@.subrange(start as int, i as int));
                assert(line@ == without_cr(rest.take(n)));
                assert(rest.skip(n + 1) == chars@.skip(i + 1));
                assert(texts(r@) + (seq![line@] + lines_of(chars@.skip(i + 1))) == texts(
                    r@.push(line),
                ) + lines_of(chars@.skip(i + 1)));
            } else {
                assert(line@ == rest);
                assert(texts(r@.push(line)) + lines_of(chars@.skip(i as int)) == texts(
                    r@.push(line),
                ));
            }
        }
        r.push(line);
        if ended {
            i = i + 1;
        }
    }
    assert(texts(r@) + lines_of(chars@.skip(chars@.len() as int)) == texts(r@));
    r
}

/// The text with each of its lines moved to the right.
pub open spec fn indented(s: Seq<char>) -> Seq<char> {
    joined(lines_of(s).map_values(|l: Seq<char>| spaces(4) + l), seq!['\n'])
}

/// The string with each of its lines moved to the right.
pub fn indent(s: &str) -> (r: String)
    ensures
        r@ == indented(s@),
{
    let all = lines(s);
    let mut moved: Vec<String> = Vec::new();
    let ghost f = |l: Seq<char>| spaces(4) + l;
    for i in 0..all.len()
        invariant
            f == (|l: Seq<char>| spaces(4) + l),
            texts(moved@) == texts(all@).take(i as int).map_values(f),
    {
        let mut l = String::new();
        push_spaces(&mut l, 4);
        l.append(all[i].as_str());
        proof {
            assert(l@ == f(all@[i as int]@));
            assert(texts(moved@.push(l)) == texts(moved@).push(l@));
            assert(texts(all@).take(i + 1) == texts(all@).take(i as int).push(all@[i as int]@));
            assert(texts(all@).take(i as int).map_values(f).push(l@) == texts(all@).take(
                i + 1,
            ).map_values(f));
        }
        moved.push(l);
    }
    proof {
        assert(texts(all@).take(all@.len() as int) == texts(all@));
        reveal_strlit("\n");
        assert("\n"@ == seq!['\n']);
    }
    join(&moved, "\n")
}

/// The text can stand as a line of a file: it holds no line feed, nor a carriage return at its end.
pub open spec fn is_line(l: Seq<char>) -> bool {
    !l.contains('\n') && !(l.len() > 0 && l.last() == '\r')
}

/// One more line of a text is one more line.
pub proof fn lemma_lines_append(s: Seq<char>, l: Seq<char>)
    requires
        s.len() == 0 || s.last() == '\n',
        is_line(l),
    ensures
        lines_of(s + l + seq!['\n']) == lines_of(s).push(l),
    decreases s.len(),
{
    let t = s + l + seq!['\n'];
    lemma_line_len(t);
    let n = line_len(t) as int;
    if s.len() == 0 {
        assert(t[l.len() as int] == '\n');
        if n < l.len() {
            assert(l[n] == t[n]);
        }
        assert(t.take(n) =~= l);
        assert(t.skip(n + 1) =~= Seq::<char>::empty());
        assert(lines_of(t.skip(n + 1)) =~= Seq::<Seq<char>>::empty());
        assert(lines_of(t) =~= seq![l]);
        assert(lines_of(s).push(l) =~= seq![l]);
    } else {
        lemma_line_len(s);
        let m = line_len(s) as int;
        assert(s[s.len() - 1] == '\n');
        assert(m < s.len());
        assert(t[m] == s[m]);
        if n < m {
            assert(t[n] == s[n]);
        }
        assert(n == m);
        let rest = s.skip(m + 1);
        if rest.len() > 0 {
            assert(rest.last() == s.last());
        }
        lemma_lines_append(rest, l);
        assert(t.take(n) =~= s.take(m));
        assert(t.skip(n + 1) =~= rest + l + seq!['\n']);
        let first = seq![without_cr(s.take(m))];
        assert(first + lines_of(rest).push(l) =~= (first + lines_of(rest)).push(l));
    }
}

/// A line feed at the end of a text that ends in none adds no line.
proof fn lemma_lines_end(t: Seq<char>)
    requires
        t.len() > 0,
        t.last() != '\n',
        t.last() != '\r',
    ensures
        lines_of(t + seq!['\n']) == lines_of(t),
    decreases t.len(),
{
    let u = t + seq!['\n'];
    lemma_line_len(t);
    lemma_line_len(u);
    let n = line_len(t) as int;
    let m = line_len(u) as int;
    assert(u[t.len() as int] == '\n');
    if n < t.len() {
        assert(u[n] == t[n]);
        if m < n {
            assert(u[m] == t[m]);
        }
        assert(m == n);
        assert(t[t.len() - 1] != '\n');
        let rest = t.skip(n + 1);
        assert(rest.len() > 0);
        assert(rest.last() == t.last());
        lemma_lines_end(rest);
        assert(u.take(n) =~= t.take(n));
        assert(u.skip(n + 1) =~= rest + seq!['\n']);
    } else {
        if m < t.len() {
            assert(u[m] == t[m]);
        }
        assert(u.take(m) =~= t);
        assert(u.skip(m + 1) =~= Seq::<char>::empty());
        assert(lines_of(u.skip(m + 1)) =~= Seq::<Seq<char>>::empty());
        assert(lines_of(u) =~= seq![t]);
    }
}

/// What stands behind the last line feed is the last line.
proof fn lemma_lines_last(s: Seq<char>, l: Seq<char>)
    requires
        s.len() == 0 || s.last() == '\n',
        !l.contains('\n'),
        l.len() > 0,
    ensures
        lines_of(s + l) == lines_of(s).push(l),
    decreases s.len(),
{
    let t = s + l;
    lemma_line_len(t);
    let n = line_len(t) as int;
    if s.len() == 0 {
        assert(t =~= l);
        if n < l.len() {
            assert(l[n] == t[n]);
        }
        assert(lines_of(s).push(l) =~= seq![l]);
    } else {
        lemma_line_len(s);
        let m = line_len(s) as int;
        assert(s[s.len() - 1] == '\n');
        assert(m < s.len());
        assert(t[m] == s[m]);
        if n < m {
            assert(t[n] == s[n]);
        }
        assert(n == m);
        let rest = s.skip(m + 1);
        if rest.len() > 0 {
            assert(rest.last() == s.last());
        }
        lemma_lines_last(rest, l);
        assert(t.take(n) =~= s.take(m));
        assert(t.skip(n + 1) =~= rest + l);
        let first = seq![without_cr(s.take(m))];
        assert(first + lines_of(rest).push(l) =~= (first + lines_of(rest)).push(l));
    }
}

/// Lines that are not empty, joined by line feeds, are the lines of the text.
proof fn lemma_lines_joined(parts: Seq<Seq<char>>)
    requires
        forall|i: int|
            0 <= i < parts.len() ==> !(#[trigger] parts[i]).contains('\n') && parts[i].len() > 0,
        forall|i: int| 0 <= i < parts.len() - 1 ==> (#[trigger] parts[i]).last() != '\r',
    ensures
        lines_of(joined(parts, seq!['\n'])) == parts,
        parts.len() > 0 ==> joined(parts, seq!['\n']).len() > 0 && joined(
            parts,
            seq!['\n'],
        ).last() == parts.last().last(),
    decreases parts.len(),
{
    let feed = seq!['\n'];
    if parts.len() == 0 {
        assert(lines_of(joined(parts, feed)) =~= parts);
    } else {
        let front = parts.drop_last();
        let last = parts[parts.len() - 1];
        assert(!last.contains('\n') && last.len() > 0);
        assert forall|i: int| 0 <= i < front.len() implies !(#[trigger] front[i]).contains('\n')
            && front[i].len() > 0 && front[i].last() != '\r' by {
            assert(front[i] == parts[i]);
        }
        lemma_lines_joined(front);
        let t = joined(front, feed);
        let s = if front.len() == 0 {
            Seq::empty()
        } else {
            t + feed
        };
        assert(joined(parts, feed) =~= s + last);
        if front.len() > 0 {
            let end = front[front.len() - 1];
            assert(end.last() != '\r');
            assert(end.contains(end.last()));
            lemma_lines_end(t);
            assert(s.last() == '\n');
        }
        assert(lines_of(s) =~= front);
        lemma_lines_last(s, last);
        assert(front.push(last) =~= parts);
    }
}

/// A line of a text holds no line feed, and nothing that is not in the text.
proof fn lemma_lines_hold(s: Seq<char>, k: int, c: char)
    requires
        0 <= k < lines_of(s).len(),
        lines_of(s)[k].contains(c),
    ensures
        s.contains(c),
        c != '\n',
    decreases s.len(),
{
    lemma_line_len(s);
    let n = line_len(s) as int;
    let line = lines_of(s)[k];
    let i = choose|i: int| 0 <= i < line.len() && line[i] == c;
    if n == s.len() {
        assert(s[i] == c);
    } else if k == 0 {
        assert(line == without_cr(s.take(n)));
        assert(s[i] == c);
    } else {
        let rest = s.skip(n + 1);
        assert(lines_of(s)[k] == lines_of(rest)[k - 1]);
        lemma_lines_hold(rest, k - 1, c);
        let j = choose|j: int| 0 <= j < rest.len() && rest[j] == c;
        assert(s[j + n + 1] == c);
    }
}

/// Indenting keeps the lines of a text, and moves each of them to the right. A carriage return at
/// the end of a line would be taken for a part of the line feed behind it, so only the last line
/// may end in one.
pub proof fn law_indenting_keeps_lines(s: Seq<char>)
    requires
        forall|k: int|
            0 <= k < lines_of(s).len() - 1 && (#[trigger] lines_of(s)[k]).len() > 0 ==> lines_of(
                s,
            )[k].last() != '\r',
    ensures
        lines_of(indented(s)) == lines_of(s).map_values(|l: Seq<char>| spaces(4) + l),
{
    let all = lines_of(s);
    let moved = all.map_values(|l: Seq<char>| spaces(4) + l);
    assert forall|k: int| 0 <= k < moved.len() implies !(#[trigger] moved[k]).contains('\n')
        && moved[k].len() > 0 by {
        let l = moved[k];
        assert(l == spaces(4) + all[k]);
        assert forall|i: int| 0 <= i < l.len() implies l[i] != '\n' by {
            if i < 4 {
                assert(l[i] == ' ');
            } else {
                assert(l[i] == all[k][i - 4]);
                assert(all[k].contains(l[i]));
                lemma_lines_hold(s, k, l[i]);
            }
        }
    }
    assert forall|k: int| 0 <= k < moved.len() - 1 implies (#[trigger] moved[k]).last() != '\r' by {
        assert(moved[k] == spaces(4) + all[k]);
        if all[k].len() > 0 {
            assert(moved[k].last() == all[k].last());
        } else {
            assert(moved[k].last() == ' ');
        }
    }
    lemma_lines_joined(moved);
}

/// So many spaces.
pub open spec fn spaces(n: nat) -> Seq<char> {
    Seq::new(n, |i: int| ' ')
}

/// Adds spaces at the end of a string.
pub fn push_spaces(s: &mut String, n: usize)
    ensures
        final(s)@ == old(s)@ + spaces(n as nat),
{
    let ghost start = s@;
    assert(start + spaces(0) == start);
    for i in 0..n
        invariant
            s@ == start + spaces(i as nat),
    {
        assert((start + spaces(i as nat)).push(' ') == start + spaces((i + 1) as nat));
        s.push(' ');
    }
}

/// The spaces that a text lacks of a width.
pub open spec fn padding(s: Seq<char>, width: nat) -> Seq<char> {
    spaces(if s.len() < width { (width - s.len()) as nat } else { 0 })
}

/// The text at the left of a column.
pub open spec fn left_in(s: Seq<char>, width: nat) -> Seq<char> {
    s + padding(s, width)
}

/// The text at the right of a column.
pub open spec fn right_in(s: Seq<char>, width: nat) -> Seq<char> {
    padding(s, width) + s
}

/// The string at the left of a column.
pub fn pad_right(s: &str, width: usize) -> (r: String)
    ensures
        r@ == left_in(s@, width as nat),
{
    let n = s.unicode_len();
    let mut r = s.to_owned();
    if n < width {
        push_spaces(&mut r, width - n);
    } else {
        assert(r@ + spaces(0) == r@);
    }
    r
}

/// The string at the right of a column.
pub fn pad_left(s: &str, width: usize) -> (r: String)
    ensures
        r@ == right_in(s@, width as nat),
{
    let n = s.unicode_len();
    let mut r = String::new();
    if n < width {
        push_spaces(&mut r, width - n);
    }
    r.append(s);
    assert(r@ == right_in(s@, width as nat));
    r
}

/// The character of a decimal digit.
pub open spec fn digit(d: nat) -> char {
    (48 + d) as char
}

/// The decimal digits of a number.
pub open spec fn digits(n: nat) -> Seq<char>
    decreases n,
{
    if n < 10 {
        seq![digit(n)]
    } else {
        digits(n / 10).push(digit(n % 10))
    }
}

/// An integer in decimal.
pub open spec fn decimal(i: int) -> Seq<char> {
    if i < 0 {
        seq!['-'] + digits((-i) as nat)
    } else {
        digits(i as nat)
    }
}

fn push_digits(s: &mut String, n: u64)
    ensures
        final(s)@ == old(s)@ + digits(n as nat),
    decreases n,
{
    if n >= 10 {
        push_digits(s, n / 10);
    }
    let d: u8 = 48 + (n % 10) as u8;
    assert(d as char == digit((n % 10) as nat));
    s.push(d as char);
    assert(s@ == old(s)@ + digits(n as nat));
}

/// An unsigned integer in decimal.
pub fn decimal_u64(n: u64) -> (r: String)
    ensures
        r@ == decimal(n as int),
{
    let mut r = String::new();
    push_digits(&mut r, n);
    assert(r@ == digits(n as nat));
    r
}

/// An integer in decimal.
pub fn decimal_i64(i: i64) -> (r: String)
    ensures
        r@ == decimal(i as int),
{
    let mut r = String::new();
    if i < 0 {
        r.push('-');
        let n: u64 = (-(i + 1)) as u64 + 1;
        push_digits(&mut r, n);
    } else {
        push_digits(&mut r, i as u64);
    }
    assert(r@ == decimal(i as int));
    r
}

/// A shortened text has the characters of the text, with a space for each line feed: all of them
/// where they are not too many, and otherwise the first ones and the mark of the cut.
pub proof fn law_shortened_is_the_beginning(s: Seq<char>, max: nat, i: int)
    ensures
        s.len() <= max ==> shortened(s, max).len() == s.len(),
        s.len() > max ==> shortened(s, max).len() == max + 1 && shortened(s, max)[max as int]
            == '…',
        0 <= i < s.len() && i < max ==> shortened(s, max)[i] == if s[i] == '\n' {
            ' '
        } else {
            s[i]
        },
{
    lemma_replaced_one(s, '\n', ' ');
}

/// A time is shown by its first characters, with a space for the mark between day and hour.
pub proof fn law_minute_is_the_beginning(ts: Seq<char>, i: int)
    ensures
        minute(ts).len() == if ts.len() < 16 {
            ts.len()
        } else {
            16
        },
        0 <= i < minute(ts).len() ==> minute(ts)[i] == if ts[i] == 'T' {
            ' '
        } else {
            ts[i]
        },
{
    lemma_replaced_one(ts, 'T', ' ');
}

/// Line feeds part lines: the first line is what stands before the first of them, without a carriage
/// return before it, and the others are those of what stands behind.
pub proof fn law_line_feeds_part_lines(a: Seq<char>, b: Seq<char>)
    requires
        !a.contains('\n'),
    ensures
        !(a.len() > 0 && a.last() == '\r') ==> lines_of(a + seq!['\n'] + b) == seq![a] + lines_of(b),
        lines_of(a + seq!['\r', '\n'] + b) == seq![a] + lines_of(b),
        a.len() > 0 ==> lines_of(a) == seq![a],
        lines_of(Seq::empty()).len() == 0,
{
    let s = a + seq!['\n'] + b;
    lemma_line_len(s);
    let n = line_len(s) as int;
    assert(s[a.len() as int] == '\n');
    if n < a.len() {
        assert(a[n] == s[n]);
    }
    assert(s.take(n) =~= a);
    assert(s.skip(n + 1) =~= b);
    let t = a + seq!['\r', '\n'] + b;
    lemma_line_len(t);
    let m = line_len(t) as int;
    assert(t[a.len() as int] == '\r');
    assert(t[a.len() as int + 1] == '\n');
    if m < a.len() {
        assert(a[m] == t[m]);
    }
    assert(m == a.len() + 1);
    assert(t.take(m) =~= a.push('\r'));
    assert(a.push('\r').drop_last() =~= a);
    assert(t.skip(m + 1) =~= b);
    if a.len() > 0 {
        lemma_line_len(a);
        let k = line_len(a) as int;
        if k < a.len() {
            assert(a.contains(a[k]));
        }
    }
}

/// A column is as wide as asked for, or as the text where that is wider; the text stands at its one
/// side, and the rest is spaces.
pub proof fn law_columns_are_filled(s: Seq<char>, width: nat, i: int)
    ensures
        left_in(s, width).len() == if s.len() < width {
            width
        } else {
            s.len()
        },
        right_in(s, width).len() == left_in(s, width).len(),
        left_in(s, width).take(s.len() as int) == s,
        right_in(s, width).skip(right_in(s, width).len() - s.len()) == s,
        s.len() <= i < width ==> left_in(s, width)[i] == ' ',
        0 <= i < width - s.len() ==> right_in(s, width)[i] == ' ',
{
    assert(left_in(s, width).take(s.len() as int) =~= s);
    assert(right_in(s, width).skip(right_in(s, width).len() - s.len()) =~= s);
}

/// Numbers grow by a digit at a time.
pub proof fn law_decimals_go_on(n: nat, d: nat)
    requires
        d < 10,
    ensures
        n > 0 ==> decimal((10 * n + d) as int) == decimal(n as int).push(digit(d)),
        decimal(d as int) == seq![digit(d)],
        n > 0 ==> decimal(-(n as int)) == seq!['-'] + decimal(n as int),
        digit(d) as int == '0' as int + d,
{
    if n > 0 {
        assert((10 * n + d) / 10 == n);
        assert((10 * n + d) % 10 == d);
    }
}

} // verus!
