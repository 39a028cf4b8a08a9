//! Strings as sequences of characters.

use vstd::prelude::*;
use vstd::utf8::encode_utf8;

verus! {

/// `String::push` adds a character at the end.
pub assume_specification[ String::push ](s: &mut String, c: char)
    ensures
        final(s)@ == old(s)@.push(c),
;

/// The text inside an optional string.
pub open spec fn opt_text(o: Option<String>) -> Option<Seq<char>> {
    match o {
        Some(s) => Some(s@),
        None => None,
    }
}

/// The text inside an optional string slice.
pub open spec fn opt_str(o: Option<&str>) -> Option<Seq<char>> {
    match o {
        Some(s) => Some(s@),
        None => None,
    }
}

/// The text inside, or nothing.
pub open spec fn or_empty(o: Option<Seq<char>>) -> Seq<char> {
    match o {
        Some(s) => s,
        None => Seq::empty(),
    }
}

/// The characters of a string.
pub fn chars_of(s: &str) -> (r: Vec<char>)
    ensures
        r@ == s@,
{
    let mut r: Vec<char> = Vec::new();
    for c in it: s.chars()
        invariant
            it.seq() == s@,
            r@ == s@.take(it.index()),
    {
        assert(s@.take(it.index() + 1) == s@.take(it.index()).push(c));
        r.push(c);
    }
    assert(s@.take(s@.len() as int) == s@);
    r
}

/// The characters from `lo` up to `hi` as a string.
pub fn string_between(chars: &Vec<char>, lo: usize, hi: usize) -> (r: String)
    requires
        lo <= hi <= chars@.len(),
    ensures
        r@ == chars@.subrange(lo as int, hi as int),
{
    let mut r = String::new();
    for i in lo..hi
        invariant
            lo <= i <= hi <= chars@.len(),
            r@ == chars@.subrange(lo as int, i as int),
    {
        assert(chars@.subrange(lo as int, i + 1) == chars@.subrange(lo as int, i as int).push(
            chars@[i as int],
        ));
        r.push(chars[i]);
    }
    r
}

/// Do two strings hold the same text?
pub fn str_eq(a: &str, b: &str) -> (r: bool)
    ensures
        r == (a@ == b@),
{
    let x = a.as_bytes();
    let y = b.as_bytes();
    if x.len() != y.len() {
        return false;
    }
    for i in 0..x.len()
        invariant
            x@ == encode_utf8(a@),
            y@ == encode_utf8(b@),
            x@.len() == y@.len(),
            forall|j: int| 0 <= j < i ==> x@[j] == y@[j],
    {
        if x[i] != y[i] {
            return false;
        }
    }
    proof {
        assert(x@ =~= y@);
        vstd::utf8::encode_utf8_decode_utf8(a@);
        vstd::utf8::encode_utf8_decode_utf8(b@);
    }
    true
}

/// The characters with the Unicode property `White_Space`.
pub open spec fn is_white(c: char) -> bool {
    ||| '\u{9}' <= c <= '\u{d}'
    ||| c == ' '
    ||| c == '\u{85}'
    ||| c == '\u{a0}'
    ||| c == '\u{1680}'
    ||| '\u{2000}' <= c <= '\u{200a}'
    ||| c == '\u{2028}'
    ||| c == '\u{2029}'
    ||| c == '\u{202f}'
    ||| c == '\u{205f}'
    ||| c == '\u{3000}'
}

/// Is this a white space character?
pub fn is_whitespace(c: char) -> (r: bool)
    ensures
        r == is_white(c),
{
    ('\u{9}' <= c && c <= '\u{d}') || c == ' ' || c == '\u{85}' || c == '\u{a0}' || c
        == '\u{1680}' || ('\u{2000}' <= c && c <= '\u{200a}') || c == '\u{2028}' || c == '\u{2029}'
        || c == '\u{202f}' || c == '\u{205f}' || c == '\u{3000}'
}

/// The text without leading white space.
pub open spec fn trim_start(s: Seq<char>) -> Seq<char>
    decreases s.len(),
{
    if s.len() > 0 && is_white(s[0]) {
        trim_start(s.drop_first())
    } else {
        s
    }
}

/// The text without trailing white space.
pub open spec fn trim_end(s: Seq<char>) -> Seq<char>
    decreases s.len(),
{
    if s.len() > 0 && is_white(s.last()) {
        trim_end(s.drop_last())
    } else {
        s
    }
}

/// The text without leading and trailing white space.
pub open spec fn trimmed(s: Seq<char>) -> Seq<char> {
    trim_end(trim_start(s))
}

/// The string without leading and trailing white space.
pub fn trim(s: &str) -> (r: String)
    ensures
        r@ == trimmed(s@),
{
    let chars = chars_of(s);
    let mut lo: usize = 0;
    assert(chars@.skip(0) == chars@);
    while lo < chars.len() && is_whitespace(chars[lo])
        invariant
            lo <= chars@.len(),
            trim_start(chars@.skip(lo as int)) == trim_start(chars@),
        decreases chars@.len() - lo,
    {
        assert(chars@.skip(lo as int).drop_first() == chars@.skip(lo + 1));
        lo = lo + 1;
    }
    assert(chars@.skip(lo as int) == trim_start(chars@));
    let mut hi: usize = chars.len();
    assert(chars@.subrange(lo as int, hi as int) == chars@.skip(lo as int));
    while lo < hi && is_whitespace(chars[hi - 1])
        invariant
            lo <= hi <= chars@.len(),
            trim_end(chars@.subrange(lo as int, hi as int)) == trim_end(trim_start(chars@)),
        decreases hi,
    {
        assert(chars@.subrange(lo as int, hi as int).drop_last() == chars@.subrange(
            lo as int,
            hi - 1,
        ));
        hi = hi - 1;
    }
    string_between(&chars, lo, hi)
}

proof fn lemma_trim_start(s: Seq<char>)
    ensures
        trim_start(s).len() > 0 ==> !is_white(trim_start(s)[0]),
        trim_start(s).len() <= s.len(),
        trim_start(s) == s.skip(s.len() - trim_start(s).len()),
        forall|i: int| 0 <= i < s.len() - trim_start(s).len() ==> is_white(#[trigger] s[i]),
    decreases s.len(),
{
    if s.len() > 0 && is_white(s[0]) {
        let rest = s.drop_first();
        lemma_trim_start(rest);
        assert(trim_start(s) == s.skip(s.len() - trim_start(s).len()));
        assert forall|i: int| 0 <= i < s.len() - trim_start(s).len() implies is_white(
            #[trigger] s[i],
        ) by {
            if i > 0 {
                assert(rest[i - 1] == s[i]);
            }
        }
    } else {
        assert(s.skip(0) == s);
    }
}

proof fn lemma_trim_end(s: Seq<char>)
    ensures
        trim_end(s).len() > 0 ==> !is_white(trim_end(s).last()),
        trim_end(s).len() <= s.len(),
        trim_end(s) == s.take(trim_end(s).len() as int),
        forall|i: int| trim_end(s).len() <= i < s.len() ==> is_white(#[trigger] s[i]),
    decreases s.len(),
{
    if s.len() > 0 && is_white(s.last()) {
        let rest = s.drop_last();
        lemma_trim_end(rest);
        assert(trim_end(s) == s.take(trim_end(s).len() as int));
        assert forall|i: int| trim_end(s).len() <= i < s.len() implies is_white(#[trigger] s[i]) by {
            if i < s.len() - 1 {
                assert(rest[i] == s[i]);
            }
        }
    } else {
        assert(s.take(s.len() as int) == s);
    }
}

/// What is left after trimming neither starts nor ends with white space, and what does neither
/// is left alone by trimming.
pub proof fn lemma_trimmed(s: Seq<char>)
    ensures
        trimmed(s).len() > 0 ==> !is_white(trimmed(s)[0]) && !is_white(trimmed(s).last()),
        s.len() == 0 || (!is_white(s[0]) && !is_white(s.last())) ==> trimmed(s) == s,
{
    lemma_trim_start(s);
    lemma_trim_end(trim_start(s));
}

/// Trimming twice is trimming once.
pub proof fn law_trim_idempotent(s: Seq<char>)
    ensures
        trimmed(trimmed(s)) == trimmed(s),
{
    lemma_trimmed(s);
    lemma_trimmed(trimmed(s));
}

/// Trimming leaves nothing exactly when there was nothing but white space.
pub proof fn law_trimmed_blank(s: Seq<char>)
    ensures
        trimmed(s).len() == 0 <==> blank(s),
{
    lemma_trim_start(s);
    let t = trim_start(s);
    lemma_trim_end(t);
    let n = s.len() - t.len();
    if trimmed(s).len() == 0 {
        assert forall|i: int| 0 <= i < s.len() implies is_white(#[trigger] s[i]) by {
            if i >= n {
                assert(t[i - n] == s[i]);
            }
        }
    }
    if blank(s) {
        if t.len() > 0 {
            assert(t[0] == s[n]);
        }
    }
}

/// There is nothing but white space in the text.
pub open spec fn blank(s: Seq<char>) -> bool {
    forall|i: int| 0 <= i < s.len() ==> is_white(#[trigger] s[i])
}

/// Is there nothing but white space in the string?
pub fn is_blank(s: &str) -> (r: bool)
    ensures
        r == blank(s@),
{
    let chars = chars_of(s);
    for i in 0..chars.len()
        invariant
            chars@ == s@,
            forall|j: int| 0 <= j < i ==> is_white(#[trigger] s@[j]),
    {
        if !is_whitespace(chars[i]) {
            assert(!is_white(s@[i as int]));
            return false;
        }
    }
    true
}

/// How many characters stand before the first white space.
pub open spec fn word_len(s: Seq<char>) -> nat
    decreases s.len(),
{
    if s.len() == 0 || is_white(s[0]) {
        0
    } else {
        1 + word_len(s.drop_first())
    }
}

/// The word at the front of a text holds no white space and goes on to the next.
pub proof fn lemma_word_len(s: Seq<char>)
    ensures
        word_len(s) <= s.len(),
        forall|i: int| 0 <= i < word_len(s) ==> !is_white(#[trigger] s[i]),
        word_len(s) < s.len() ==> is_white(s[word_len(s) as int]),
    decreases s.len(),
{
    if s.len() > 0 && !is_white(s[0]) {
        let rest = s.drop_first();
        lemma_word_len(rest);
        assert forall|i: int| 0 <= i < word_len(s) implies !is_white(#[trigger] s[i]) by {
            if i > 0 {
                assert(rest[i - 1] == s[i]);
            }
        }
    }
}

/// The words of a text: what stands between white space.
pub open spec fn words(s: Seq<char>) -> Seq<Seq<char>>
    decreases s.len(),
{
    if s.len() == 0 {
        Seq::empty()
    } else if is_white(s[0]) {
        words(s.drop_first())
    } else {
        proof {
            lemma_word_len(s);
        }
        let n = word_len(s) as int;
        seq![s.take(n)] + words(s.skip(n))
    }
}

/// The texts of a list of strings.
pub open spec fn texts(v: Seq<String>) -> Seq<Seq<char>> {
    v.map_values(|s: String| s@)
}

/// A word is not empty and holds no white space.
pub proof fn law_words_are_words(s: Seq<char>, k: int)
    requires
        0 <= k < words(s).len(),
    ensures
        words(s)[k].len() > 0,
        forall|i: int| 0 <= i < words(s)[k].len() ==> !is_white(#[trigger] words(s)[k][i]),
    decreases s.len(),
{
    if is_white(s[0]) {
        law_words_are_words(s.drop_first(), k);
    } else {
        lemma_word_len(s);
        let n = word_len(s) as int;
        if k > 0 {
            law_words_are_words(s.skip(n), k - 1);
        }
    }
}

/// Every character of a word comes from the text.
pub proof fn law_words_come_from_text(s: Seq<char>, k: int, i: int)
    requires
        0 <= k < words(s).len(),
        0 <= i < words(s)[k].len(),
    ensures
        s.contains(words(s)[k][i]),
    decreases s.len(),
{
    if is_white(s[0]) {
        let rest = s.drop_first();
        law_words_come_from_text(rest, k, i);
        let j = choose|j: int| 0 <= j < rest.len() && rest[j] == words(s)[k][i];
        assert(s[j + 1] == words(s)[k][i]);
    } else {
        lemma_word_len(s);
        let n = word_len(s) as int;
        if k == 0 {
            assert(s[i] == words(s)[k][i]);
        } else {
            let rest = s.skip(n);
            law_words_come_from_text(rest, k - 1, i);
            let j = choose|j: int| 0 <= j < rest.len() && rest[j] == words(s)[k][i];
            assert(s[j + n] == words(s)[k][i]);
        }
    }
}

/// Every character of the text that is not white space is in one of its words.
pub proof fn law_words_hold_text(s: Seq<char>, i: int)
    requires
        0 <= i < s.len(),
        !is_white(s[i]),
    ensures
        exists|k: int| 0 <= k < words(s).len() && (#[trigger] words(s)[k]).contains(s[i]),
    decreases s.len(),
{
    if is_white(s[0]) {
        let rest = s.drop_first();
        assert(rest[i - 1] == s[i]);
        law_words_hold_text(rest, i - 1);
        let k = choose|k: int|
            0 <= k < words(rest).len() && (#[trigger] words(rest)[k]).contains(rest[i - 1]);
        assert(words(s)[k].contains(s[i]));
    } else {
        lemma_word_len(s);
        let n = word_len(s) as int;
        if i < n {
            let front = s.take(n);
            assert(words(s)[0] == front);
            assert(front[i] == s[i]);
            assert(front.contains(front[i]));
            assert(words(s)[0].contains(s[i]));
        } else {
            let rest = s.skip(n);
            assert(rest[i - n] == s[i]);
            law_words_hold_text(rest, i - n);
            let k = choose|k: int|
                0 <= k < words(rest).len() && (#[trigger] words(rest)[k]).contains(rest[i - n]);
            assert(words(s)[k + 1] == words(rest)[k]);
            assert(words(s)[k + 1].contains(s[i]));
        }
    }
}

/// White space at the end of a text is in none of its words.
proof fn lemma_words_drop_last(s: Seq<char>)
    requires
        s.len() > 0,
        is_white(s.last()),
    ensures
        words(s.drop_last()) == words(s),
    decreases s.len(),
{
    let d = s.drop_last();
    if is_white(s[0]) {
        if s.len() > 1 {
            let rest = s.drop_first();
            assert(rest.last() == s.last());
            lemma_words_drop_last(rest);
            assert(d.drop_first() =~= rest.drop_last());
        } else {
            assert(s.drop_first() =~= d);
        }
    } else {
        lemma_word_len(s);
        lemma_word_len(d);
        let n = word_len(s) as int;
        let m = word_len(d) as int;
        assert(s[s.len() - 1] == s.last());
        assert(n <= d.len());
        if m < n {
            assert(d[m] == s[m]);
        } else if n < m {
            assert(d[n] == s[n]);
        }
        assert(m == n);
        let rest = s.skip(n);
        assert(rest.last() == s.last());
        lemma_words_drop_last(rest);
        assert(d.skip(n) =~= rest.drop_last());
        assert(d.take(n) =~= s.take(n));
    }
}

proof fn lemma_words_trim_start(s: Seq<char>)
    ensures
        words(trim_start(s)) == words(s),
    decreases s.len(),
{
    if s.len() > 0 && is_white(s[0]) {
        lemma_words_trim_start(s.drop_first());
    }
}

proof fn lemma_words_trim_end(s: Seq<char>)
    ensures
        words(trim_end(s)) == words(s),
    decreases s.len(),
{
    if s.len() > 0 && is_white(s.last()) {
        lemma_words_drop_last(s);
        lemma_words_trim_end(s.drop_last());
    }
}

/// Trimming keeps the words of a text.
pub proof fn law_trimming_keeps_words(s: Seq<char>)
    ensures
        words(trimmed(s)) == words(s),
{
    lemma_words_trim_start(s);
    lemma_words_trim_end(trim_start(s));
}

/// The words of a string, in order.
pub fn split_whitespace(s: &str) -> (r: Vec<String>)
    ensures
        texts(r@) == words(s@),
{
    let chars = chars_of(s);
    let mut r: Vec<String> = Vec::new();
    let mut i: usize = 0;
    assert(chars@.skip(0) == chars@);
    assert(texts(r@) + words(chars@) == words(chars@));
    while i < chars.len()
        invariant
            i <= chars@.len(),
            texts(r@) + words(chars@.skip(i as int)) == words(chars@),
        decreases chars@.len() - i,
    {
        let ghost rest = chars@.skip(i as int);
        if is_whitespace(chars[i]) {
            assert(rest.drop_first() == chars@.skip(i + 1));
            i = i + 1;
        } else {
            let start = i;
            assert(rest.skip(0) == rest);
            while i < chars.len() && !is_whitespace(chars[i])
                invariant
                    start <= i <= chars@.len(),
                    rest == chars@.skip(start as int),
                    word_len(rest) == (i - start) + word_len(chars@.skip(i as int)),
                decreases chars@.len() - i,
            {
                assert(chars@.skip(i as int).drop_first() == chars@.skip(i + 1));
                i = i + 1;
            }
            let word = string_between(&chars, start, i);
            proof {
                let n = word_len(rest) as int;
                assert(n == i - start);
                assert(word@ == rest.take(n));
                assert(rest.skip(n) == chars@.skip(i as int));
                assert(texts(r@.push(word)) == texts(r@) + seq![word@]);
                assert(texts(r@) + (seq![word@] + words(chars@.skip(i as int))) == texts(
                    r@.push(word),
                ) + words(chars@.skip(i as int)));
            }
            r.push(word);
        }
    }
    assert(texts(r@) + words(chars@.skip(chars@.len() as int)) == texts(r@));
    r
}

/// The texts with a separator between each two of them.
pub open spec fn joined(parts: Seq<Seq<char>>, sep: Seq<char>) -> Seq<char>
    decreases parts.len(),
{
    if parts.len() == 0 {
        Seq::empty()
    } else if parts.len() == 1 {
        parts[0]
    } else {
        joined(parts.drop_last(), sep) + sep + parts.last()
    }
}

/// The strings with a separator between each two of them.
pub fn join(parts: &Vec<String>, sep: &str) -> (r: String)
    ensures
        r@ == joined(texts(parts@), sep@),
{
    let mut r = String::new();
    for i in 0..parts.len()
        invariant
            r@ == joined(texts(parts@).take(i as int), sep@),
    {
        if i > 0 {
            r.append(sep);
        }
        r.append(parts[i].as_str());
        proof {
            let t = texts(parts@);
            assert(t.take(i + 1).drop_last() == t.take(i as int));
            assert(t.take(i + 1).last() == parts@[i as int]@);
        }
    }
    assert(texts(parts@).take(parts@.len() as int) == texts(parts@));
    r
}

/// The text with each `from` replaced by `to`.
pub open spec fn replaced(s: Seq<char>, from: char, to: Seq<char>) -> Seq<char>
    decreases s.len(),
{
    if s.len() == 0 {
        Seq::empty()
    } else {
        replaced(s.drop_last(), from, to) + if s.last() == from {
            to
        } else {
            seq![s.last()]
        }
    }
}

/// The string with each `from` replaced by `to`.
pub fn replace(s: &str, from: char, to: &str) -> (r: String)
    ensures
        r@ == replaced(s@, from, to@),
{
    let chars = chars_of(s);
    let mut r = String::new();
    for i in 0..chars.len()
        invariant
            chars@ == s@,
            r@ == replaced(s@.take(i as int), from, to@),
    {
        assert(s@.take(i + 1).drop_last() == s@.take(i as int));
        if chars[i] == from {
            r.append(to);
        } else {
            r.push(chars[i]);
        }
    }
    assert(s@.take(s@.len() as int) == s@);
    r
}

/// Does the character occur in the string?
pub fn contains_char(s: &str, c: char) -> (r: bool)
    ensures
        r == s@.contains(c),
{
    let chars = chars_of(s);
    for i in 0..chars.len()
        invariant
            chars@ == s@,
            forall|j: int| 0 <= j < i ==> s@[j] != c,
    {
        if chars[i] == c {
            assert(s@[i as int] == c);
            return true;
        }
    }
    false
}

/// Does the string start with the prefix?
pub fn starts_with(s: &str, prefix: &str) -> (r: bool)
    ensures
        r == prefix@.is_prefix_of(s@),
{
    let x = chars_of(s);
    let y = chars_of(prefix);
    if y.len() > x.len() {
        return false;
    }
    for i in 0..y.len()
        invariant
            x@ == s@,
            y@ == prefix@,
            y@.len() <= x@.len(),
            forall|j: int| 0 <= j < i ==> x@[j] == y@[j],
    {
        if x[i] != y[i] {
            assert(x@.take(y@.len() as int)[i as int] == x@[i as int]);
            return false;
        }
    }
    assert(x@.take(y@.len() as int) =~= y@);
    true
}

/// A text is a part of another, in one piece.
pub open spec fn occurs(part: Seq<char>, whole: Seq<char>) -> bool {
    exists|i: int| 0 <= i <= whole.len() && part.is_prefix_of(#[trigger] whole.skip(i))
}

/// Texts are parts of another, one behind the other, and no two of them overlap.
#[verifier::opaque]
pub open spec fn in_order(parts: Seq<Seq<char>>, whole: Seq<char>) -> bool
    decreases parts.len(),
{
    parts.len() == 0 || exists|i: int|
        0 <= i && i + parts.last().len() <= whole.len() && in_order(
            parts.drop_last(),
            #[trigger] whole.take(i),
        ) && whole.subrange(i, i + parts.last().len()) == parts.last()
}

/// No text at all is in every text.
pub proof fn lemma_in_order_none(whole: Seq<char>)
    ensures
        in_order(Seq::empty(), whole),
{
    reveal(in_order);
}

/// What is in a text stays in it when it grows.
pub proof fn lemma_in_order_more(parts: Seq<Seq<char>>, whole: Seq<char>, more: Seq<char>)
    requires
        in_order(parts, whole),
    ensures
        in_order(parts, whole + more),
{
    reveal(in_order);
    if parts.len() > 0 {
        let i = choose|i: int|
            0 <= i && i + parts.last().len() <= whole.len() && in_order(
                parts.drop_last(),
                #[trigger] whole.take(i),
            ) && whole.subrange(i, i + parts.last().len()) == parts.last();
        let longer = whole + more;
        assert(longer.take(i) =~= whole.take(i));
        assert(longer.subrange(i, i + parts.last().len()) =~= whole.subrange(
            i,
            i + parts.last().len(),
        ));
    }
}

/// What a text grows by is behind all that is in it.
pub proof fn lemma_in_order_next(parts: Seq<Seq<char>>, whole: Seq<char>, part: Seq<char>)
    requires
        in_order(parts, whole),
    ensures
        in_order(parts.push(part), whole + part),
{
    reveal(in_order);
    let longer = whole + part;
    let i = whole.len() as int;
    assert(longer.take(i) =~= whole);
    assert(parts.push(part).drop_last() =~= parts);
    assert(longer.subrange(i, i + part.len()) =~= part);
}

/// Trimming cuts off white space at the two ends, and nothing else.
pub proof fn law_trimming_cuts_white_space(s: Seq<char>)
    ensures
        exists|i: int|
            0 <= i <= i + trimmed(s).len() <= s.len() && blank(#[trigger] s.take(i)) && s.subrange(
                i,
                i + trimmed(s).len(),
            ) == trimmed(s) && blank(s.skip(i + trimmed(s).len())),
{
    lemma_trim_start(s);
    let t = trim_start(s);
    lemma_trim_end(t);
    let i = s.len() - t.len();
    let n = trimmed(s).len() as int;
    assert forall|k: int| 0 <= k < s.take(i).len() implies is_white(#[trigger] s.take(i)[k]) by {
        assert(is_white(s[k]));
    }
    let rest = s.skip(i + n);
    assert forall|k: int| 0 <= k < rest.len() implies is_white(#[trigger] rest[k]) by {
        assert(is_white(t[n + k]));
        assert(t[n + k] == s[i + n + k]);
    }
    assert(s.subrange(i, i + n) =~= trimmed(s));
    assert(blank(s.take(i)));
}

/// A text without white space is one word, and an empty one is none.
pub proof fn law_word_is_its_own_word(w: Seq<char>)
    requires
        forall|i: int| 0 <= i < w.len() ==> !is_white(#[trigger] w[i]),
    ensures
        w.len() > 0 ==> words(w) == seq![w],
        w.len() == 0 ==> words(w).len() == 0,
{
    if w.len() > 0 {
        lemma_word_len(w);
        assert(!is_white(w[0]));
        assert(word_len(w) == w.len());
        assert(w.take(w.len() as int) =~= w);
        assert(words(w.skip(w.len() as int)) =~= Seq::<Seq<char>>::empty());
        assert(words(w) =~= seq![w]);
    }
}

/// White space parts words: the words of two texts with white space between are those of the one and
/// then those of the other.
pub proof fn law_white_space_parts_words(a: Seq<char>, c: char, b: Seq<char>)
    requires
        is_white(c),
    ensures
        words(a + seq![c] + b) == words(a) + words(b),
    decreases a.len(),
{
    let s = a + seq![c] + b;
    if a.len() == 0 {
        assert(s[0] == c);
        assert(s.drop_first() =~= b);
        assert(words(a) + words(b) =~= words(b));
    } else if is_white(a[0]) {
        law_white_space_parts_words(a.drop_first(), c, b);
        assert(s[0] == a[0]);
        assert(s.drop_first() =~= a.drop_first() + seq![c] + b);
    } else {
        lemma_word_len(a);
        lemma_word_len(s);
        let n = word_len(a) as int;
        let m = word_len(s) as int;
        assert(s[0] == a[0]);
        assert(s[a.len() as int] == c);
        if n < a.len() {
            assert(s[n] == a[n]);
        }
        if m < n {
            assert(s[m] == a[m]);
        }
        assert(m == n);
        law_white_space_parts_words(a.skip(n), c, b);
        assert(s.take(n) =~= a.take(n));
        assert(s.skip(n) =~= a.skip(n) + seq![c] + b);
        assert(seq![a.take(n)] + (words(a.skip(n)) + words(b)) =~= (seq![a.take(n)] + words(
            a.skip(n),
        )) + words(b));
    }
}

/// Joining puts the separator between each two texts: one more text goes behind the others and a
/// separator.
pub proof fn law_joining_goes_on(parts: Seq<Seq<char>>, sep: Seq<char>, part: Seq<char>)
    ensures
        joined(parts.push(part), sep) == if parts.len() == 0 {
            part
        } else {
            joined(parts, sep) + sep + part
        },
        joined(Seq::<Seq<char>>::empty(), sep).len() == 0,
{
    assert(parts.push(part).drop_last() =~= parts);
}

/// Replacing looks at each character by itself.
pub proof fn law_replacing_goes_on(s: Seq<char>, c: char, from: char, to: Seq<char>)
    ensures
        replaced(s.push(c), from, to) == replaced(s, from, to) + if c == from {
            to
        } else {
            seq![c]
        },
        replaced(Seq::empty(), from, to).len() == 0,
{
    assert(s.push(c).drop_last() =~= s);
}

/// How long texts are together.
pub open spec fn total_len(parts: Seq<Seq<char>>) -> nat
    decreases parts.len(),
{
    if parts.len() == 0 {
        0
    } else {
        total_len(parts.drop_last()) + parts.last().len()
    }
}

/// One more text is as much longer.
pub proof fn lemma_total_push(parts: Seq<Seq<char>>, part: Seq<char>)
    ensures
        total_len(parts.push(part)) == total_len(parts) + part.len(),
{
    assert(parts.push(part).drop_last() =~= parts);
}


/// A text is made of these parts, one behind the other, and of so many characters of its own between
/// and around them.
pub open spec fn made_of(whole: Seq<char>, parts: Seq<Seq<char>>, own: nat) -> bool {
    in_order(parts, whole) && whole.len() == total_len(parts) + own
}

/// A text of its own has no parts.
pub proof fn lemma_made_own(own: Seq<char>)
    ensures
        made_of(own, Seq::empty(), own.len()),
{
    lemma_in_order_none(own);
}

/// A text that grows by characters of its own is made of the same parts.
pub proof fn lemma_made_more(whole: Seq<char>, parts: Seq<Seq<char>>, own: nat, more: Seq<char>)
    requires
        made_of(whole, parts, own),
    ensures
        made_of(whole + more, parts, own + more.len()),
{
    lemma_in_order_more(parts, whole, more);
}

/// A text that grows by a part is made of one part more.
pub proof fn lemma_made_next(whole: Seq<char>, parts: Seq<Seq<char>>, own: nat, part: Seq<char>)
    requires
        made_of(whole, parts, own),
    ensures
        made_of(whole + part, parts.push(part), own),
{
    lemma_in_order_next(parts, whole, part);
    lemma_total_push(parts, part);
}

} // verus!
