//! Request targets: the path, and the parameters in the query behind it.

use vstd::hash_map::StringHashMap;
use vstd::prelude::*;
use vstd::utf8::{decode_utf8, encode_utf8, valid_utf8};

use crate::format::{decimal, digit, digits};
use crate::json::as_i64_of;
use crate::text::{chars_of, opt_str, string_between, texts};

verus! {

/// The place of the first such character, or the length where there is none.
pub open spec fn find(s: Seq<char>, c: char) -> nat
    decreases s.len(),
{
    if s.len() == 0 || s[0] == c {
        0
    } else {
        1 + find(s.drop_first(), c)
    }
}

/// The character stands at the place that is found, and nowhere before.
pub proof fn lemma_find(s: Seq<char>, c: char)
    ensures
        find(s, c) <= s.len(),
        forall|i: int| 0 <= i < find(s, c) ==> #[trigger] s[i] != c,
        find(s, c) < s.len() ==> s[find(s, c) as int] == c,
    decreases s.len(),
{
    if s.len() > 0 && s[0] != c {
        let rest = s.drop_first();
        lemma_find(rest, c);
        assert forall|i: int| 0 <= i < find(s, c) implies #[trigger] s[i] != c by {
            if i > 0 {
                assert(rest[i - 1] == s[i]);
            }
        }
    }
}

fn find_from(chars: &Vec<char>, start: usize, c: char) -> (r: usize)
    requires
        start <= chars@.len(),
    ensures
        start <= r <= chars@.len(),
        r == start + find(chars@.skip(start as int), c),
{
    let mut i = start;
    while i < chars.len() && chars[i] != c
        invariant
            start <= i <= chars@.len(),
            find(chars@.skip(start as int), c) == (i - start) + find(chars@.skip(i as int), c),
        decreases chars@.len() - i,
    {
        assert(chars@.skip(i as int).drop_first() == chars@.skip(i + 1));
        i = i + 1;
    }
    i
}

/// What stands before the first such character; everything where there is none.
pub open spec fn before(s: Seq<char>, c: char) -> Seq<char> {
    s.take(find(s, c) as int)
}

/// What stands behind the first such character; nothing where there is none.
pub open spec fn behind(s: Seq<char>, c: char) -> Seq<char> {
    if find(s, c) < s.len() {
        s.skip(find(s, c) as int + 1)
    } else {
        Seq::empty()
    }
}

/// The path of a request target, and the query behind the first `?`.
pub fn split_url(url: &str) -> (r: (String, &str))
    ensures
        r.0@ == before(url@, '?'),
        r.1@ == behind(url@, '?'),
{
    let chars = chars_of(url);
    let n = find_from(&chars, 0, '?');
    assert(url@.skip(0) == url@);
    assert(url@.subrange(0, n as int) == url@.take(n as int));
    let path = string_between(&chars, 0, n);
    if n < chars.len() {
        assert(url@.subrange(n + 1, url@.len() as int) == url@.skip(n + 1));
        (path, url.substring_char(n + 1, chars.len()))
    } else {
        proof {
            reveal_strlit("");
            assert(""@ == Seq::<char>::empty());
        }
        (path, "")
    }
}

/// `%` in ASCII.
pub const PERCENT: u8 = 0x25;

/// `+` in ASCII.
pub const PLUS: u8 = 0x2b;

/// A space in ASCII.
pub const SPACE: u8 = 0x20;

/// `0` in ASCII.
pub const DIGIT_0: u8 = 0x30;

/// `9` in ASCII.
pub const DIGIT_9: u8 = 0x39;

/// `A` in ASCII.
pub const UPPER_A: u8 = 0x41;

/// `F` in ASCII.
pub const UPPER_F: u8 = 0x46;

/// `a` in ASCII.
pub const LOWER_A: u8 = 0x61;

/// `f` in ASCII.
pub const LOWER_F: u8 = 0x66;

/// The value of a hexadecimal digit.
pub open spec fn hex_value(b: u8) -> Option<u8> {
    if DIGIT_0 <= b <= DIGIT_9 {
        Some((b - DIGIT_0) as u8)
    } else if LOWER_A <= b <= LOWER_F {
        Some((b - LOWER_A + 10) as u8)
    } else if UPPER_A <= b <= UPPER_F {
        Some((b - UPPER_A + 10) as u8)
    } else {
        None
    }
}

/// The value of a hexadecimal digit.
pub fn hex(b: u8) -> (r: Option<u8>)
    ensures
        r == hex_value(b),
{
    if DIGIT_0 <= b && b <= DIGIT_9 {
        Some(b - DIGIT_0)
    } else if LOWER_A <= b && b <= LOWER_F {
        Some(b - LOWER_A + 10)
    } else if UPPER_A <= b && b <= UPPER_F {
        Some(b - UPPER_A + 10)
    } else {
        None
    }
}

/// The bytes start with `%` and two hexadecimal digits.
pub open spec fn starts_escape(b: Seq<u8>) -> bool {
    b.len() > 2 && b[0] == PERCENT && hex_value(b[1]) is Some && hex_value(b[2]) is Some
}

/// The byte that `%` and two hexadecimal digits stand for.
pub open spec fn escape_value(b: Seq<u8>) -> u8 {
    (16 * hex_value(b[1])->0 + hex_value(b[2])->0) as u8
}

/// The bytes with `%` and two hexadecimal digits read as one byte, and `+` as a space. What is not
/// such an escape stays as it is.
pub open spec fn unescaped(b: Seq<u8>) -> Seq<u8>
    decreases b.len(),
{
    if b.len() == 0 {
        Seq::empty()
    } else if starts_escape(b) {
        seq![escape_value(b)] + unescaped(b.skip(3))
    } else {
        seq![if b[0] == PLUS { SPACE } else { b[0] }] + unescaped(b.drop_first())
    }
}

/// What `String::from_utf8_lossy` makes of bytes that are not valid UTF-8.
pub uninterp spec fn utf8_lossy(bytes: Seq<u8>) -> Seq<char>;

/// The text of bytes in UTF-8, made to fit where they are not.
pub open spec fn utf8_text(bytes: Seq<u8>) -> Seq<char> {
    if valid_utf8(bytes) {
        decode_utf8(bytes)
    } else {
        utf8_lossy(bytes)
    }
}

/// Calls `String::from_utf8_lossy`, which decodes bytes that are valid UTF-8. What it makes of
/// others is named [`utf8_lossy`] and not spelled out.
#[verifier::external_body]
fn from_utf8_lossy(bytes: &Vec<u8>) -> (r: String)
    ensures
        r@ == (if valid_utf8(bytes@) { decode_utf8(bytes@) } else { utf8_lossy(bytes@) }),
{
    String::from_utf8_lossy(bytes).into_owned()
}

/// The text that a key or a value of a query stands for.
pub open spec fn decoded(s: Seq<char>) -> Seq<char> {
    utf8_text(unescaped(encode_utf8(s)))
}

fn unescape(bytes: &[u8]) -> (out: Vec<u8>)
    ensures
        out@ == unescaped(bytes@),
{
    let mut out: Vec<u8> = Vec::new();
    let mut i: usize = 0;
    assert(bytes@.skip(0) == bytes@);
    assert(out@ + unescaped(bytes@) == unescaped(bytes@));
    while i < bytes.len()
        invariant
            i <= bytes@.len(),
            out@ + unescaped(bytes@.skip(i as int)) == unescaped(bytes@),
        decreases bytes@.len() - i,
    {
        let ghost rest = bytes@.skip(i as int);
        let b = bytes[i];
        let mut byte = b;
        let mut used: usize = 1;
        if b == PLUS {
            byte = SPACE;
        } else if b == PERCENT && bytes.len() - i > 2 {
            match (hex(bytes[i + 1]), hex(bytes[i + 2])) {
                (Some(h), Some(l)) => {
                    assert(h < 16 && l < 16);
                    assert((h << 4u8) | l == 16 * h + l) by (bit_vector)
                        requires
                            h < 16,
                            l < 16,
                    ;
                    byte = (h << 4u8) | l;
                    used = 3;
                },
                _ => {},
            }
        }
        proof {
            assert(rest[0] == b);
            if rest.len() > 2 {
                assert(rest[1] == bytes@[i + 1]);
                assert(rest[2] == bytes@[i + 2]);
            }
            assert(used == 3 <==> starts_escape(rest));
            assert(rest.skip(used as int) == bytes@.skip(i + used));
            assert(rest.drop_first() == rest.skip(1));
            assert(unescaped(rest) == seq![byte] + unescaped(bytes@.skip(i + used)));
            assert(out@ + (seq![byte] + unescaped(bytes@.skip(i + used))) == out@.push(byte)
                + unescaped(bytes@.skip(i + used)));
        }
        out.push(byte);
        i = i + used;
    }
    assert(out@ + unescaped(bytes@.skip(bytes@.len() as int)) == out@);
    out
}

/// The text that a key or a value of a query stands for.
pub fn urldecode(s: &str) -> (r: String)
    ensures
        r@ == decoded(s@),
{
    let out = unescape(s.as_bytes());
    from_utf8_lossy(&out)
}

/// The pieces of a text between such characters.
pub open spec fn pieces(s: Seq<char>, c: char) -> Seq<Seq<char>>
    decreases s.len(),
{
    proof {
        lemma_find(s, c);
    }
    if find(s, c) < s.len() {
        seq![before(s, c)] + pieces(behind(s, c), c)
    } else {
        seq![s]
    }
}

/// The pieces of a string between such characters.
pub fn split(s: &str, c: char) -> (r: Vec<String>)
    ensures
        texts(r@) == pieces(s@, c),
{
    let chars = chars_of(s);
    let mut r: Vec<String> = Vec::new();
    let mut i: usize = 0;
    assert(chars@.skip(0) == chars@);
    assert(texts(r@) + pieces(chars@, c) == pieces(chars@, c));
    loop
        invariant
            i <= chars@.len(),
            chars@ == s@,
            texts(r@) + pieces(chars@.skip(i as int), c) == pieces(s@, c),
        decreases chars@.len() - i,
    {
        let ghost rest = chars@.skip(i as int);
        let n = find_from(&chars, i, c);
        let piece = string_between(&chars, i, n);
        assert(texts(r@.push(piece)) == texts(r@) + seq![piece@]);
        if n == chars.len() {
            assert(piece@ == rest);
            r.push(piece);
            return r;
        }
        proof {
            assert(piece@ == before(rest, c));
            assert(behind(rest, c) == chars@.skip(n + 1));
            assert(texts(r@) + (seq![piece@] + pieces(chars@.skip(n + 1), c)) == texts(
                r@.push(piece),
            ) + pieces(chars@.skip(n + 1), c));
        }
        r.push(piece);
        i = n + 1;
    }
}

/// The parameters in a list of pairs; a later pair replaces an earlier one with the same key.
pub open spec fn params_of(pairs: Seq<Seq<char>>) -> Map<Seq<char>, Seq<char>>
    decreases pairs.len(),
{
    if pairs.len() == 0 {
        Map::empty()
    } else {
        let front = params_of(pairs.drop_last());
        let pair = pairs.last();
        if pair.len() == 0 {
            front
        } else {
            front.insert(decoded(before(pair, '=')), decoded(behind(pair, '=')))
        }
    }
}

/// The parameters in a query.
pub open spec fn query_of(q: Seq<char>) -> Map<Seq<char>, Seq<char>> {
    params_of(pieces(q, '&'))
}

/// The texts in a map of strings.
pub open spec fn map_texts(m: Map<Seq<char>, String>) -> Map<Seq<char>, Seq<char>> {
    m.map_values(|s: String| s@)
}

/// The parameters of a request.
pub type Params = StringHashMap<String>;

/// The parameters in a query. A key without `=` has the empty text, and of two pairs with the same
/// key the last one counts.
pub fn parse_query(q: &str) -> (r: Params)
    ensures
        map_texts(r@) == query_of(q@),
{
    let pairs = split(q, '&');
    let ghost all = texts(pairs@);
    let mut map = Params::new();
    assert(map_texts(map@) =~= Map::empty());
    for i in 0..pairs.len()
        invariant
            all == texts(pairs@),
            map_texts(map@) == params_of(all.take(i as int)),
    {
        let pair = pairs[i].as_str();
        proof {
            assert(all.take(i + 1).drop_last() == all.take(i as int));
            assert(all.take(i + 1).last() == pair@);
        }
        let chars = chars_of(pair);
        if chars.len() > 0 {
            let n = find_from(&chars, 0, '=');
            assert(pair@.skip(0) == pair@);
            let k = string_between(&chars, 0, n);
            assert(k@ == before(pair@, '='));
            let v = if n < chars.len() {
                string_between(&chars, n + 1, chars.len())
            } else {
                String::new()
            };
            assert(v@ == behind(pair@, '='));
            let key = urldecode(k.as_str());
            let value = urldecode(v.as_str());
            assert(map_texts(map@.insert(key@, value)) =~= map_texts(map@).insert(key@, value@));
            map.insert(key, value);
        }
    }
    assert(all.take(all.len() as int) == all);
    map
}

/// The character is a decimal digit.
pub open spec fn is_digit(c: char) -> bool {
    '0' <= c <= '9'
}

/// The number that decimal digits stand for.
pub open spec fn digits_value(s: Seq<char>) -> nat
    decreases s.len(),
{
    if s.len() == 0 {
        0
    } else {
        10 * digits_value(s.drop_last()) + (s.last() as nat - '0' as nat) as nat
    }
}

/// There is at least one character, and all are decimal digits.
pub open spec fn all_digits(s: Seq<char>) -> bool {
    s.len() > 0 && forall|i: int| 0 <= i < s.len() ==> is_digit(#[trigger] s[i])
}

/// The integer that a text stands for: decimal digits, behind a sign or not.
pub open spec fn int_of(s: Seq<char>) -> Option<int> {
    if s.len() > 0 && (s[0] == '-' || s[0] == '+') {
        let rest = s.drop_first();
        if all_digits(rest) {
            Some(if s[0] == '-' { -(digits_value(rest) as int) } else { digits_value(rest) as int })
        } else {
            None
        }
    } else if all_digits(s) {
        Some(digits_value(s) as int)
    } else {
        None
    }
}

/// The number that the decimal digits from `start` on stand for. Nothing where they are none, or
/// the number is over that of the least `i64`.
fn magnitude(chars: &Vec<char>, start: usize) -> (r: Option<u64>)
    requires
        start <= chars@.len(),
    ensures
        match r {
            Some(n) => all_digits(chars@.skip(start as int)) && n == digits_value(
                chars@.skip(start as int),
            ),
            None => !all_digits(chars@.skip(start as int)) || digits_value(
                chars@.skip(start as int),
            ) > i64::MAX + 1,
        },
{
    let ghost s = chars@.skip(start as int);
    if start == chars.len() {
        return None;
    }
    let mut over = false;
    let mut n: u64 = 0;
    assert(s.take(0) == Seq::<char>::empty());
    for i in start..chars.len()
        invariant
            s == chars@.skip(start as int),
            start <= i <= chars@.len(),
            forall|j: int| 0 <= j < i - start ==> is_digit(#[trigger] s[j]),
            !over ==> n == digits_value(s.take(i - start)) && n <= 0x8000_0000_0000_0000,
            over ==> digits_value(s.take(i - start)) > 0x8000_0000_0000_0000,
    {
        let c = chars[i];
        assert(s[i - start] == c);
        if c < '0' || c > '9' {
            return None;
        }
        assert(s.take(i - start + 1).drop_last() == s.take(i - start));
        if !over {
            let d: u64 = c as u64 - '0' as u64;
            if n > 0x0ccc_cccc_cccc_cccc {
                over = true;
            } else {
                n = 10 * n + d;
                if n > 0x8000_0000_0000_0000 {
                    over = true;
                }
            }
        }
    }
    assert(s.take(s.len() as int) == s);
    if over {
        None
    } else {
        Some(n)
    }
}

/// The integer that a string stands for, where it is in range.
pub fn parse_i64(s: &str) -> (r: Option<i64>)
    ensures
        r == as_i64_of(int_of(s@)),
{
    let chars = chars_of(s);
    let negative = chars.len() > 0 && chars[0] == '-';
    let signed = negative || (chars.len() > 0 && chars[0] == '+');
    let start = if signed {
        1
    } else {
        0
    };
    assert(s@.skip(0) == s@);
    assert(s@.len() > 0 ==> s@.skip(1) == s@.drop_first());
    match magnitude(&chars, start) {
        Some(n) => if negative {
            if n == 0x8000_0000_0000_0000 {
                Some(i64::MIN)
            } else if n < 0x8000_0000_0000_0000 {
                Some(-(n as i64))
            } else {
                None
            }
        } else if n < 0x8000_0000_0000_0000 {
            Some(n as i64)
        } else {
            None
        },
        None => None,
    }
}

/// The value of a parameter as an integer; the default where there is none, or none in range.
pub open spec fn int_param(p: Map<Seq<char>, Seq<char>>, key: Seq<char>, default: i64) -> i64 {
    if p.contains_key(key) {
        match as_i64_of(int_of(p[key])) {
            Some(i) => i,
            None => default,
        }
    } else {
        default
    }
}

/// The value of a parameter as an integer; the default where there is none, or none in range.
pub fn get_i64(p: &Params, key: &str, default: i64) -> (r: i64)
    ensures
        r == int_param(map_texts(p@), key@, default),
{
    match p.get(key) {
        Some(s) => match parse_i64(s.as_str()) {
            Some(i) => i,
            None => default,
        },
        None => default,
    }
}

/// The value of a parameter, unless it is empty.
pub open spec fn text_param(p: Map<Seq<char>, Seq<char>>, key: Seq<char>) -> Option<Seq<char>> {
    if p.contains_key(key) && p[key].len() > 0 {
        Some(p[key])
    } else {
        None
    }
}

/// The value of a parameter, unless it is empty.
pub fn get_str<'a>(p: &'a Params, key: &str) -> (r: Option<&'a str>)
    ensures
        opt_str(r) == text_param(map_texts(p@), key@),
{
    match p.get(key) {
        Some(s) => if s.as_str().is_empty() {
            None
        } else {
            Some(s.as_str())
        },
        None => None,
    }
}

/// The path and the query make up the request target, and the path holds no `?`.
pub proof fn law_split_url_loses_nothing(url: Seq<char>)
    ensures
        !before(url, '?').contains('?'),
        url.contains('?') ==> before(url, '?') + seq!['?'] + behind(url, '?') == url,
        !url.contains('?') ==> before(url, '?') == url && behind(url, '?').len() == 0,
{
    lemma_find(url, '?');
    let n = find(url, '?') as int;
    assert forall|i: int| 0 <= i < n implies before(url, '?')[i] != '?' by {
        assert(before(url, '?')[i] == url[i]);
    }
    if n < url.len() {
        assert(url[n] == '?');
        assert(before(url, '?') + seq!['?'] + behind(url, '?') =~= url);
    } else {
        assert(before(url, '?') =~= url);
    }
}

/// There is no escape in the bytes.
pub open spec fn has_no_escape(b: Seq<u8>) -> bool {
    forall|i: int| 0 <= i < b.len() ==> !starts_escape(#[trigger] b.skip(i))
}

proof fn lemma_plain_bytes(b: Seq<u8>)
    requires
        forall|i: int| 0 <= i < b.len() ==> #[trigger] b[i] != PLUS,
        has_no_escape(b),
    ensures
        unescaped(b) == b,
    decreases b.len(),
{
    if b.len() > 0 {
        assert(b.skip(0) == b);
        assert(b[0] != PLUS);
        let rest = b.drop_first();
        assert forall|i: int| 0 <= i < rest.len() implies #[trigger] rest[i] != PLUS by {
            assert(rest[i] == b[i + 1]);
        }
        assert forall|i: int| 0 <= i < rest.len() implies !starts_escape(#[trigger] rest.skip(i)) by {
            assert(rest.skip(i) == b.skip(i + 1));
        }
        lemma_plain_bytes(rest);
        assert(seq![b[0]] + rest == b);
    }
}

/// The bytes of a character above ASCII are above ASCII.
proof fn lemma_scalar_bytes(c: char)
    ensures
        c <= '\u{7f}' ==> vstd::utf8::encode_scalar(c as u32) == seq![c as u8] && c as u8 as int
            == c as int,
        c > '\u{7f}' ==> forall|i: int|
            0 <= i < vstd::utf8::encode_scalar(c as u32).len()
                ==> #[trigger] vstd::utf8::encode_scalar(c as u32)[i] >= 0x80,
{
    let v = c as u32;
    vstd::utf8::char_is_scalar(c);
    assert(v <= 0x7f ==> vstd::utf8::leading_byte_width_1(v) == v as u8) by (bit_vector);
    assert(vstd::utf8::last_continuation_byte(v) >= 0x80) by (bit_vector);
    assert(vstd::utf8::second_last_continuation_byte(v) >= 0x80) by (bit_vector);
    assert(vstd::utf8::third_last_continuation_byte(v) >= 0x80) by (bit_vector);
    assert(vstd::utf8::leading_byte_width_2(v) >= 0x80) by (bit_vector);
    assert(vstd::utf8::leading_byte_width_3(v) >= 0x80) by (bit_vector);
    assert(vstd::utf8::leading_byte_width_4(v) >= 0x80) by (bit_vector);
}

/// A byte of ASCII that is in no character is in no byte of the text.
proof fn lemma_ascii_absent(s: Seq<char>, c: char, b: u8)
    requires
        b < 0x80,
        b as int == c as int,
        !s.contains(c),
    ensures
        forall|i: int| 0 <= i < encode_utf8(s).len() ==> #[trigger] encode_utf8(s)[i] != b,
    decreases s.len(),
{
    if s.len() > 0 {
        let rest = s.drop_first();
        assert(s[0] != c);
        if rest.contains(c) {
            let i = choose|i: int| 0 <= i < rest.len() && rest[i] == c;
            assert(s[i + 1] == c);
        }
        lemma_ascii_absent(rest, c, b);
        lemma_scalar_bytes(s[0]);
        let head = vstd::utf8::encode_scalar(s[0] as u32);
        assert forall|i: int| 0 <= i < encode_utf8(s).len() implies #[trigger] encode_utf8(s)[i]
            != b by {
            if i < head.len() {
                assert(encode_utf8(s)[i] == head[i]);
                if s[0] <= '\u{7f}' {
                    assert(head[i] == s[0] as u8);
                    assert(head[i] as int == s[0] as int);
                }
            } else {
                assert(encode_utf8(s)[i] == encode_utf8(rest)[i - head.len()]);
            }
        }
    }
}

/// Text without `+` and without an escape stands for itself.
pub proof fn law_plain_text_stands_for_itself(s: Seq<char>)
    requires
        !s.contains('+'),
        has_no_escape(encode_utf8(s)),
    ensures
        decoded(s) == s,
{
    lemma_ascii_absent(s, '+', PLUS);
    lemma_plain_bytes(encode_utf8(s));
    vstd::utf8::encode_utf8_valid_utf8(s);
    vstd::utf8::encode_utf8_decode_utf8(s);
}

/// Text without `%` holds no escape.
pub proof fn law_escapes_start_with_percent(s: Seq<char>)
    requires
        !s.contains('%'),
    ensures
        has_no_escape(encode_utf8(s)),
{
    lemma_ascii_absent(s, '%', PERCENT);
    let b = encode_utf8(s);
    assert forall|i: int| 0 <= i < b.len() implies !starts_escape(#[trigger] b.skip(i)) by {
        assert(b.skip(i)[0] == b[i]);
        assert(b[i] != PERCENT);
    }
}

/// The hexadecimal digit with a value.
pub open spec fn hex_digit(v: u8) -> u8 {
    if v < 10 {
        (DIGIT_0 + v) as u8
    } else {
        (UPPER_A + v - 10) as u8
    }
}

/// The bytes with each of them written as `%` and two hexadecimal digits.
pub open spec fn escaped(b: Seq<u8>) -> Seq<u8>
    decreases b.len(),
{
    if b.len() == 0 {
        Seq::empty()
    } else {
        seq![PERCENT, hex_digit(b[0] / 16), hex_digit(b[0] % 16)] + escaped(b.drop_first())
    }
}

proof fn lemma_escaped(b: Seq<u8>)
    ensures
        unescaped(escaped(b)) == b,
        forall|i: int| 0 <= i < escaped(b).len() ==> #[trigger] escaped(b)[i] < 0x80,
    decreases b.len(),
{
    if b.len() > 0 {
        let rest = b.drop_first();
        lemma_escaped(rest);
        let e = escaped(b);
        let head = seq![PERCENT, hex_digit(b[0] / 16), hex_digit(b[0] % 16)];
        assert(e.skip(3) == escaped(rest));
        assert(starts_escape(e));
        assert(escape_value(e) == b[0]);
        assert(seq![b[0]] + rest == b);
        assert forall|i: int| 0 <= i < e.len() implies #[trigger] e[i] < 0x80 by {
            if i < 3 {
                assert(e[i] == head[i]);
            } else {
                assert(e[i] == escaped(rest)[i - 3]);
            }
        }
    } else {
        assert(escaped(b) =~= b);
    }
}

/// A text with each byte of it written as `%` and two hexadecimal digits.
pub open spec fn escaped_text(s: Seq<char>) -> Seq<char> {
    escaped(encode_utf8(s)).map_values(|b: u8| b as char)
}

/// A text that was escaped stands for the text.
pub proof fn law_escaped_text_stands_for_text(s: Seq<char>)
    ensures
        decoded(escaped_text(s)) == s,
{
    let e = escaped(encode_utf8(s));
    let t = escaped_text(s);
    lemma_escaped(encode_utf8(s));
    assert forall|i: int| 0 <= i < t.len() implies '\0' <= #[trigger] t[i] <= '\u{7f}' by {
        assert(e[i] < 0x80);
    }
    assert(vstd::utf8::is_ascii_chars(t));
    vstd::utf8::is_ascii_chars_encode_utf8(t);
    assert forall|i: int| 0 <= i < t.len() implies encode_utf8(t)[i] == e[i] by {
        assert(t[i] as u8 == encode_utf8(t)[i]);
        assert(e[i] < 0x80);
    }
    assert(encode_utf8(t) =~= e);
    vstd::utf8::encode_utf8_valid_utf8(s);
    vstd::utf8::encode_utf8_decode_utf8(s);
}

proof fn lemma_absent(s: Seq<char>, c: char)
    requires
        !s.contains(c),
    ensures
        find(s, c) == s.len(),
        before(s, c) == s,
        behind(s, c) == Seq::<char>::empty(),
        pieces(s, c) == seq![s],
{
    lemma_find(s, c);
    if find(s, c) < s.len() {
        assert(s[find(s, c) as int] == c);
    }
    assert(s.take(s.len() as int) == s);
}

proof fn lemma_found(a: Seq<char>, c: char, b: Seq<char>)
    requires
        !a.contains(c),
    ensures
        before(a + seq![c] + b, c) == a,
        behind(a + seq![c] + b, c) == b,
        find(a + seq![c] + b, c) == a.len(),
    decreases a.len(),
{
    let s = a + seq![c] + b;
    lemma_find(s, c);
    let n = find(s, c) as int;
    assert(s[a.len() as int] == c);
    if n < a.len() {
        assert(a[n] == s[n]);
    }
    assert(n == a.len());
    assert(before(s, c) =~= a);
    assert(behind(s, c) =~= b);
}

/// A query of one pair gives its key the value, both read as they are escaped.
pub proof fn law_pair_is_found(k: Seq<char>, v: Seq<char>)
    requires
        !k.contains('='),
        !k.contains('&'),
        !v.contains('&'),
    ensures
        query_of(k + seq!['='] + v) == Map::<Seq<char>, Seq<char>>::empty().insert(
            decoded(k),
            decoded(v),
        ),
{
    let pair = k + seq!['='] + v;
    assert forall|i: int| 0 <= i < pair.len() implies pair[i] != '&' by {
        if i < k.len() {
            assert(pair[i] == k[i]);
        } else if i > k.len() {
            assert(pair[i] == v[i - k.len() - 1]);
        }
    }
    lemma_absent(pair, '&');
    lemma_found(k, '=', v);
    assert(pieces(pair, '&').drop_last() =~= Seq::<Seq<char>>::empty());
    assert(params_of(pieces(pair, '&').drop_last()) == Map::<Seq<char>, Seq<char>>::empty());
}

proof fn lemma_params_push(front: Seq<Seq<char>>, pair: Seq<char>)
    ensures
        params_of(front.push(pair)) == if pair.len() == 0 {
            params_of(front)
        } else {
            params_of(front).insert(decoded(before(pair, '=')), decoded(behind(pair, '=')))
        },
{
    assert(front.push(pair).drop_last() == front);
}

proof fn lemma_pieces_append(q: Seq<char>, c: char, pair: Seq<char>)
    requires
        !pair.contains(c),
    ensures
        pieces(q + seq![c] + pair, c) == pieces(q, c).push(pair),
    decreases q.len(),
{
    let s = q + seq![c] + pair;
    if q.contains(c) {
        lemma_find(q, c);
        let n = find(q, c) as int;
        let i = choose|i: int| 0 <= i < q.len() && q[i] == c;
        assert(n < q.len());
        let front = before(q, c);
        assert forall|j: int| 0 <= j < front.len() implies front[j] != c by {
            assert(front[j] == q[j]);
        }
        let rest = behind(q, c);
        lemma_pieces_append(rest, c, pair);
        assert(s =~= front + seq![c] + (rest + seq![c] + pair));
        lemma_found(front, c, rest + seq![c] + pair);
        assert(seq![front] + pieces(rest, c).push(pair) =~= (seq![front] + pieces(rest, c)).push(
            pair,
        ));
    } else {
        lemma_absent(q, c);
        lemma_found(q, c, pair);
        lemma_absent(pair, c);
        assert(seq![q] + seq![pair] =~= seq![q].push(pair));
    }
}

/// Of two pairs with the same key the last one counts, and a pair leaves the other keys alone.
pub proof fn law_last_pair_wins(q: Seq<char>, pair: Seq<char>)
    requires
        pair.len() > 0,
        !pair.contains('&'),
    ensures
        query_of(q + seq!['&'] + pair) == query_of(q).insert(
            decoded(before(pair, '=')),
            decoded(behind(pair, '=')),
        ),
{
    lemma_pieces_append(q, '&', pair);
    lemma_params_push(pieces(q, '&'), pair);
}

/// An empty pair changes nothing.
pub proof fn law_empty_pairs_are_ignored(q: Seq<char>)
    ensures
        query_of(q + seq!['&']) == query_of(q),
        query_of(Seq::empty()) == Map::<Seq<char>, Seq<char>>::empty(),
{
    let none = Seq::<char>::empty();
    lemma_pieces_append(q, '&', none);
    lemma_params_push(pieces(q, '&'), none);
    assert(q + seq!['&'] + none == q + seq!['&']);
    lemma_absent(none, '&');
    lemma_params_push(Seq::empty(), none);
    assert(Seq::<Seq<char>>::empty().push(none) == seq![none]);
    assert(params_of(Seq::empty()) == Map::<Seq<char>, Seq<char>>::empty());
}

proof fn lemma_digits_read_back(n: nat)
    ensures
        all_digits(digits(n)),
        digits_value(digits(n)) == n,
    decreases n,
{
    if n < 10 {
        assert(digits(n).drop_last() == Seq::<char>::empty());
        assert(digits_value(digits(n).drop_last()) == 0);
        assert(is_digit(digit(n)));
    } else {
        lemma_digits_read_back(n / 10);
        let front = digits(n / 10);
        let s = digits(n);
        assert(s.drop_last() == front);
        assert(is_digit(digit(n % 10)));
        assert forall|i: int| 0 <= i < s.len() implies is_digit(#[trigger] s[i]) by {
            if i < front.len() {
                assert(s[i] == front[i]);
            }
        }
    }
}

/// An integer that was written in decimal is read back.
pub proof fn law_decimal_is_read_back(i: int)
    ensures
        int_of(decimal(i)) == Some(i),
{
    lemma_digits_read_back(if i < 0 { (-i) as nat } else { i as nat });
    let s = decimal(i);
    if i < 0 {
        assert(s.drop_first() == digits((-i) as nat));
    } else {
        assert(is_digit(s[0]));
    }
}

/// The first mark parts a text into what stands before it and what stands behind; without a mark
/// everything stands before it.
pub proof fn law_first_mark_parts(a: Seq<char>, c: char, b: Seq<char>)
    requires
        !a.contains(c),
    ensures
        before(a + seq![c] + b, c) == a,
        behind(a + seq![c] + b, c) == b,
        before(a, c) == a,
        behind(a, c).len() == 0,
{
    lemma_found(a, c, b);
    lemma_absent(a, c);
}

/// Marks part pieces: one more piece goes behind the others, and a text without a mark is one piece.
pub proof fn law_marks_part_pieces(s: Seq<char>, c: char, piece: Seq<char>)
    requires
        !piece.contains(c),
    ensures
        pieces(s + seq![c] + piece, c) == pieces(s, c).push(piece),
        pieces(piece, c) == seq![piece],
{
    lemma_pieces_append(s, c, piece);
    lemma_absent(piece, c);
}

/// The sixteen hexadecimal digits have their values, in either case, and no other byte has one.
pub proof fn law_hexadecimal_digits(v: u8, b: u8)
    ensures
        v < 10 ==> hex_value((0x30 + v) as u8) == Some(v),
        10 <= v < 16 ==> hex_value((0x41 + v - 10) as u8) == Some(v) && hex_value(
            (0x61 + v - 10) as u8,
        ) == Some(v),
        hex_value(b) is Some ==> 0x30 <= b <= 0x39 || 0x41 <= b <= 0x46 || 0x61 <= b <= 0x66,
{
}

/// Bytes are read from the front: an escape as the byte it stands for, `+` as a space, and any other
/// byte as itself.
pub proof fn law_bytes_are_read_from_the_front(b: Seq<u8>, c: u8, h: u8, l: u8)
    requires
        h < 16,
        l < 16,
    ensures
        unescaped(seq![0x25u8, hex_digit(h), hex_digit(l)] + b) == seq![(16 * h + l) as u8]
            + unescaped(b),
        unescaped(seq![0x2bu8] + b) == seq![0x20u8] + unescaped(b),
        c != 0x25 && c != 0x2b ==> unescaped(seq![c] + b) == seq![c] + unescaped(b),
        b.len() < 2 || hex_value(b[0]) is None || hex_value(b[1]) is None ==> unescaped(
            seq![0x25u8] + b,
        ) == seq![0x25u8] + unescaped(b),
        unescaped(Seq::empty()).len() == 0,
{
    let e = seq![0x25u8, hex_digit(h), hex_digit(l)] + b;
    assert(e.skip(3) =~= b);
    assert(e[0] == PERCENT && e[1] == hex_digit(h) && e[2] == hex_digit(l));
    assert((seq![0x2bu8] + b).drop_first() =~= b);
    assert((seq![c] + b).drop_first() =~= b);
    let p = seq![0x25u8] + b;
    assert(p.drop_first() =~= b);
    if b.len() >= 2 {
        assert(p[1] == b[0] && p[2] == b[1]);
    }
}

/// Digits are read from the left, a sign before them turns the number or leaves it, and nothing else
/// is a number.
pub proof fn law_numbers_are_read(s: Seq<char>, c: char)
    ensures
        int_of(s) is Some && s.len() > 0 && '0' <= c <= '9' && s[0] != '-' ==> int_of(s.push(c))
            == Some(10 * int_of(s)->0 + (c as int - '0' as int)),
        int_of(s) is Some && s.len() > 0 && '0' <= c <= '9' && s[0] == '-' ==> int_of(s.push(c))
            == Some(10 * int_of(s)->0 - (c as int - '0' as int)),
        int_of(seq![c]) == if '0' <= c <= '9' {
            Some(c as int - '0' as int)
        } else {
            None
        },
        !('0' <= c <= '9') ==> int_of(s.push(c)) is None,
        int_of(s) is Some && s.len() > 0 && '0' <= s[0] <= '9' ==> int_of(seq!['-'] + s) == Some(
            -int_of(s)->0,
        ) && int_of(seq!['+'] + s) == int_of(s),
        int_of(Seq::empty()) is None,
{
    let t = s.push(c);
    assert(t.drop_last() =~= s);
    assert(t.last() == c);
    let one = seq![c];
    assert(one.drop_last() =~= Seq::<char>::empty());
    assert(digits_value(one.drop_last()) == 0);
    assert(one[0] == c);
    if one[0] == '-' || one[0] == '+' {
        assert(one.drop_first().len() == 0);
    }
    if s.len() > 0 {
        assert(t[0] == s[0]);
        let r = s.drop_first();
        assert(t.drop_first() =~= r.push(c));
        lemma_digits_push(r, c);
        if int_of(s) is Some && '0' <= s[0] <= '9' {
            assert((seq!['-'] + s).drop_first() =~= s);
            assert((seq!['+'] + s).drop_first() =~= s);
            assert((seq!['-'] + s)[0] == '-');
            assert((seq!['+'] + s)[0] == '+');
        }
    } else {
        assert(t =~= one);
    }
    lemma_digits_push(s, c);
}

proof fn lemma_digits_push(s: Seq<char>, c: char)
    ensures
        all_digits(s) && is_digit(c) ==> all_digits(s.push(c)),
        !is_digit(c) ==> !all_digits(s.push(c)),
        digits_value(s.push(c)) == 10 * digits_value(s) + (c as nat - '0' as nat) as nat,
{
    let t = s.push(c);
    assert(t.drop_last() =~= s);
    assert(t[s.len() as int] == c);
    if all_digits(s) && is_digit(c) {
        assert forall|i: int| 0 <= i < t.len() implies is_digit(#[trigger] t[i]) by {
            if i < s.len() {
                assert(t[i] == s[i]);
            }
        }
    }
}

/// A parameter is read as it is; an empty one is as good as none where a text is wanted, and one that
/// is not a number in range where a number is.
pub proof fn law_parameters_are_read(
    p: Map<Seq<char>, Seq<char>>,
    key: Seq<char>,
    value: Seq<char>,
    default: i64,
    i: i64,
)
    ensures
        value.len() > 0 ==> text_param(p.insert(key, value), key) == Some(value),
        text_param(p.insert(key, Seq::empty()), key) is None,
        !p.contains_key(key) ==> text_param(p, key) is None && int_param(p, key, default)
            == default,
        int_param(p.insert(key, decimal(i as int)), key, default) == i,
        int_of(value) is None ==> int_param(p.insert(key, value), key, default) == default,
{
    law_decimal_is_read_back(i as int);
}

/// A key without `=` has the empty text.
pub proof fn law_bare_keys_have_no_text(k: Seq<char>)
    requires
        k.len() > 0,
        !k.contains('='),
        !k.contains('&'),
    ensures
        query_of(k) == Map::<Seq<char>, Seq<char>>::empty().insert(decoded(k), Seq::empty()),
{
    lemma_absent(k, '&');
    lemma_absent(k, '=');
    let none = Seq::<char>::empty();
    assert(encode_utf8(none) =~= Seq::<u8>::empty());
    assert(unescaped(encode_utf8(none)) =~= Seq::<u8>::empty());
    vstd::utf8::encode_utf8_valid_utf8(none);
    vstd::utf8::encode_utf8_decode_utf8(none);
    assert(pieces(k, '&').drop_last() =~= Seq::<Seq<char>>::empty());
    assert(params_of(pieces(k, '&').drop_last()) == Map::<Seq<char>, Seq<char>>::empty());
}

} // verus!
