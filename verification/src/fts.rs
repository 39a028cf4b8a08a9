//! Turn user-typed search input into a safe FTS5 MATCH expression.
//!
//! FTS5's query grammar treats characters like `.`, `/`, `:` and `-` as syntax, so a natural query
//! such as `vector.yaml` is a syntax error. For plain queries each whitespace-separated term is
//! wrapped in double quotes, which makes it an FTS5 *phrase*: the punctuation inside is then
//! tokenized like the indexed text and matched literally.
//!
//! Power users can still pass real FTS5: if the input already uses quotes, grouping, a column
//! filter, or the boolean/NEAR operators, it is sent through as it is, but for the white space
//! around it.

use vstd::prelude::*;

use crate::text::{
    contains_char, is_white, join, joined, law_trim_idempotent, law_trimming_keeps_words, law_words_are_words,
    law_words_come_from_text, law_words_hold_text, lemma_trimmed, replace, replaced,
    split_whitespace, str_eq, texts, trim, trimmed, words,
};

verus! {

/// A word that FTS5 reads as an operator. It knows them in uppercase only.
pub open spec fn operator(w: Seq<char>) -> bool {
    ||| w == "AND"@
    ||| w == "OR"@
    ||| w == "NOT"@
    ||| w == "NEAR"@
}

/// The query uses explicit FTS5 syntax.
pub open spec fn advanced(q: Seq<char>) -> bool {
    ||| q.contains('"')
    ||| q.contains('(')
    ||| q.contains(')')
    ||| q.contains(':')
    ||| exists|i: int| 0 <= i < words(q).len() && operator(#[trigger] words(q)[i])
}

/// The term ends in the mark of a prefix match.
pub open spec fn starred(term: Seq<char>) -> bool {
    term.len() > 0 && term.last() == '*'
}

/// The term without the mark of a prefix match.
pub open spec fn stem(term: Seq<char>) -> Seq<char> {
    if starred(term) {
        term.drop_last()
    } else {
        term
    }
}

/// The term as a phrase, with a trailing `*` kept outside of it; nothing for a term that has
/// nothing left to match.
pub open spec fn quoted(term: Seq<char>) -> Option<Seq<char>> {
    if stem(term).len() == 0 {
        None
    } else {
        Some(
            seq!['"'] + replaced(stem(term), '"', seq!['"', '"']) + seq!['"'] + if starred(term) {
                seq!['*']
            } else {
                Seq::empty()
            },
        )
    }
}

/// The phrases of those terms that have one, in order.
pub open spec fn phrases(terms: Seq<Seq<char>>) -> Seq<Seq<char>>
    decreases terms.len(),
{
    if terms.len() == 0 {
        Seq::empty()
    } else {
        match quoted(terms.last()) {
            Some(p) => phrases(terms.drop_last()).push(p),
            None => phrases(terms.drop_last()),
        }
    }
}

/// The MATCH expression for what the user typed.
pub open spec fn match_expr(input: Seq<char>) -> Seq<char> {
    let q = trimmed(input);
    if q.len() == 0 {
        Seq::empty()
    } else if advanced(q) {
        q
    } else {
        joined(phrases(words(q)), seq![' '])
    }
}

/// Build the string to pass to `... MATCH ?`.
pub fn build_match(input: &str) -> (r: String)
    ensures
        r@ == match_expr(input@),
{
    let q = trim(input);
    if q.as_str().is_empty() {
        return String::new();
    }
    if is_advanced(q.as_str()) {
        return q;
    }
    let terms = split_whitespace(q.as_str());
    let mut parts: Vec<String> = Vec::new();
    for i in 0..terms.len()
        invariant
            texts(parts@) == phrases(texts(terms@).take(i as int)),
    {
        proof {
            assert(texts(terms@).take(i + 1).drop_last() == texts(terms@).take(i as int));
            assert(texts(terms@).take(i + 1).last() == terms@[i as int]@);
        }
        if let Some(p) = quote_term(terms[i].as_str()) {
            assert(texts(parts@.push(p)) == texts(parts@).push(p@));
            parts.push(p);
        }
    }
    assert(texts(terms@).take(terms@.len() as int) == texts(terms@));
    proof {
        reveal_strlit(" ");
        assert(" "@ == seq![' ']);
    }
    join(&parts, " ")
}

/// Does the query already use explicit FTS5 syntax that is not to be touched?
pub fn is_advanced(q: &str) -> (r: bool)
    ensures
        r == advanced(q@),
{
    if contains_char(q, '"') || contains_char(q, '(') || contains_char(q, ')') || contains_char(
        q,
        ':',
    ) {
        return true;
    }
    let terms = split_whitespace(q);
    for i in 0..terms.len()
        invariant
            texts(terms@) == words(q@),
            forall|j: int| 0 <= j < i ==> !operator(#[trigger] words(q@)[j]),
    {
        let t = terms[i].as_str();
        assert(words(q@)[i as int] == t@);
        if str_eq(t, "AND") || str_eq(t, "OR") || str_eq(t, "NOT") || str_eq(t, "NEAR") {
            assert(operator(words(q@)[i as int]));
            return true;
        }
    }
    false
}

/// Quote one term as a phrase, preserving a trailing `*` as a prefix match.
/// Returns `None` for terms that have nothing left to match (e.g. a lone `*`).
pub fn quote_term(term: &str) -> (r: Option<String>)
    ensures
        match r {
            Some(p) => quoted(term@) == Some(p@),
            None => quoted(term@) is None,
        },
{
    let n = term.unicode_len();
    let star = n > 0 && term.get_char(n - 1) == '*';
    let end = if star {
        n - 1
    } else {
        n
    };
    if end == 0 {
        return None;
    }
    let inner = term.substring_char(0, end);
    assert(inner@ == stem(term@));
    let escaped = replace(inner, '"', "\"\"");
    proof {
        reveal_strlit("\"\"");
        assert("\"\""@ == seq!['"', '"']);
    }
    let mut p = String::new();
    p.push('"');
    p.append(escaped.as_str());
    p.push('"');
    if star {
        p.push('*');
    }
    assert(quoted(term@)->0 == p@);
    Some(p)
}

proof fn lemma_replaced_absent(s: Seq<char>, from: char, to: Seq<char>)
    requires
        !s.contains(from),
    ensures
        replaced(s, from, to) == s,
    decreases s.len(),
{
    if s.len() > 0 {
        let front = s.drop_last();
        assert(s[s.len() - 1] != from);
        assert forall|i: int| 0 <= i < front.len() implies front[i] != from by {
            assert(s[i] != from);
        }
        lemma_replaced_absent(front, from, to);
        assert(front + seq![s.last()] == s);
    }
}

/// A term of a plain query is matched literally: its phrase is the term between quotes, with
/// nothing in it changed, and with the mark of a prefix match behind it.
pub proof fn law_plain_terms_are_literal(q: Seq<char>, k: int)
    requires
        !advanced(q),
        0 <= k < words(q).len(),
    ensures
        ({
            let term = words(q)[k];
            quoted(term) == if stem(term).len() == 0 {
                None
            } else {
                Some(seq!['"'] + stem(term) + seq!['"'] + term.skip(stem(term).len() as int))
            }
        }),
{
    let term = words(q)[k];
    let inner = stem(term);
    assert(!inner.contains('"')) by {
        if inner.contains('"') {
            let i = choose|i: int| 0 <= i < inner.len() && inner[i] == '"';
            assert(term[i] == '"');
            law_words_come_from_text(q, k, i);
        }
    }
    lemma_replaced_absent(inner, '"', seq!['"', '"']);
    if starred(term) {
        assert(term.skip(inner.len() as int) == seq!['*']);
    } else {
        assert(term.skip(inner.len() as int) == Seq::<char>::empty());
    }
}

/// Every phrase is that of a term.
proof fn lemma_phrases_are_quoted(terms: Seq<Seq<char>>, k: int)
    requires
        0 <= k < phrases(terms).len(),
    ensures
        exists|j: int| 0 <= j < terms.len() && quoted(#[trigger] terms[j]) == Some(phrases(terms)[k]),
    decreases terms.len(),
{
    if terms.len() > 0 {
        let front = terms.drop_last();
        if k < phrases(front).len() {
            lemma_phrases_are_quoted(front, k);
            let j = choose|j: int|
                0 <= j < front.len() && quoted(#[trigger] front[j]) == Some(phrases(front)[k]);
            assert(terms[j] == front[j]);
        } else {
            assert(terms[terms.len() - 1] == terms.last());
        }
    }
}

/// Every term that has something to match has its phrase.
proof fn lemma_terms_have_phrases(terms: Seq<Seq<char>>, k: int)
    requires
        0 <= k < terms.len(),
        quoted(terms[k]) is Some,
    ensures
        phrases(terms).contains(quoted(terms[k])->0),
    decreases terms.len(),
{
    let all = phrases(terms);
    let front = terms.drop_last();
    if k < terms.len() - 1 {
        assert(front[k] == terms[k]);
        lemma_terms_have_phrases(front, k);
        let before = phrases(front);
        let p = quoted(terms[k])->0;
        let j = choose|j: int| 0 <= j < before.len() && before[j] == p;
        assert(all[j] == p);
    } else {
        assert(terms[k] == terms.last());
        assert(all[all.len() - 1] == quoted(terms[k])->0);
    }
}

/// A plain query asks for each of its terms: the expression is a list of phrases, and every term
/// that has something to match has its phrase among them.
pub proof fn law_every_term_is_asked_for(input: Seq<char>, k: int)
    requires
        !advanced(trimmed(input)),
        0 <= k < words(input).len(),
        quoted(words(input)[k]) is Some,
    ensures
        match_expr(input) == joined(phrases(words(input)), seq![' ']),
        phrases(words(input)).contains(quoted(words(input)[k])->0),
{
    law_trimming_keeps_words(input);
    lemma_terms_have_phrases(words(input), k);
}

/// A query in explicit syntax is passed through untouched, but for the white space around it.
pub proof fn law_advanced_queries_pass_through(input: Seq<char>)
    requires
        advanced(trimmed(input)),
    ensures
        match_expr(input) == trimmed(input),
        trimmed(input) == input ==> match_expr(input) == input,
{
}

/// There is no phrase exactly when no term has anything to match.
proof fn lemma_no_phrases(terms: Seq<Seq<char>>)
    ensures
        phrases(terms).len() == 0 <==> forall|j: int|
            0 <= j < terms.len() ==> quoted(#[trigger] terms[j]) is None,
    decreases terms.len(),
{
    if terms.len() > 0 {
        let front = terms.drop_last();
        lemma_no_phrases(front);
        assert(terms[terms.len() - 1] == terms.last());
        assert forall|j: int| 0 <= j < front.len() implies quoted(#[trigger] front[j]) == quoted(
            terms[j],
        ) by {}
        if phrases(terms).len() == 0 {
            assert forall|j: int| 0 <= j < terms.len() implies quoted(#[trigger] terms[j]) is None by {
                if j < terms.len() - 1 {
                    assert(front[j] == terms[j]);
                }
            }
        }
    }
}

/// Joined texts start with the first of them and end with the last.
proof fn lemma_joined_ends(parts: Seq<Seq<char>>, sep: Seq<char>)
    requires
        parts.len() > 0,
        forall|k: int| 0 <= k < parts.len() ==> (#[trigger] parts[k]).len() > 0,
    ensures
        joined(parts, sep).len() > 0,
        joined(parts, sep)[0] == parts[0][0],
        joined(parts, sep).last() == parts.last().last(),
    decreases parts.len(),
{
    if parts.len() > 1 {
        let front = parts.drop_last();
        assert forall|k: int| 0 <= k < front.len() implies (#[trigger] front[k]).len() > 0 by {
            assert(parts[k].len() > 0);
        }
        lemma_joined_ends(front, sep);
        assert(parts[parts.len() - 1].len() > 0);
    }
}

/// Building a MATCH expression from a MATCH expression changes nothing.
pub proof fn law_match_idempotent(input: Seq<char>)
    ensures
        match_expr(match_expr(input)) == match_expr(input),
{
    let q = trimmed(input);
    law_trim_idempotent(input);
    lemma_trimmed(Seq::<char>::empty());
    if q.len() > 0 && !advanced(q) {
        let parts = phrases(words(q));
        let r = match_expr(input);
        if parts.len() > 0 {
            assert forall|k: int| 0 <= k < parts.len() implies (#[trigger] parts[k]).len() > 0
                && parts[k][0] == '"' && (parts[k].last() == '"' || parts[k].last() == '*') by {
                lemma_phrases_are_quoted(words(q), k);
            }
            lemma_joined_ends(parts, seq![' ']);
            assert(parts[0][0] == '"');
            assert(parts[parts.len() - 1].last() == '"' || parts[parts.len() - 1].last() == '*');
            lemma_trimmed(r);
            assert(r[0] == '"');
            assert(r.contains('"'));
        }
    }
}

/// The expression is empty exactly when no word of the input is anything but a lone `*`.
pub proof fn law_match_empty(input: Seq<char>)
    ensures
        match_expr(input).len() == 0 <==> forall|k: int|
            0 <= k < words(input).len() ==> #[trigger] words(input)[k] == seq!['*'],
{
    let q = trimmed(input);
    let ws = words(q);
    law_trimming_keeps_words(input);
    assert forall|k: int| 0 <= k < ws.len() implies (quoted(#[trigger] ws[k]) is None <==> ws[k]
        == seq!['*']) by {
        law_words_are_words(q, k);
        if stem(ws[k]).len() == 0 {
            assert(ws[k] == seq!['*']);
        }
    }
    lemma_no_phrases(ws);
    if q.len() > 0 && advanced(q) {
        if forall|k: int| 0 <= k < ws.len() ==> #[trigger] ws[k] == seq!['*'] {
            assert forall|c: char| #[trigger] q.contains(c) && !is_white(c) implies c == '*' by {
                let i = choose|i: int| 0 <= i < q.len() && q[i] == c;
                law_words_hold_text(q, i);
                let k = choose|k: int| 0 <= k < ws.len() && (#[trigger] ws[k]).contains(q[i]);
                assert(ws[k] == seq!['*']);
            }
            reveal_strlit("AND");
            reveal_strlit("OR");
            reveal_strlit("NOT");
            reveal_strlit("NEAR");
            assert(!q.contains('"') && !q.contains('(') && !q.contains(')') && !q.contains(':'));
            let i = choose|i: int| 0 <= i < words(q).len() && operator(#[trigger] words(q)[i]);
            assert(ws[i] == seq!['*']);
            assert(ws[i].len() == 1);
            assert(false);
        }
    } else if q.len() > 0 {
        if phrases(ws).len() > 0 {
            assert forall|k: int| 0 <= k < phrases(ws).len() implies (#[trigger] phrases(
                ws,
            )[k]).len() > 0 by {
                lemma_phrases_are_quoted(ws, k);
            }
            lemma_joined_ends(phrases(ws), seq![' ']);
        }
    }
}

/// Terms are taken one by one and in order: one more term adds its phrase behind the others, or
/// nothing where it has none.
pub proof fn law_terms_are_taken_in_order(terms: Seq<Seq<char>>, term: Seq<char>)
    ensures
        quoted(term) matches Some(p) ==> phrases(terms.push(term)) == phrases(terms).push(p),
        quoted(term) is None ==> phrases(terms.push(term)) == phrases(terms),
        phrases(Seq::empty()).len() == 0,
{
    assert(terms.push(term).drop_last() =~= terms);
}

/// A term becomes a phrase between quotes, with each quote in it doubled, and a trailing `*` behind
/// it; nothing is left to match of an empty term or a lone `*`.
pub proof fn law_terms_become_phrases(term: Seq<char>, c: char)
    requires
        c != '*',
    ensures
        quoted(term.push(c)) == Some(
            seq!['"'] + replaced(term.push(c), '"', seq!['"', '"']) + seq!['"'],
        ),
        term.len() > 0 ==> quoted(term.push('*')) == Some(
            seq!['"'] + replaced(term, '"', seq!['"', '"']) + seq!['"', '*'],
        ),
        quoted(seq!['*']) is None,
        quoted(Seq::empty()) is None,
{
    let plain = term.push(c);
    assert(!starred(plain));
    assert(quoted(plain)->0 =~= seq!['"'] + replaced(plain, '"', seq!['"', '"']) + seq!['"']);
    let star = term.push('*');
    assert(starred(star));
    assert(star.drop_last() =~= term);
    if term.len() > 0 {
        assert(quoted(star)->0 =~= seq!['"'] + replaced(term, '"', seq!['"', '"']) + seq!['"', '*']);
    }
    assert(seq!['*'].drop_last() =~= Seq::<char>::empty());
}

/// A query is in explicit syntax exactly where it holds a quote, a parenthesis or a colon, or an
/// operator as a word of its own.
pub proof fn law_explicit_syntax(q: Seq<char>)
    ensures
        q.contains('"') || q.contains('(') || q.contains(')') || q.contains(':') ==> advanced(q),
        words(q).contains("AND"@) || words(q).contains("OR"@) || words(q).contains("NOT"@) || words(
            q,
        ).contains("NEAR"@) ==> advanced(q),
        advanced(q) ==> q.contains('"') || q.contains('(') || q.contains(')') || q.contains(':')
            || words(q).contains("AND"@) || words(q).contains("OR"@) || words(q).contains("NOT"@)
            || words(q).contains("NEAR"@),
{
    let ws = words(q);
    if advanced(q) && !q.contains('"') && !q.contains('(') && !q.contains(')') && !q.contains(':') {
        let i = choose|i: int| 0 <= i < ws.len() && operator(#[trigger] ws[i]);
        assert(ws.contains(ws[i]));
    }
    if ws.contains("AND"@) {
        let i = choose|i: int| 0 <= i < ws.len() && ws[i] == "AND"@;
        assert(operator(ws[i]));
    }
    if ws.contains("OR"@) {
        let i = choose|i: int| 0 <= i < ws.len() && ws[i] == "OR"@;
        assert(operator(ws[i]));
    }
    if ws.contains("NOT"@) {
        let i = choose|i: int| 0 <= i < ws.len() && ws[i] == "NOT"@;
        assert(operator(ws[i]));
    }
    if ws.contains("NEAR"@) {
        let i = choose|i: int| 0 <= i < ws.len() && ws[i] == "NEAR"@;
        assert(operator(ws[i]));
    }
}

} // verus!
