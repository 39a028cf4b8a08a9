//! Content blocks: the pieces that a message is made of, and the text they are searched by.

use vstd::prelude::*;
use vstd::utf8::{encode_scalar, encode_utf8};

use crate::json::{
    bool_field, compact_json, json_text, lemma_array_model, str_field, Json, JsonView,
};
use crate::text::{
    blank, chars_of, in_order, is_blank, is_white, join, joined, law_joining_goes_on,
    lemma_in_order_more, lemma_in_order_next, lemma_in_order_none, opt_text, or_empty, str_eq, string_between, texts,
};

verus! {

/// The model of a content block.
pub struct BlockView {
    pub block_type: Seq<char>,
    pub text: Option<Seq<char>>,
    pub tool_name: Option<Seq<char>>,
    pub tool_use_id: Option<Seq<char>>,
    pub tool_input: Option<Seq<char>>,
    pub is_error: Option<bool>,
    pub tool_result: Option<Seq<char>>,
}

/// A content block. `block_type` marks what kind of content it is: `text`, `thinking`,
/// `tool_use`, `tool_result`, `image`, `queued`, ...
pub struct Block {
    pub block_type: String,
    pub text: Option<String>,
    pub tool_name: Option<String>,
    pub tool_use_id: Option<String>,
    pub tool_input: Option<String>,
    pub is_error: Option<bool>,
    pub tool_result: Option<String>,
}

impl View for Block {
    type V = BlockView;

    open spec fn view(&self) -> BlockView {
        BlockView {
            block_type: self.block_type@,
            text: opt_text(self.text),
            tool_name: opt_text(self.tool_name),
            tool_use_id: opt_text(self.tool_use_id),
            tool_input: opt_text(self.tool_input),
            is_error: self.is_error,
            tool_result: opt_text(self.tool_result),
        }
    }
}

/// A block of a kind, with nothing in it.
pub open spec fn bare_block(block_type: Seq<char>) -> BlockView {
    BlockView {
        block_type,
        text: None,
        tool_name: None,
        tool_use_id: None,
        tool_input: None,
        is_error: None,
        tool_result: None,
    }
}

/// A block of plain text.
pub open spec fn text_block(s: Seq<char>) -> BlockView {
    BlockView { text: Some(s), ..bare_block("text"@) }
}

impl Block {
    fn bare(block_type: String) -> (b: Block)
        ensures
            b@ == bare_block(block_type@),
    {
        Block {
            block_type,
            text: None,
            tool_name: None,
            tool_use_id: None,
            tool_input: None,
            is_error: None,
            tool_result: None,
        }
    }

    /// A block of plain text.
    pub fn text(s: String) -> (b: Block)
        ensures
            b@ == text_block(s@),
    {
        let mut b = Block::bare("text".to_owned());
        b.text = Some(s);
        b
    }
}

/// The kind that a record or a block says it is of.
pub open spec fn kind_of(item: JsonView) -> Seq<char> {
    match item.str_at("type"@) {
        Some(t) => t,
        None => "unknown"@,
    }
}

/// The kind that a record or a block says it is of.
pub fn kind(item: &Json) -> (r: String)
    ensures
        r@ == kind_of(item@),
{
    match str_field(item, "type") {
        Some(t) => t,
        None => "unknown".to_owned(),
    }
}

/// The block that an item of a message's content is. What is of no known kind is kept as JSON.
pub open spec fn block_of(item: JsonView) -> BlockView {
    let bt = kind_of(item);
    let bare = bare_block(bt);
    if bt == "text"@ {
        BlockView { text: item.str_at("text"@), ..bare }
    } else if bt == "thinking"@ {
        BlockView { text: item.str_at("thinking"@), ..bare }
    } else if bt == "tool_use"@ {
        BlockView {
            tool_name: item.str_at("name"@),
            tool_use_id: item.str_at("id"@),
            tool_input: match item.get("input"@) {
                Some(x) => Some(json_text(x)),
                None => None,
            },
            ..bare
        }
    } else if bt == "tool_result"@ {
        BlockView {
            tool_use_id: item.str_at("tool_use_id"@),
            is_error: item.bool_at("is_error"@),
            tool_result: match item.get("content"@) {
                Some(x) => Some(flattened(x)),
                None => None,
            },
            ..bare
        }
    } else if bt == "image"@ {
        BlockView { text: Some("[image]"@), ..bare }
    } else {
        BlockView { text: Some(json_text(item)), ..bare }
    }
}

/// The block that an item of a message's content is.
pub fn parse_block(item: &Json) -> (b: Block)
    ensures
        b@ == block_of(item@),
{
    let bt = kind(item);
    let k = bt.as_str();
    if str_eq(k, "text") {
        let text = str_field(item, "text");
        Block { text, ..Block::bare(bt) }
    } else if str_eq(k, "thinking") {
        let text = str_field(item, "thinking");
        Block { text, ..Block::bare(bt) }
    } else if str_eq(k, "tool_use") {
        let tool_input = match item.get("input") {
            Some(x) => Some(compact_json(x)),
            None => None,
        };
        Block {
            tool_name: str_field(item, "name"),
            tool_use_id: str_field(item, "id"),
            tool_input,
            ..Block::bare(bt)
        }
    } else if str_eq(k, "tool_result") {
        let tool_result = match item.get("content") {
            Some(x) => Some(flatten_content(x)),
            None => None,
        };
        Block {
            tool_use_id: str_field(item, "tool_use_id"),
            is_error: bool_field(item, "is_error"),
            tool_result,
            ..Block::bare(bt)
        }
    } else if str_eq(k, "image") {
        Block { text: Some("[image]".to_owned()), ..Block::bare(bt) }
    } else {
        // Preserve anything unexpected as JSON so it is never lost.
        Block { text: Some(compact_json(item)), ..Block::bare(bt) }
    }
}

/// The text of an item inside the result of a tool.
pub open spec fn flat_item(item: JsonView) -> Seq<char> {
    let kind = item.str_at("type"@);
    if kind == Some("text"@) {
        or_empty(item.str_at("text"@))
    } else if kind == Some("image"@) {
        "[image]"@
    } else {
        json_text(item)
    }
}

/// The plain text of a content that is a string, or an array of blocks.
pub open spec fn flattened(v: JsonView) -> Seq<char> {
    match v {
        JsonView::Str(s) => s,
        JsonView::Array(items) => joined(
            items.map_values(|item: JsonView| flat_item(item)),
            seq!['\n'],
        ),
        _ => json_text(v),
    }
}

fn flatten_item(item: &Json) -> (r: String)
    ensures
        r@ == flat_item(item@),
{
    match str_field(item, "type") {
        Some(kind) => {
            if str_eq(kind.as_str(), "text") {
                match str_field(item, "text") {
                    Some(t) => t,
                    None => String::new(),
                }
            } else if str_eq(kind.as_str(), "image") {
                "[image]".to_owned()
            } else {
                compact_json(item)
            }
        },
        None => compact_json(item),
    }
}

/// Flatten a content (string, or array of blocks) into plain text.
pub fn flatten_content(v: &Json) -> (r: String)
    ensures
        r@ == flattened(v@),
{
    match v {
        Json::Str(s) => s.clone(),
        Json::Array(items) => {
            let mut parts: Vec<String> = Vec::new();
            for i in 0..items.len()
                invariant
                    parts@.len() == i,
                    forall|j: int|
                        0 <= j < i ==> (#[trigger] parts@[j])@ == flat_item(items@[j]@),
            {
                parts.push(flatten_item(&items[i]));
            }
            proof {
                reveal_strlit("\n");
                assert("\n"@ == seq!['\n']);
                lemma_array_model(items@);
                let model = v@->Array_0;
                assert(texts(parts@) =~= model.map_values(|item: JsonView| flat_item(item)));
            }
            join(&parts, "\n")
        },
        _ => compact_json(v),
    }
}

/// A text behind a space, where there is one.
pub open spec fn spaced(o: Option<Seq<char>>) -> Seq<char> {
    match o {
        Some(s) => seq![' '] + s,
        None => Seq::empty(),
    }
}

/// All the text that a block carries.
pub open spec fn body_of(b: BlockView) -> Seq<char> {
    or_empty(b.text) + spaced(b.tool_name) + spaced(b.tool_input) + spaced(b.tool_result)
}

/// How many bytes of text go into the full-text index at most.
pub const INDEX_CAP: usize = 16_384;

/// The text without what stands at its end beyond so many bytes of UTF-8.
pub open spec fn capped(s: Seq<char>, max: nat) -> Seq<char>
    decreases s.len(),
{
    if s.len() == 0 || encode_utf8(s).len() <= max {
        s
    } else {
        capped(s.drop_last(), max)
    }
}

/// The text that a block is searched by; nothing where it carries none.
pub open spec fn search_body_of(b: BlockView) -> Option<Seq<char>> {
    if blank(body_of(b)) {
        None
    } else {
        Some(capped(body_of(b), INDEX_CAP as nat))
    }
}

fn push_spaced(body: &mut String, o: &Option<String>)
    ensures
        final(body)@ == old(body)@ + spaced(opt_text(*o)),
{
    match o {
        Some(t) => {
            body.push(' ');
            body.append(t.as_str());
        },
        None => {},
    }
    assert(body@ == old(body)@ + spaced(opt_text(*o)));
}

/// The text that a block is searched by; nothing where it carries none.
pub fn search_body(b: &Block) -> (r: Option<String>)
    ensures
        opt_text(r) == search_body_of(b@),
{
    let mut body = String::new();
    match &b.text {
        Some(t) => body.append(t.as_str()),
        None => {},
    }
    assert(body@ == or_empty(b@.text));
    push_spaced(&mut body, &b.tool_name);
    push_spaced(&mut body, &b.tool_input);
    push_spaced(&mut body, &b.tool_result);
    if is_blank(body.as_str()) {
        None
    } else {
        Some(cap_body(body.as_str()))
    }
}

/// The size in UTF-8 grows by that of each character.
pub proof fn lemma_encode_push(s: Seq<char>, c: char)
    ensures
        encode_utf8(s.push(c)) == encode_utf8(s) + encode_scalar(c as u32),
    decreases s.len(),
{
    if s.len() == 0 {
        assert(s.push(c).drop_first() == s);
        assert(encode_utf8(s) == Seq::<u8>::empty());
    } else {
        lemma_encode_push(s.drop_first(), c);
        assert(s.push(c).drop_first() == s.drop_first().push(c));
    }
}

proof fn lemma_encode_grows(s: Seq<char>, i: int, j: int)
    requires
        0 <= i <= j <= s.len(),
    ensures
        encode_utf8(s.take(i)).len() <= encode_utf8(s.take(j)).len(),
    decreases j - i,
{
    if i < j {
        lemma_encode_grows(s, i, j - 1);
        assert(s.take(j) == s.take(j - 1).push(s[j - 1]));
        lemma_encode_push(s.take(j - 1), s[j - 1]);
    }
}

/// The longest beginning of a text that fits is what is left of it.
proof fn lemma_capped(s: Seq<char>, k: int, max: nat)
    requires
        0 <= k <= s.len(),
        encode_utf8(s.take(k)).len() <= max,
        k < s.len() ==> encode_utf8(s.take(k + 1)).len() > max,
    ensures
        capped(s, max) == s.take(k),
    decreases s.len(),
{
    assert(s.take(s.len() as int) == s);
    if k < s.len() {
        lemma_encode_grows(s, k + 1, s.len() as int);
        let front = s.drop_last();
        assert(front.take(k) == s.take(k));
        if k < front.len() {
            assert(front.take(k + 1) == s.take(k + 1));
        }
        lemma_capped(front, k, max);
    } else if s.len() > 0 && encode_utf8(s).len() > max {
        assert(false);
    }
}

/// The string without what stands at its end beyond so many bytes of UTF-8.
pub fn cap(s: &str, max: usize) -> (r: String)
    ensures
        r@ == capped(s@, max as nat),
{
    let chars = chars_of(s);
    let mut size: usize = 0;
    let mut i: usize = 0;
    assert(s@.take(0) == Seq::<char>::empty());
    while i < chars.len()
        invariant
            chars@ == s@,
            i <= chars@.len(),
            size == encode_utf8(s@.take(i as int)).len(),
            size <= max,
        decreases chars@.len() - i,
    {
        let c = chars[i] as u32;
        let width: usize = if c <= 0x7f {
            1
        } else if c <= 0x7ff {
            2
        } else if c <= 0xffff {
            3
        } else {
            4
        };
        proof {
            assert(s@.take(i + 1) == s@.take(i as int).push(s@[i as int]));
            lemma_encode_push(s@.take(i as int), s@[i as int]);
            vstd::utf8::char_is_scalar(s@[i as int]);
            assert(encode_scalar(c).len() == width);
        }
        if width > max - size {
            proof {
                lemma_capped(s@, i as int, max as nat);
                assert(s@.subrange(0, i as int) == s@.take(i as int));
            }
            return string_between(&chars, 0, i);
        }
        size = size + width;
        i = i + 1;
    }
    proof {
        lemma_capped(s@, s@.len() as int, max as nat);
        assert(s@.take(s@.len() as int) == s@);
    }
    s.to_owned()
}

/// Cap the text that goes into the full-text index. The full content is still stored in the
/// block; this only bounds the size of the index so that a few huge machine-generated payloads
/// don't bloat it.
pub fn cap_body(s: &str) -> (r: String)
    ensures
        r@ == capped(s@, INDEX_CAP as nat),
{
    cap(s, INDEX_CAP)
}

/// What goes into the index is the longest beginning of the text that is not over the size: all
/// of a text that fits, and of a longer one a beginning that no further character fits behind.
pub proof fn law_capped_is_longest_beginning(s: Seq<char>, max: nat)
    ensures
        capped(s, max).is_prefix_of(s),
        encode_utf8(capped(s, max)).len() <= max,
        encode_utf8(s).len() <= max ==> capped(s, max) == s,
        capped(s, max).len() < s.len() ==> encode_utf8(
            s.take(capped(s, max).len() as int + 1),
        ).len() > max,
    decreases s.len(),
{
    assert(s.take(s.len() as int) == s);
    if s.len() > 0 && encode_utf8(s).len() > max {
        let front = s.drop_last();
        law_capped_is_longest_beginning(front, max);
        let k = capped(s, max).len() as int;
        assert(s.take(k) == front.take(k));
        if k < front.len() {
            assert(front.take(k + 1) == s.take(k + 1));
        } else {
            assert(s.take(k + 1) == s);
        }
    }
}

/// Capping a capped text changes nothing.
pub proof fn law_capped_idempotent(s: Seq<char>, max: nat)
    ensures
        capped(capped(s, max), max) == capped(s, max),
{
    law_capped_is_longest_beginning(s, max);
    law_capped_is_longest_beginning(capped(s, max), max);
}

/// A block of a kind that is not known is kept whole, as JSON.
pub proof fn law_unknown_blocks_are_kept(item: JsonView)
    requires
        kind_of(item) != "text"@,
        kind_of(item) != "thinking"@,
        kind_of(item) != "tool_use"@,
        kind_of(item) != "tool_result"@,
        kind_of(item) != "image"@,
    ensures
        block_of(item).text == Some(json_text(item)),
{
}

/// Every block keeps the kind that it came with.
pub proof fn law_blocks_are_marked(item: JsonView)
    ensures
        block_of(item).block_type == kind_of(item),
{
}

/// A block that carries no text, such as a thought that is only kept signed, is not searched, and
/// every other block is.
pub proof fn law_blocks_with_text_are_searched(b: BlockView)
    ensures
        search_body_of(b) is Some <==> !blank(body_of(b)),
{
}

/// Where the parts of a block go: the text of a text or a thought, the name, the id and the input of
/// a tool call, the id, the flag and the content of its result, and nothing anywhere else.
pub proof fn law_parts_of_blocks_go_to_their_fields(item: JsonView)
    ensures
        ({
            let b = block_of(item);
            let kind = item.str_at("type"@);
            let tool = kind == Some("tool_use"@);
            let result = kind == Some("tool_result"@);
            &&& kind is None ==> b.block_type == "unknown"@
            &&& kind matches Some(k) ==> b.block_type == k
            &&& kind == Some("text"@) ==> b.text == item.str_at("text"@)
            &&& kind == Some("thinking"@) ==> b.text == item.str_at("thinking"@)
            &&& kind == Some("image"@) ==> b.text == Some("[image]"@)
            &&& tool || result ==> b.text is None
            &&& tool ==> b.tool_name == item.str_at("name"@) && b.tool_use_id == item.str_at("id"@)
            &&& tool ==> match item.get("input"@) {
                Some(input) => b.tool_input == Some(json_text(input)),
                None => b.tool_input is None,
            }
            &&& result ==> b.tool_use_id == item.str_at("tool_use_id"@) && b.is_error
                == item.bool_at("is_error"@)
            &&& result ==> match item.get("content"@) {
                Some(content) => b.tool_result == Some(flattened(content)),
                None => b.tool_result is None,
            }
            &&& !tool ==> b.tool_name is None && b.tool_input is None
            &&& !result ==> b.is_error is None && b.tool_result is None
            &&& !tool && !result ==> b.tool_use_id is None
        }),
{
    reveal_strlit("text");
    reveal_strlit("thinking");
    reveal_strlit("tool_use");
    reveal_strlit("tool_result");
    reveal_strlit("image");
    reveal_strlit("unknown");
    assert("text"@.len() == 4 && "thinking"@.len() == 8 && "tool_use"@.len() == 8);
    assert("tool_result"@.len() == 11 && "image"@.len() == 5 && "unknown"@.len() == 7);
    assert("thinking"@[1] == 'h');
    assert("tool_use"@[1] == 'o');
}

/// Content that is a list is flattened item by item, with a line feed between: texts as they are,
/// images by their mark, and anything else as JSON.
pub proof fn law_content_is_flattened_item_by_item(items: Seq<JsonView>, item: JsonView)
    ensures
        flattened(JsonView::Array(items.push(item))) == if items.len() == 0 {
            flattened(JsonView::Array(seq![item]))
        } else {
            flattened(JsonView::Array(items)) + seq!['\n'] + flattened(JsonView::Array(seq![item]))
        },
        item.str_at("type"@) == Some("text"@) ==> flattened(JsonView::Array(seq![item])) == or_empty(
            item.str_at("text"@),
        ),
        item.str_at("type"@) == Some("image"@) ==> flattened(JsonView::Array(seq![item]))
            == "[image]"@,
        item.str_at("type"@) != Some("text"@) && item.str_at("type"@) != Some("image"@)
            ==> flattened(JsonView::Array(seq![item])) == json_text(item),
        flattened(JsonView::Array(Seq::empty())).len() == 0,
{
    reveal_strlit("text");
    reveal_strlit("image");
    assert("text"@.len() == 4 && "image"@.len() == 5);
    let f = |i: JsonView| flat_item(i);
    assert(items.push(item).map_values(f) =~= items.map_values(f).push(flat_item(item)));
    assert(seq![item].map_values(f) =~= seq![flat_item(item)]);
    law_joining_goes_on(items.map_values(f), seq!['\n'], flat_item(item));
    law_joining_goes_on(Seq::empty(), seq!['\n'], flat_item(item));
    if items.len() == 0 {
        assert(items.push(item) =~= seq![item]);
    }
    assert(Seq::<JsonView>::empty().map_values(f) =~= Seq::<Seq<char>>::empty());
}

/// Content that is a text is that text, and content that is neither a text nor a list is JSON.
pub proof fn law_other_content_is_kept(v: JsonView)
    ensures
        v matches JsonView::Str(s) ==> flattened(v) == s,
        !(v is Str) && !(v is Array) ==> flattened(v) == json_text(v),
{
}

/// A text carries everything that is in a block: each of its fields that is there, in order, each
/// but the first behind a space, and nothing else.
pub open spec fn carries(full: Seq<char>, b: BlockView) -> bool {
    &&& in_order(
        seq![or_empty(b.text), or_empty(b.tool_name), or_empty(b.tool_input), or_empty(b.tool_result)],
        full,
    )
    &&& full.len() == or_empty(b.text).len() + or_empty(b.tool_name).len() + or_empty(
        b.tool_input,
    ).len() + or_empty(b.tool_result).len() + (if b.tool_name is Some {
        1int
    } else {
        0
    }) + (if b.tool_input is Some {
        1int
    } else {
        0
    }) + (if b.tool_result is Some {
        1int
    } else {
        0
    })
}

/// The text of an optional field is blank.
pub open spec fn is_vacant(o: Option<Seq<char>>) -> bool {
    match o {
        Some(s) => blank(s),
        None => true,
    }
}

proof fn lemma_body(b: BlockView)
    ensures
        carries(body_of(b), b),
{
    let t = or_empty(b.text);
    let n = or_empty(b.tool_name);
    let i = or_empty(b.tool_input);
    let r = or_empty(b.tool_result);
    let none = Seq::<Seq<char>>::empty();
    lemma_in_order_none(Seq::empty());
    lemma_in_order_next(none, Seq::empty(), t);
    assert(Seq::<char>::empty() + t =~= t);
    let p1 = none.push(t);
    lemma_spaced(p1, t, b.tool_name);
    let w2 = t + spaced(b.tool_name);
    let p2 = p1.push(n);
    lemma_spaced(p2, w2, b.tool_input);
    let w3 = w2 + spaced(b.tool_input);
    let p3 = p2.push(i);
    lemma_spaced(p3, w3, b.tool_result);
    assert(p3.push(r) =~= seq![t, n, i, r]);
}

proof fn lemma_body_blank(b: BlockView)
    ensures
        blank(body_of(b)) <==> is_vacant(b.text) && is_vacant(b.tool_name) && is_vacant(
            b.tool_input,
        ) && is_vacant(b.tool_result),
{
    let t = or_empty(b.text);
    let w2 = t + spaced(b.tool_name);
    let w3 = w2 + spaced(b.tool_input);
    lemma_blank_sum(t, spaced(b.tool_name));
    lemma_blank_sum(w2, spaced(b.tool_input));
    lemma_blank_sum(w3, spaced(b.tool_result));
    lemma_spaced_blank(b.tool_name);
    lemma_spaced_blank(b.tool_input);
    lemma_spaced_blank(b.tool_result);
}

proof fn lemma_spaced_blank(o: Option<Seq<char>>)
    ensures
        blank(spaced(o)) <==> is_vacant(o),
{
    match o {
        Some(s) => lemma_blank_sum(seq![' '], s),
        None => {},
    }
}

proof fn lemma_spaced(parts: Seq<Seq<char>>, whole: Seq<char>, o: Option<Seq<char>>)
    requires
        in_order(parts, whole),
    ensures
        in_order(parts.push(or_empty(o)), whole + spaced(o)),
{
    match o {
        Some(s) => {
            lemma_in_order_more(parts, whole, seq![' ']);
            lemma_in_order_next(parts, whole + seq![' '], s);
            assert(whole + seq![' '] + s =~= whole + spaced(o));
        },
        None => lemma_in_order_next(parts, whole, Seq::empty()),
    }
}

proof fn lemma_blank_sum(a: Seq<char>, b: Seq<char>)
    ensures
        blank(a + b) <==> blank(a) && blank(b),
{
    if blank(a + b) {
        assert forall|i: int| 0 <= i < a.len() implies is_white(#[trigger] a[i]) by {
            assert((a + b)[i] == a[i]);
        }
        assert forall|i: int| 0 <= i < b.len() implies is_white(#[trigger] b[i]) by {
            assert((a + b)[a.len() + i] == b[i]);
        }
    }
}

/// All content of a block is searched, calls and results of tools too: its search text is all that
/// the block carries, or the longest beginning of it that the index takes. It has none exactly where
/// every field of it is blank.
pub proof fn law_all_content_is_searched(b: BlockView)
    ensures
        search_body_of(b) is None <==> is_vacant(b.text) && is_vacant(b.tool_name) && is_vacant(
            b.tool_input,
        ) && is_vacant(b.tool_result),
        search_body_of(b) matches Some(body) ==> exists|full: Seq<char>| #[trigger]
            carries(full, b) && body.is_prefix_of(full) && (encode_utf8(full).len() <= INDEX_CAP
                ==> body == full) && (body.len() < full.len() ==> encode_utf8(
                full.take(body.len() as int + 1),
            ).len() > INDEX_CAP),
{
    lemma_body(b);
    lemma_body_blank(b);
    law_capped_is_longest_beginning(body_of(b), INDEX_CAP as nat);
}

/// The output of a tool is searched by its whole text, as long as it fits.
pub proof fn law_tool_results_are_searched(item: JsonView, t: Seq<char>)
    requires
        item.str_at("type"@) == Some("tool_result"@),
        item.str_at("content"@) == Some(t),
        !blank(t),
        encode_utf8(seq![' '] + t).len() <= INDEX_CAP,
    ensures
        search_body_of(block_of(item)) == Some(seq![' '] + t),
{
    law_parts_of_blocks_go_to_their_fields(item);
    reveal_strlit("tool_result");
    reveal_strlit("tool_use");
    let b = block_of(item);
    assert(body_of(b) =~= seq![' '] + t);
    lemma_blank_sum(seq![' '], t);
    law_capped_is_longest_beginning(body_of(b), INDEX_CAP as nat);
}

/// A text, a thought or a queued message is searched by its text alone, as long as it fits.
pub proof fn law_texts_are_searched(b: BlockView, t: Seq<char>)
    requires
        b.text == Some(t),
        b.tool_name is None,
        b.tool_input is None,
        b.tool_result is None,
        !blank(t),
        encode_utf8(t).len() <= INDEX_CAP,
    ensures
        search_body_of(b) == Some(t),
{
    assert(body_of(b) =~= t);
    law_capped_is_longest_beginning(t, INDEX_CAP as nat);
}

} // verus!
