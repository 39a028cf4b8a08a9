//! Records that are not messages: titles, modes, links, system notices, snapshots, ...

use vstd::prelude::*;

use crate::block::{flatten_content, flattened};
use crate::format::{shortened, truncate};
use crate::json::{display_json, json_display, str_field, Json, JsonView};
use crate::text::{
    blank, in_order, is_white, law_trim_idempotent, law_trimmed_blank, lemma_in_order_more,
    lemma_in_order_next, lemma_in_order_none, lemma_total_push, lemma_trimmed, opt_text, or_empty,
    str_eq, total_len, trim, trimmed,
};

verus! {

/// The plain text of the content of a record; empty where there is none.
pub open spec fn content_text(v: JsonView) -> Seq<char> {
    match v.get("content"@) {
        Some(c) => flattened(c),
        None => Seq::empty(),
    }
}

/// What an event says, before white space is taken off; nothing for a kind without a summary.
pub open spec fn event_text(event_type: Seq<char>, v: JsonView) -> Option<Seq<char>> {
    if event_type == "system"@ {
        Some("["@ + or_empty(v.str_at("subtype"@)) + "] "@ + shortened(content_text(v), 200))
    } else if event_type == "custom-title"@ {
        Some(or_empty(v.str_at("customTitle"@)))
    } else if event_type == "ai-title"@ {
        Some(or_empty(v.str_at("aiTitle"@)))
    } else if event_type == "last-prompt"@ {
        match v.str_at("lastPrompt"@) {
            Some(s) => Some(shortened(s, 200)),
            None => Some(Seq::empty()),
        }
    } else if event_type == "pr-link"@ {
        let number = match v.get("prNumber"@) {
            Some(n) => json_display(n),
            None => Seq::empty(),
        };
        Some(or_empty(v.str_at("prRepository"@)) + " #"@ + number + " "@ + or_empty(v.str_at("prUrl"@)))
    } else if event_type == "mode"@ {
        Some(or_empty(v.str_at("mode"@)))
    } else if event_type == "permission-mode"@ {
        Some(or_empty(v.str_at("permissionMode"@)))
    } else if event_type == "agent-name"@ {
        Some(or_empty(v.str_at("agentName"@)))
    } else if event_type == "queue-operation"@ {
        Some(
            or_empty(v.str_at("operation"@)) + ": "@ + match v.get("content"@) {
                Some(c) => shortened(flattened(c), 160),
                None => Seq::empty(),
            },
        )
    } else if event_type == "attachment"@ {
        let kind = match v.get("attachment"@) {
            Some(a) => a.str_at("type"@),
            None => None,
        };
        match kind {
            Some(k) => Some(k),
            None => Some("attachment"@),
        }
    } else if event_type == "file-history-snapshot"@ {
        match v.str_at("messageId"@) {
            Some(m) => Some("snapshot for "@ + m),
            None => Some("snapshot"@),
        }
    } else if event_type == "bridge-session"@ {
        Some(or_empty(v.str_at("bridgeSessionId"@)))
    } else {
        None
    }
}

/// The readable summary of an event; nothing where it has nothing to say.
pub open spec fn summary_of(event_type: Seq<char>, v: JsonView) -> Option<Seq<char>> {
    match event_text(event_type, v) {
        Some(s) => if trimmed(s).len() == 0 {
            None
        } else {
            Some(trimmed(s))
        },
        None => None,
    }
}

fn text_at(v: &Json, key: &str) -> (r: String)
    ensures
        r@ == or_empty(v@.str_at(key@)),
{
    match str_field(v, key) {
        Some(s) => s,
        None => String::new(),
    }
}

fn content_string(v: &Json) -> (r: String)
    ensures
        r@ == content_text(v@),
{
    match v.get("content") {
        Some(c) => flatten_content(c),
        None => String::new(),
    }
}

fn event_string(event_type: &str, v: &Json) -> (r: Option<String>)
    ensures
        opt_text(r) == event_text(event_type@, v@),
{
    if str_eq(event_type, "system") {
        let mut s = "[".to_owned();
        s.append(text_at(v, "subtype").as_str());
        s.append("] ");
        s.append(truncate(content_string(v).as_str(), 200).as_str());
        Some(s)
    } else if str_eq(event_type, "custom-title") {
        Some(text_at(v, "customTitle"))
    } else if str_eq(event_type, "ai-title") {
        Some(text_at(v, "aiTitle"))
    } else if str_eq(event_type, "last-prompt") {
        match str_field(v, "lastPrompt") {
            Some(s) => Some(truncate(s.as_str(), 200)),
            None => Some(String::new()),
        }
    } else if str_eq(event_type, "pr-link") {
        let mut s = text_at(v, "prRepository");
        s.append(" #");
        match v.get("prNumber") {
            Some(n) => s.append(display_json(n).as_str()),
            None => {
                assert(s@ + Seq::<char>::empty() == s@);
            },
        }
        s.append(" ");
        s.append(text_at(v, "prUrl").as_str());
        Some(s)
    } else if str_eq(event_type, "mode") {
        Some(text_at(v, "mode"))
    } else if str_eq(event_type, "permission-mode") {
        Some(text_at(v, "permissionMode"))
    } else if str_eq(event_type, "agent-name") {
        Some(text_at(v, "agentName"))
    } else if str_eq(event_type, "queue-operation") {
        let mut s = text_at(v, "operation");
        s.append(": ");
        match v.get("content") {
            Some(c) => s.append(truncate(flatten_content(c).as_str(), 160).as_str()),
            None => {
                assert(s@ + Seq::<char>::empty() == s@);
            },
        }
        Some(s)
    } else if str_eq(event_type, "attachment") {
        let kind = match v.get("attachment") {
            Some(a) => str_field(a, "type"),
            None => None,
        };
        match kind {
            Some(k) => Some(k),
            None => Some("attachment".to_owned()),
        }
    } else if str_eq(event_type, "file-history-snapshot") {
        match str_field(v, "messageId") {
            Some(m) => {
                let mut s = "snapshot for ".to_owned();
                s.append(m.as_str());
                Some(s)
            },
            None => Some("snapshot".to_owned()),
        }
    } else if str_eq(event_type, "bridge-session") {
        Some(text_at(v, "bridgeSessionId"))
    } else {
        None
    }
}

/// The readable summary of an event; nothing where it has nothing to say.
pub fn summarize_event(event_type: &str, v: &Json) -> (r: Option<String>)
    ensures
        opt_text(r) == summary_of(event_type@, v@),
{
    match event_string(event_type, v) {
        Some(text) => {
            let s = trim(text.as_str());
            if s.as_str().is_empty() {
                None
            } else {
                Some(s)
            }
        },
        None => None,
    }
}

/// A summary is never empty and neither starts nor ends with white space.
pub proof fn law_summaries_are_trimmed(event_type: Seq<char>, v: JsonView)
    ensures
        summary_of(event_type, v) matches Some(s) ==> s.len() > 0 && trimmed(s) == s,
{
    if let Some(s) = event_text(event_type, v) {
        law_trim_idempotent(s);
    }
}

/// The types of events with a summary are told apart by their lengths, and two pairs of them by a
/// character.
proof fn lemma_event_types()
    ensures
        "system"@.len() == 6,
        "custom-title"@.len() == 12,
        "ai-title"@.len() == 8,
        "last-prompt"@.len() == 11,
        "pr-link"@.len() == 7,
        "mode"@.len() == 4,
        "permission-mode"@.len() == 15,
        "permission-mode"@[0] == 'p',
        "agent-name"@.len() == 10,
        "agent-name"@[1] == 'g',
        "queue-operation"@.len() == 15,
        "queue-operation"@[0] == 'q',
        "attachment"@.len() == 10,
        "attachment"@[1] == 't',
        "file-history-snapshot"@.len() == 21,
        "bridge-session"@.len() == 14,
{
    reveal_strlit("system");
    reveal_strlit("custom-title");
    reveal_strlit("ai-title");
    reveal_strlit("last-prompt");
    reveal_strlit("pr-link");
    reveal_strlit("mode");
    reveal_strlit("permission-mode");
    reveal_strlit("agent-name");
    reveal_strlit("queue-operation");
    reveal_strlit("attachment");
    reveal_strlit("file-history-snapshot");
    reveal_strlit("bridge-session");
}

/// Events of this type are about the one text that they have at this key.
pub open spec fn is_about(event_type: Seq<char>, key: Seq<char>) -> bool {
    ||| event_type == "custom-title"@ && key == "customTitle"@
    ||| event_type == "ai-title"@ && key == "aiTitle"@
    ||| event_type == "mode"@ && key == "mode"@
    ||| event_type == "permission-mode"@ && key == "permissionMode"@
    ||| event_type == "agent-name"@ && key == "agentName"@
    ||| event_type == "bridge-session"@ && key == "bridgeSessionId"@
}

/// A title, a mode or a name is summarised by itself, without the white space around it.
pub proof fn law_names_are_their_summaries(event_type: Seq<char>, key: Seq<char>, v: JsonView)
    requires
        is_about(event_type, key),
    ensures
        match v.str_at(key) {
            Some(s) => if blank(s) {
                summary_of(event_type, v) is None
            } else {
                summary_of(event_type, v) == Some(trimmed(s))
            },
            None => summary_of(event_type, v) is None,
        },
{
    lemma_event_types();
    lemma_trimmed(Seq::empty());
    match v.str_at(key) {
        Some(s) => law_trimmed_blank(s),
        None => law_trimmed_blank(Seq::empty()),
    }
}

/// The prompt of an event is summarised by its beginning.
pub proof fn law_prompts_are_cut(v: JsonView)
    ensures
        match v.str_at("lastPrompt"@) {
            Some(s) => summary_of("last-prompt"@, v) == if blank(shortened(s, 200)) {
                None
            } else {
                Some(trimmed(shortened(s, 200)))
            },
            None => summary_of("last-prompt"@, v) is None,
        },
{
    lemma_event_types();
    match v.str_at("lastPrompt"@) {
        Some(s) => law_trimmed_blank(shortened(s, 200)),
        None => law_trimmed_blank(Seq::empty()),
    }
}

/// A summary says these texts, in order, with so many characters of its own between and around
/// them, and without the white space at its ends.
pub open spec fn says(summary: Option<Seq<char>>, parts: Seq<Seq<char>>, own: nat) -> bool {
    exists|raw: Seq<char>| #[trigger]
        in_order(parts, raw) && raw.len() == total_len(parts) + own && or_empty(summary) == trimmed(raw)
            && (summary is None <==> blank(raw))
}

proof fn lemma_says(event_type: Seq<char>, v: JsonView, parts: Seq<Seq<char>>, raw: Seq<char>, own: nat)
    requires
        event_text(event_type, v) == Some(raw),
        in_order(parts, raw),
        raw.len() == total_len(parts) + own,
    ensures
        says(summary_of(event_type, v), parts, own),
{
    law_trimmed_blank(raw);
    if blank(raw) {
        assert(trimmed(raw) =~= Seq::<char>::empty());
    }
}

/// A notice says what kind of notice it is, and the beginning of its text.
pub proof fn law_notices_say_their_text(v: JsonView)
    ensures
        ({
            let text = match v.get("content"@) {
                Some(c) => flattened(c),
                None => Seq::empty(),
            };
            says(
                summary_of("system"@, v),
                seq![or_empty(v.str_at("subtype"@)), shortened(text, 200)],
                3,
            )
        }),
{
    lemma_event_types();
    reveal_strlit("[");
    reveal_strlit("] ");
    let none = Seq::<Seq<char>>::empty();
    let a = or_empty(v.str_at("subtype"@));
    let b = shortened(content_text(v), 200);
    lemma_in_order_none("["@);
    lemma_in_order_next(none, "["@, a);
    lemma_in_order_more(none.push(a), "["@ + a, "] "@);
    lemma_in_order_next(none.push(a), "["@ + a + "] "@, b);
    lemma_total_push(none, a);
    lemma_total_push(none.push(a), b);
    assert(none.push(a).push(b) =~= seq![a, b]);
    lemma_says("system"@, v, seq![a, b], "["@ + a + "] "@ + b, 3);
}

/// A link says the repository, the number and the address.
pub proof fn law_links_say_where_they_lead(v: JsonView)
    ensures
        ({
            let number = match v.get("prNumber"@) {
                Some(n) => json_display(n),
                None => Seq::empty(),
            };
            says(
                summary_of("pr-link"@, v),
                seq![or_empty(v.str_at("prRepository"@)), number, or_empty(v.str_at("prUrl"@))],
                3,
            )
        }),
{
    lemma_event_types();
    reveal_strlit(" #");
    reveal_strlit(" ");
    let none = Seq::<Seq<char>>::empty();
    let a = or_empty(v.str_at("prRepository"@));
    let b = match v.get("prNumber"@) {
        Some(n) => json_display(n),
        None => Seq::empty(),
    };
    let c = or_empty(v.str_at("prUrl"@));
    lemma_in_order_none(Seq::empty());
    lemma_in_order_next(none, Seq::empty(), a);
    assert(Seq::<char>::empty() + a =~= a);
    lemma_in_order_more(none.push(a), a, " #"@);
    lemma_in_order_next(none.push(a), a + " #"@, b);
    lemma_in_order_more(none.push(a).push(b), a + " #"@ + b, " "@);
    lemma_in_order_next(none.push(a).push(b), a + " #"@ + b + " "@, c);
    lemma_total_push(none, a);
    lemma_total_push(none.push(a), b);
    lemma_total_push(none.push(a).push(b), c);
    assert(none.push(a).push(b).push(c) =~= seq![a, b, c]);
    lemma_says("pr-link"@, v, seq![a, b, c], a + " #"@ + b + " "@ + c, 3);
}

/// A queue operation says what is done, and the beginning of the text it is done with.
pub proof fn law_queue_operations_say_their_text(v: JsonView)
    ensures
        ({
            let text = match v.get("content"@) {
                Some(c) => shortened(flattened(c), 160),
                None => Seq::empty(),
            };
            says(
                summary_of("queue-operation"@, v),
                seq![or_empty(v.str_at("operation"@)), text],
                2,
            )
        }),
{
    lemma_event_types();
    reveal_strlit(": ");
    let none = Seq::<Seq<char>>::empty();
    let a = or_empty(v.str_at("operation"@));
    let b = match v.get("content"@) {
        Some(c) => shortened(flattened(c), 160),
        None => Seq::empty(),
    };
    lemma_in_order_none(Seq::empty());
    lemma_in_order_next(none, Seq::empty(), a);
    assert(Seq::<char>::empty() + a =~= a);
    lemma_in_order_more(none.push(a), a, ": "@);
    lemma_in_order_next(none.push(a), a + ": "@, b);
    lemma_total_push(none, a);
    lemma_total_push(none.push(a), b);
    assert(none.push(a).push(b) =~= seq![a, b]);
    lemma_says("queue-operation"@, v, seq![a, b], a + ": "@ + b, 2);
}

/// An attachment says its type and a snapshot its message, and both that they are there.
pub proof fn law_attachments_and_snapshots_are_said(v: JsonView)
    ensures
        match v.get("attachment"@) {
            Some(a) => match a.str_at("type"@) {
                Some(t) => or_empty(summary_of("attachment"@, v)) == trimmed(t),
                None => summary_of("attachment"@, v) == Some("attachment"@),
            },
            None => summary_of("attachment"@, v) == Some("attachment"@),
        },
        match v.str_at("messageId"@) {
            Some(m) => says(summary_of("file-history-snapshot"@, v), seq![m], 13),
            None => summary_of("file-history-snapshot"@, v) == Some("snapshot"@),
        },
{
    lemma_event_types();
    reveal_strlit("attachment");
    reveal_strlit("snapshot");
    reveal_strlit("snapshot for ");
    lemma_trimmed("attachment"@);
    lemma_trimmed("snapshot"@);
    assert("attachment"@[9] == 't');
    assert("snapshot"@[0] == 's' && "snapshot"@[7] == 't');
    assert(!is_white('a') && !is_white('s') && !is_white('t'));
    if let Some(m) = v.str_at("messageId"@) {
        let none = Seq::<Seq<char>>::empty();
        let head = "snapshot for "@;
        lemma_in_order_none(head);
        lemma_in_order_next(none, head, m);
        lemma_total_push(none, m);
        assert(none.push(m) =~= seq![m]);
        lemma_says("file-history-snapshot"@, v, seq![m], head + m, 13);
    }
}

/// Events of any other type have no summary.
pub proof fn law_other_events_have_no_summary(event_type: Seq<char>, v: JsonView)
    requires
        !is_about(event_type, "customTitle"@),
        !is_about(event_type, "aiTitle"@),
        !is_about(event_type, "mode"@),
        !is_about(event_type, "permissionMode"@),
        !is_about(event_type, "agentName"@),
        !is_about(event_type, "bridgeSessionId"@),
        event_type != "system"@,
        event_type != "last-prompt"@,
        event_type != "pr-link"@,
        event_type != "queue-operation"@,
        event_type != "attachment"@,
        event_type != "file-history-snapshot"@,
    ensures
        summary_of(event_type, v) is None,
{
}

} // verus!
