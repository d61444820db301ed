//! The conversation: what is added to it, and how it is kept within its budget.
use vstd::prelude::*;
use vstd::string::*;

use crate::json::{views, Json, JsonMap, JsonView};

verus! {

/// A message that says something.
pub open spec fn message(role: Seq<char>, content: Seq<char>) -> JsonView {
    JsonView::Object(
        Map::empty().insert("role"@, JsonView::String(role)).insert(
            "content"@,
            JsonView::String(content),
        ),
    )
}

/// A message that says `content` as `role`.
pub fn spoken(role: &str, content: &str) -> (res: Json)
    ensures
        res@ == message(role@, content@),
{
    let mut map = JsonMap::new();
    map.set("role", Json::text(role));
    map.set("content", Json::text(content));
    Json::Object(map)
}

/// A message that answers a tool call.
pub open spec fn tool_message(call_id: Seq<char>, content: Seq<char>) -> JsonView {
    JsonView::Object(
        Map::empty().insert("role"@, JsonView::String("tool"@)).insert(
            "tool_call_id"@,
            JsonView::String(call_id),
        ).insert("content"@, JsonView::String(content)),
    )
}

/// The answer `content` to the tool call `call_id`.
pub fn tool_answer(call_id: &str, content: &str) -> (res: Json)
    ensures
        res@ == tool_message(call_id@, content@),
{
    let mut map = JsonMap::new();
    map.set("role", Json::text("tool"));
    map.set("tool_call_id", Json::text(call_id));
    map.set("content", Json::text(content));
    Json::Object(map)
}

/// The answers to tool calls that never ran.
pub open spec fn sealed(pending: Seq<JsonView>, reason: Seq<char>) -> Seq<JsonView> {
    pending.map_values(|call: JsonView| tool_message(call.at("id"@).str_or(""@), reason))
}

/// Append placeholder responses for tool calls that never ran.
///
/// OpenAI-compatible APIs reject a request whose assistant message carries
/// `tool_calls` without a matching `role: "tool"` for every id. A transcript is
/// documented as usable for persistence or a follow-up turn, so an early return
/// that leaves calls unanswered would hand back something that cannot actually
/// be resumed.
pub fn seal_unanswered(messages: &mut Vec<Json>, pending: &[Json], reason: &str)
    ensures
        views(final(messages)@) == views(old(messages)@) + sealed(views(pending@), reason@),
{
    let ghost before = views(messages@);
    let ghost answers = sealed(views(pending@), reason@);
    assert(before =~= before + answers.take(0));
    for i in 0..pending.len()
        invariant
            answers == sealed(views(pending@), reason@),
            views(messages@) == before + answers.take(i as int),
    {
        let ghost so_far = views(messages@);
        let answer = tool_answer(pending[i].at("id").str_or(""), reason);
        messages.push(answer);
        proof {
            assert(views(messages@) =~= so_far.push(answer@));
            assert(answers[i as int] == answer@);
            assert(answers.take(i + 1) =~= answers.take(i as int).push(answer@));
        }
    }
    assert(answers.take(pending@.len() as int) =~= answers);
}

/// Whether a message is a tool result.
pub open spec fn is_tool_result(m: JsonView) -> bool {
    m.at("role"@) == JsonView::String("tool"@)
}

/// The characters that a message's content has.
pub open spec fn content_len(m: JsonView) -> nat {
    match m.at("content"@).as_str() {
        Some(s) => s.len(),
        None => 0,
    }
}

/// The characters of the tool results that are kept from the message `i` on:
/// from the newest to the oldest, each that still fits in the budget.
pub open spec fn kept_chars(messages: Seq<JsonView>, budget: int, i: int) -> nat
    decreases messages.len() - i,
{
    if i >= messages.len() {
        0
    } else {
        let newer = kept_chars(messages, budget, i + 1);
        if is_tool_result(messages[i]) && newer + content_len(messages[i]) <= budget {
            newer + content_len(messages[i])
        } else {
            newer
        }
    }
}

/// Whether the content of the message `i` fits in what the newer tool results
/// leave of the budget.
pub open spec fn fits(messages: Seq<JsonView>, budget: int, i: int) -> bool {
    kept_chars(messages, budget, i + 1) + content_len(messages[i]) <= budget
}

/// A message whose content was elided.
pub open spec fn elided(m: JsonView) -> JsonView {
    match m {
        JsonView::Object(map) => JsonView::Object(
            map.insert(
                "content"@,
                JsonView::String("[earlier tool result elided to save context]"@),
            ),
        ),
        _ => m,
    }
}

/// A message in a trimmed conversation.
pub open spec fn trimmed_at(messages: Seq<JsonView>, budget: int, i: int) -> JsonView {
    if is_tool_result(messages[i]) && !fits(messages, budget, i) {
        elided(messages[i])
    } else {
        messages[i]
    }
}

/// A conversation whose tool results are kept within the budget.
pub open spec fn trimmed(messages: Seq<JsonView>, budget: int) -> Seq<JsonView> {
    Seq::new(messages.len(), |i: int| trimmed_at(messages, budget, i))
}

/// Cap the tool-result text carried in the conversation: keep the newest
/// results whole up to `budget_chars`, elide older ones.
///
/// Only `role: "tool"` messages are elided — assistant reasoning is never
/// compacted, because losing it changes what the model concludes.
pub fn trim_history(messages: &mut [Json], budget_chars: usize)
    ensures
        views(final(messages)@) == trimmed(views(old(messages)@), budget_chars as int),
{
    let ghost before = views(messages@);
    let mut used: usize = 0;
    let mut i: usize = messages.len();
    while i > 0
        invariant
            i <= messages@.len(),
            messages@.len() == before.len(),
            used == kept_chars(before, budget_chars as int, i as int),
            used <= budget_chars,
            forall|j: int| 0 <= j < i ==> (#[trigger] messages@[j])@ == before[j],
            forall|j: int|
                i <= j < messages@.len() ==> (#[trigger] messages@[j])@ == trimmed_at(
                    before,
                    budget_chars as int,
                    j,
                ),
        decreases i,
    {
        i -= 1;
        if !messages[i].at("role").is_str("tool") {
            continue ;
        }
        let len: usize = match messages[i].at("content").as_str() {
            Some(c) => c.unicode_len(),
            None => 0,
        };
        if len > budget_chars - used {
            match &mut messages[i] {
                Json::Object(map) => {
                    map.set("content", Json::text("[earlier tool result elided to save context]"));
                },
                _ => {},
            }
        } else {
            used += len;
        }
    }
    assert(views(messages@) =~= trimmed(before, budget_chars as int));
}

/// The members of messages have different names.
pub proof fn lemma_member_names()
    ensures
        "role"@ != "content"@,
        "role"@ != "tool_calls"@,
        "role"@ != "tool_call_id"@,
        "content"@ != "tool_calls"@,
        "content"@ != "tool_call_id"@,
        "tool_calls"@ != "tool_call_id"@,
{
    reveal_strlit("role");
    reveal_strlit("content");
    reveal_strlit("tool_call_id");
    reveal_strlit("tool_calls");
    assert("role"@.len() == 4 && "content"@.len() == 7 && "tool_call_id"@.len() == 12
        && "tool_calls"@.len() == 10);
}

/// Trimming loses no message and touches nothing but the content of tool
/// results.
pub proof fn only_tool_results_are_elided(
    messages: Seq<JsonView>,
    budget: int,
    i: int,
    member: Seq<char>,
)
    requires
        0 <= i < messages.len(),
    ensures
        trimmed(messages, budget).len() == messages.len(),
        !is_tool_result(messages[i]) ==> trimmed(messages, budget)[i] == messages[i],
        member != "content"@ ==> trimmed(messages, budget)[i].at(member) == messages[i].at(member),
{
}

/// The characters of the tool results from the message `i` on.
pub open spec fn result_chars(messages: Seq<JsonView>, i: int) -> nat
    decreases messages.len() - i,
{
    if i >= messages.len() {
        0
    } else if is_tool_result(messages[i]) {
        result_chars(messages, i + 1) + content_len(messages[i])
    } else {
        result_chars(messages, i + 1)
    }
}

/// What is kept of the tool results from the message `i` on fits in the budget.
proof fn lemma_kept(messages: Seq<JsonView>, budget: int, i: int)
    requires
        0 <= budget,
        0 <= i,
    ensures
        kept_chars(messages, budget, i) <= budget,
        kept_chars(messages, budget, i) <= result_chars(messages, i),
    decreases messages.len() - i,
{
    if i < messages.len() {
        lemma_kept(messages, budget, i + 1);
    }
}

/// The tool results that are kept whole have no more characters than the budget
/// allows.
pub proof fn kept_results_fit_the_budget(messages: Seq<JsonView>, budget: int)
    requires
        0 <= budget,
    ensures
        kept_chars(messages, budget, 0) <= budget,
{
    lemma_kept(messages, budget, 0);
}

/// The newest tool results are kept whole as far as the budget goes: where those
/// from the message `from` on fit in it together, all that follows is unchanged.
pub proof fn the_newest_results_are_kept(messages: Seq<JsonView>, budget: int, from: int, i: int)
    requires
        0 <= from <= i < messages.len(),
        result_chars(messages, from) <= budget,
    ensures
        trimmed(messages, budget)[i] == messages[i],
    decreases i - from,
{
    if from < i {
        the_newest_results_are_kept(messages, budget, from + 1, i);
    } else {
        lemma_kept(messages, budget, i + 1);
    }
}

/// The text of a message's content.
pub open spec fn content_text(m: JsonView) -> Seq<char> {
    match m.at("content"@) {
        JsonView::String(s) => s,
        _ => Seq::empty(),
    }
}

/// The characters of the tool results from the message `i` on that stand in `after`
/// as they stood in `before`; where `anew` is set, without those that say that
/// something was elided.
pub open spec fn unchanged_chars(
    before: Seq<JsonView>,
    after: Seq<JsonView>,
    anew: bool,
    i: int,
) -> nat
    decreases before.len() - i,
{
    if i >= before.len() {
        0
    } else {
        let newer = unchanged_chars(before, after, anew, i + 1);
        let text = content_text(before[i]);
        if before[i].at("role"@) == JsonView::String("tool"@) && after[i] == before[i] && !(anew
            && text == "[earlier tool result elided to save context]"@) {
            newer + text.len()
        } else {
            newer
        }
    }
}

/// What is counted as kept lies between what is seen to be kept and what is seen to
/// be unchanged.
proof fn lemma_unchanged(messages: Seq<JsonView>, budget: int, i: int)
    requires
        0 <= i,
    ensures
        unchanged_chars(messages, trimmed(messages, budget), true, i) <= kept_chars(
            messages,
            budget,
            i,
        ) <= unchanged_chars(messages, trimmed(messages, budget), false, i),
    decreases messages.len() - i,
{
    if i < messages.len() {
        lemma_unchanged(messages, budget, i + 1);
        let m = messages[i];
        if is_tool_result(m) && !fits(messages, budget, i) && trimmed(messages, budget)[i] == m {
            if let JsonView::Object(map) = m {
                let text = JsonView::String("[earlier tool result elided to save context]"@);
                assert(map.insert("content"@, text)["content"@] == text);
                assert(m.at("content"@) == text);
            }
        }
    }
}

/// After trimming, the tool results that were left as they were have together no
/// more characters than the budget. Those that already said that something was
/// elided do not count.
pub proof fn what_is_left_whole_fits_the_budget(messages: Seq<JsonView>, budget: int)
    requires
        0 <= budget,
    ensures
        unchanged_chars(messages, trimmed(messages, budget), true, 0) <= budget,
{
    lemma_unchanged(messages, budget, 0);
    lemma_kept(messages, budget, 0);
}

/// Nothing is elided that there was room for: the newer tool results that were left
/// as they were and the one that was elided have together more characters than the
/// budget.
pub proof fn nothing_is_elided_without_need(messages: Seq<JsonView>, budget: int, i: int)
    requires
        0 <= i < messages.len(),
        trimmed(messages, budget)[i] != messages[i],
    ensures
        unchanged_chars(messages, trimmed(messages, budget), false, i + 1) + content_text(
            messages[i],
        ).len() > budget,
{
    lemma_unchanged(messages, budget, i + 1);
}

/// A tool result that there is no room for beside the newer ones that were left as
/// they were is elided: it says so in place of its content, and keeps all its other
/// members.
pub proof fn what_does_not_fit_is_elided(messages: Seq<JsonView>, budget: int, i: int)
    requires
        0 <= i < messages.len(),
        messages[i].at("role"@) == JsonView::String("tool"@),
        unchanged_chars(messages, trimmed(messages, budget), true, i + 1) + content_text(
            messages[i],
        ).len() > budget,
    ensures
        trimmed(messages, budget)[i].get("content"@) == Some(
            JsonView::String("[earlier tool result elided to save context]"@),
        ),
        forall|member: Seq<char>|
            member != "content"@ ==> #[trigger] trimmed(messages, budget)[i].get(member)
                == messages[i].get(member),
{
    lemma_unchanged(messages, budget, i + 1);
}

/// A message that trimming changed is a tool result, and nothing but its content is
/// another: it says that the result was elided.
pub proof fn a_changed_message_is_an_elided_tool_result(
    messages: Seq<JsonView>,
    budget: int,
    i: int,
)
    requires
        0 <= i < messages.len(),
        trimmed(messages, budget)[i] != messages[i],
    ensures
        messages[i].at("role"@) == JsonView::String("tool"@),
        trimmed(messages, budget)[i].get("content"@) == Some(
            JsonView::String("[earlier tool result elided to save context]"@),
        ),
        forall|member: Seq<char>|
            member != "content"@ ==> #[trigger] trimmed(messages, budget)[i].get(member)
                == messages[i].get(member),
{
}

/// A tool result alone is left as it is if and only if it is no longer than the
/// budget, or says already that it was elided.
pub proof fn a_single_result_is_kept_if_it_fits(m: JsonView, budget: int)
    requires
        m.at("role"@) == JsonView::String("tool"@),
    ensures
        trimmed(seq![m], budget)[0] == m <==> content_text(m).len() <= budget || content_text(m)
            == "[earlier tool result elided to save context]"@,
{
    let messages = seq![m];
    assert(kept_chars(messages, budget, 1) == 0);
    reveal_strlit("[earlier tool result elided to save context]");
    assert("[earlier tool result elided to save context]"@.len() > 0);
    if let JsonView::Object(map) = m {
        let text = JsonView::String("[earlier tool result elided to save context]"@);
        if m.at("content"@) == text {
            assert(map.insert("content"@, text) =~= map);
        } else {
            assert(map.insert("content"@, text)["content"@] == text);
        }
    }
}

/// What is newest is decided first: messages that stand before others do not change
/// what becomes of these.
pub proof fn older_messages_do_not_change_newer_ones(
    older: Seq<JsonView>,
    newer: Seq<JsonView>,
    budget: int,
)
    ensures
        trimmed(older + newer, budget).skip(older.len() as int) == trimmed(newer, budget),
{
    let all = older + newer;
    let n = older.len() as int;
    assert forall|i: int| 0 <= i < newer.len() implies #[trigger] trimmed(all, budget).skip(n)[i]
        == trimmed(newer, budget)[i] by {
        lemma_kept_after(older, newer, budget, i + 1);
        assert(all[n + i] == newer[i]);
    }
    assert(trimmed(all, budget).skip(n) =~= trimmed(newer, budget));
}

/// What is kept of newer messages does not depend on older ones.
proof fn lemma_kept_after(older: Seq<JsonView>, newer: Seq<JsonView>, budget: int, i: int)
    requires
        0 <= i,
    ensures
        kept_chars(older + newer, budget, older.len() + i) == kept_chars(newer, budget, i),
    decreases newer.len() - i,
{
    if i < newer.len() {
        lemma_kept_after(older, newer, budget, i + 1);
        assert((older + newer)[older.len() + i] == newer[i]);
    }
}

/// A message that says something has a role and a content, and nothing else.
pub proof fn a_message_says_what_it_was_given(
    role: Seq<char>,
    content: Seq<char>,
    member: Seq<char>,
)
    ensures
        message(role, content).get("role"@) == Some(JsonView::String(role)),
        message(role, content).get("content"@) == Some(JsonView::String(content)),
        member != "role"@ && member != "content"@ ==> message(role, content).get(member) is None,
{
    lemma_member_names();
}

/// The answer to a tool call names the call and holds the result as it is, and
/// nothing else.
pub proof fn an_answer_names_its_call(
    call_id: Seq<char>,
    content: Seq<char>,
    member: Seq<char>,
)
    ensures
        tool_message(call_id, content).get("role"@) == Some(JsonView::String("tool"@)),
        tool_message(call_id, content).get("tool_call_id"@) == Some(JsonView::String(call_id)),
        tool_message(call_id, content).get("content"@) == Some(JsonView::String(content)),
        member != "role"@ && member != "tool_call_id"@ && member != "content"@ ==> tool_message(
            call_id,
            content,
        ).get(member) is None,
{
    lemma_member_names();
}

/// Each call that never ran gets an answer of its own, in the order of the calls:
/// it names the call and says why nothing ran.
pub proof fn every_pending_call_is_sealed(pending: Seq<JsonView>, reason: Seq<char>, i: int)
    requires
        0 <= i < pending.len(),
    ensures
        sealed(pending, reason).len() == pending.len(),
        sealed(pending, reason)[i].get("role"@) == Some(JsonView::String("tool"@)),
        sealed(pending, reason)[i].get("content"@) == Some(JsonView::String(reason)),
        pending[i].at("id"@) matches JsonView::String(id) ==> sealed(pending, reason)[i].get(
            "tool_call_id"@,
        ) == Some(JsonView::String(id)),
        pending[i].at("id"@) !is String ==> sealed(pending, reason)[i].get("tool_call_id"@) == Some(
            JsonView::String(""@),
        ),
{
    lemma_member_names();
}

} // verus!
