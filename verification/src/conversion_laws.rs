//! Properties of the conversions, stated over all inputs: what each piece
//! of the input becomes, and in what order.

use vstd::prelude::*;

use crate::json::{empty_object_text, json_reencoded};
use crate::openai_compat::{
    chat_messages_of, chat_messages_of_all, chat_request_spec, converter_step, finish_events,
    response_spec, start_message_model, system_message, text_events, tool_call_events,
    tool_call_step, tool_calls_part, tool_result_block_text, tool_result_text,
    ChatCompletionChunk, ChatCompletionResponse, ChatMessageModel,
    ChunkToolCall, ConverterModel,
};
use crate::sse::{data_field, data_values, done_marker, event_field, payload_spec};
use crate::text::{
    is_white_space, join_spec, lines_spec, split_lf, starts_with, trim_end_spec, trim_spec,
    trim_start_spec,
};
use crate::types::{
    InputContentBlock, InputMessage, MessageRequest, OutputBlockModel, StreamEventModel,
    ToolResultContentBlock,
};

verus! {

// ── Tool calls of a stream ─────────────────────────────────────────────────

/// Event `e` opens a tool-use block with id `id`, name `name` and the empty
/// object as its input.
pub open spec fn is_tool_start(e: StreamEventModel, id: Seq<char>, name: Seq<char>) -> bool {
    match e {
        StreamEventModel::ContentBlockStart {
            content_block: OutputBlockModel::ToolUse { id: i, name: n, input },
            ..
        } => i == id && n == name && input == empty_object_text(),
        _ => false,
    }
}

/// Some event of `evs` opens a tool-use block with id `id`, name `name` and
/// the empty object as its input.
pub open spec fn opens_tool_block(evs: Seq<StreamEventModel>, id: Seq<char>, name: Seq<char>) -> bool {
    exists|k: int| 0 <= k < evs.len() && is_tool_start(#[trigger] evs[k], id, name)
}

proof fn lemma_opens_left(a: Seq<StreamEventModel>, b: Seq<StreamEventModel>, id: Seq<char>, name: Seq<char>)
    requires
        opens_tool_block(a, id, name),
    ensures
        opens_tool_block(a + b, id, name),
{
    let k = choose|k: int| 0 <= k < a.len() && is_tool_start(#[trigger] a[k], id, name);
    assert((a + b)[k] == a[k]);
}

proof fn lemma_opens_right(a: Seq<StreamEventModel>, b: Seq<StreamEventModel>, id: Seq<char>, name: Seq<char>)
    requires
        opens_tool_block(b, id, name),
    ensures
        opens_tool_block(a + b, id, name),
{
    let k = choose|k: int| 0 <= k < b.len() && is_tool_start(#[trigger] b[k], id, name);
    assert((a + b)[a.len() + k] == b[k]);
}

proof fn lemma_tool_events_open(idx: int, h: bool, calls: Seq<ChunkToolCall>, j: int)
    requires
        0 <= j < calls.len(),
        calls[j].id is Some,
        calls[j].function matches Some(f) && f.name is Some,
    ensures
        opens_tool_block(
            tool_call_events(idx, h, calls).2,
            calls[j].id.unwrap()@,
            calls[j].function.unwrap().name.unwrap()@,
        ),
    decreases calls.len(),
{
    let id = calls[j].id.unwrap()@;
    let name = calls[j].function.unwrap().name.unwrap()@;
    let (i0, h0, e0) = tool_call_events(idx, h, calls.drop_last());
    let e1 = tool_call_step(i0, h0, calls.last()).2;
    if j < calls.len() - 1 {
        assert(calls.drop_last()[j] == calls[j]);
        lemma_tool_events_open(idx, h, calls.drop_last(), j);
        lemma_opens_left(e0, e1, id, name);
    } else {
        let closed = if h0 {
            seq![StreamEventModel::ContentBlockStop { index: i0 as u32 }]
        } else {
            Seq::<StreamEventModel>::empty()
        };
        let k = closed.len() as int;
        assert(is_tool_start(e1[k], id, name));
        lemma_opens_right(e0, e1, id, name);
    }
}

/// Every tool call piece of a chunk's choice that has an id and a function
/// name opens a tool-use block with that id and that name, whatever the
/// converter's state.
pub proof fn law_tool_call_opens_named_block(
    s: ConverterModel,
    c: ChatCompletionChunk,
    j: int,
)
    requires
        c.choices@.len() > 0,
        c.choices@[0].delta.tool_calls is Some,
        0 <= j < c.choices@[0].delta.tool_calls.unwrap()@.len(),
        c.choices@[0].delta.tool_calls.unwrap()@[j].id is Some,
        c.choices@[0].delta.tool_calls.unwrap()@[j].function matches Some(f) && f.name is Some,
    ensures
        ({
            let tc = c.choices@[0].delta.tool_calls.unwrap()@[j];
            opens_tool_block(
                converter_step(s, c).1,
                tc.id.unwrap()@,
                tc.function.unwrap().name.unwrap()@,
            )
        }),
{
    let choice = c.choices@[0];
    let calls = choice.delta.tool_calls.unwrap()@;
    let tc = calls[j];
    let id = tc.id.unwrap()@;
    let name = tc.function.unwrap().name.unwrap()@;
    let mid = converter_step(s, c).0;
    let started = if s.message_started {
        Seq::<StreamEventModel>::empty()
    } else {
        seq![
            StreamEventModel::MessageStart {
                message: start_message_model(mid.message_id, mid.message_model),
            },
        ]
    };
    let (i1, h1, text) = text_events(
        s.block_index,
        s.has_text_block,
        choice.delta.content.deep_view(),
    );
    let (i2, h2, tools) = tool_calls_part(i1, h1, choice.delta.tool_calls);
    let finish = match choice.finish_reason {
        Some(r) => finish_events(i2, r@, c.usage),
        None => Seq::<StreamEventModel>::empty(),
    };
    lemma_tool_events_open(i1, h1, calls, j);
    lemma_opens_right(started + text, tools, id, name);
    lemma_opens_left(started + text + tools, finish, id, name);
    assert(converter_step(s, c).1 == started + text + tools + finish);
}

// ── Request conversion ─────────────────────────────────────────────────────

proof fn lemma_messages_concat(a: Seq<InputMessage>, b: Seq<InputMessage>)
    ensures
        chat_messages_of_all(a + b) == chat_messages_of_all(a) + chat_messages_of_all(b),
    decreases b.len(),
{
    if b.len() == 0 {
        assert(a + b =~= a);
        assert(chat_messages_of_all(a) + chat_messages_of_all(b) =~= chat_messages_of_all(a));
    } else {
        assert((a + b).drop_last() =~= a + b.drop_last());
        assert((a + b).last() == b.last());
        lemma_messages_concat(a, b.drop_last());
        assert(chat_messages_of_all(a) + chat_messages_of_all(b.drop_last()) + chat_messages_of(
            b.last(),
        ) =~= chat_messages_of_all(a) + (chat_messages_of_all(b.drop_last()) + chat_messages_of(
            b.last(),
        )));
    }
}

/// The conversation keeps its order: where the request's messages are `a`
/// followed by `b`, the chat messages (after the system message, if any)
/// are those of `a` followed by those of `b`, and one input message gives
/// the chat messages of that message alone.
pub proof fn law_request_keeps_conversation_order(
    req: MessageRequest,
    a: Seq<InputMessage>,
    b: Seq<InputMessage>,
)
    requires
        req.messages@ == a + b,
    ensures
        chat_request_spec(req).messages == (match req.system {
            Some(p) => seq![system_message(p@)],
            None => Seq::<ChatMessageModel>::empty(),
        }) + chat_messages_of_all(a) + chat_messages_of_all(b),
        forall|m: InputMessage| #[trigger] chat_messages_of_all(seq![m]) == chat_messages_of(m),
{
    lemma_messages_concat(a, b);
    let sys = match req.system {
        Some(p) => seq![system_message(p@)],
        None => Seq::<ChatMessageModel>::empty(),
    };
    assert(sys + (chat_messages_of_all(a) + chat_messages_of_all(b)) =~= sys
        + chat_messages_of_all(a) + chat_messages_of_all(b));
    assert forall|m: InputMessage| #[trigger] chat_messages_of_all(seq![m]) == chat_messages_of(
        m,
    ) by {
        assert(seq![m].drop_last() =~= Seq::<InputMessage>::empty());
        assert(seq![m].last() == m);
        assert(chat_messages_of_all(Seq::<InputMessage>::empty()) == Seq::<ChatMessageModel>::empty());
        assert(Seq::<ChatMessageModel>::empty() + chat_messages_of(m) =~= chat_messages_of(m));
    }
}

/// A successful tool result is reported as it is: a user message made of
/// one tool result with one text block and no error becomes exactly one
/// tool message, for the result's tool call, whose content is that text.
pub proof fn law_successful_tool_result_message(m: InputMessage)
    requires
        m.role@ != "assistant"@,
        m.content@.len() == 1,
        m.content@[0] is ToolResult,
        !(m.content@[0]->is_error),
        (m.content@[0]->content)@.len() == 1,
        (m.content@[0]->content)@[0] is Text,
    ensures
        chat_messages_of(m) == seq![
            ChatMessageModel {
                role: "tool"@,
                content: Some(((m.content@[0]->content)@[0]->text)@),
                tool_calls: None,
                tool_call_id: Some((m.content@[0]->tool_use_id)@),
            },
        ],
{
    let blocks = m.content@;
    assert(blocks.drop_last() =~= Seq::<InputContentBlock>::empty());
    let content = (blocks[0]->content)@;
    let texts = content.map_values(|b: ToolResultContentBlock| tool_result_block_text(b));
    assert(texts =~= seq![(content[0]->text)@]);
    assert(join_spec(texts, seq!['\n']) == (content[0]->text)@);
    assert(tool_result_text(content, false) == (content[0]->text)@);
    let results = seq![((blocks[0]->tool_use_id)@, (content[0]->text)@)];
    let p = crate::openai_compat::message_parts(blocks);
    assert(crate::openai_compat::message_parts(blocks.drop_last()).texts =~= Seq::<Seq<char>>::empty());
    assert(crate::openai_compat::message_parts(blocks.drop_last()).results =~= Seq::<(Seq<char>, Seq<char>)>::empty());
    assert(blocks.last() == blocks[0]);
    assert(p.texts =~= Seq::<Seq<char>>::empty());
    assert(p.results =~= results);
    assert(results.map_values(|r: (Seq<char>, Seq<char>)| crate::openai_compat::tool_message(r))
        =~= seq![crate::openai_compat::tool_message(results[0])]);
    assert(chat_messages_of(m) =~= seq![
        ChatMessageModel {
            role: "tool"@,
            content: Some((content[0]->text)@),
            tool_calls: None,
            tool_call_id: Some((blocks[0]->tool_use_id)@),
        },
    ]);
}

/// The error mark goes with the error flag alone: the text of an error
/// result is `[ERROR] ` before the text that the same content gives as a
/// successful result, which is its blocks' texts, one per line.
pub proof fn law_error_mark_only_on_errors(content: Seq<ToolResultContentBlock>)
    ensures
        tool_result_text(content, true) == "[ERROR] "@ + tool_result_text(content, false),
        tool_result_text(content, false) == join_spec(
            content.map_values(|b: ToolResultContentBlock| tool_result_block_text(b)),
            seq!['\n'],
        ),
{
}

// ── Response conversion ────────────────────────────────────────────────────

/// A response's content is its first choice's text, where that is not
/// empty, followed by one tool-use block per tool call, in order, with the
/// call's id and name and its arguments read as JSON (the empty object
/// where they are not JSON); the text stays whatever the tool calls are.
pub proof fn law_response_text_then_tool_uses(r: ChatCompletionResponse)
    requires
        r.choices@.len() > 0,
    ensures
        ({
            let ch = r.choices@[0];
            let content = response_spec(r).content;
            let has_text = ch.message.content is Some && ch.message.content.unwrap()@.len() > 0;
            let off: int = if has_text {
                1
            } else {
                0
            };
            let calls = match ch.message.tool_calls {
                Some(t) => t@,
                None => Seq::empty(),
            };
            &&& content.len() == off + calls.len()
            &&& has_text ==> content[0] == OutputBlockModel::Text {
                text: ch.message.content.unwrap()@,
            }
            &&& forall|i: int|
                0 <= i < calls.len() ==> #[trigger] content[off + i] == OutputBlockModel::ToolUse {
                    id: calls[i].id@,
                    name: calls[i].function.name@,
                    input: match json_reencoded(calls[i].function.arguments@) {
                        Some(t) => t,
                        None => empty_object_text(),
                    },
                }
        }),
{
}

// ── Data payloads ──────────────────────────────────────────────────────────

proof fn lemma_split_without_line_feed(s: Seq<char>)
    requires
        forall|i: int| 0 <= i < s.len() ==> s[i] != '\n',
    ensures
        split_lf(s) == seq![s],
    decreases s.len(),
{
    if s.len() > 0 {
        lemma_split_without_line_feed(s.drop_last());
        assert(s.last() != '\n');
        assert(s.drop_last().push(s.last()) =~= s);
        assert(seq![s.drop_last()].update(0, s.drop_last().push(s.last())) =~= seq![s]);
    } else {
        assert(s =~= Seq::<char>::empty());
    }
}

proof fn lemma_trim_start_spaces(pad: Seq<char>, v: Seq<char>)
    requires
        forall|i: int| 0 <= i < pad.len() ==> pad[i] == ' ',
        v.len() > 0,
        !is_white_space(v[0]),
    ensures
        trim_start_spec(pad + v) == v,
    decreases pad.len(),
{
    if pad.len() == 0 {
        assert(pad + v =~= v);
    } else {
        assert((pad + v)[0] == ' ');
        assert((pad + v).drop_first() =~= pad.drop_first() + v);
        lemma_trim_start_spaces(pad.drop_first(), v);
    }
}

/// A frame of one data line carries its value unchanged: for `data:`,
/// spaces, and a value `v` that neither begins nor ends with white space
/// and holds no line feed, the payload is `v` itself, with all the white
/// space inside it, unless `v` is the end-of-stream marker.
pub proof fn law_single_data_line_payload(pad: Seq<char>, v: Seq<char>)
    requires
        forall|i: int| 0 <= i < pad.len() ==> pad[i] == ' ',
        v.len() > 0,
        !is_white_space(v[0]),
        !is_white_space(v.last()),
        forall|i: int| 0 <= i < v.len() ==> v[i] != '\n',
        v != done_marker(),
    ensures
        payload_spec(data_field() + pad + v) == Some(v),
{
    let frame = data_field() + pad + v;
    assert(frame[0] == 'd');
    assert(frame.last() == v.last());
    assert(trim_start_spec(frame) == frame);
    assert(trim_end_spec(frame) == frame);
    assert(trim_spec(frame) == frame);
    assert forall|i: int| 0 <= i < frame.len() implies frame[i] != '\n' by {
        if i < 5 {
        } else if i < 5 + pad.len() {
            assert(frame[i] == pad[i - 5]);
        } else {
            assert(frame[i] == v[i - 5 - pad.len()]);
        }
    }
    lemma_split_without_line_feed(frame);
    let ls = lines_spec(frame);
    assert(ls =~= seq![frame]);
    assert(ls.drop_last() =~= Seq::<Seq<char>>::empty());
    assert(frame.subrange(0, 5) =~= data_field());
    assert(starts_with(frame, data_field()));
    assert(!starts_with(frame, event_field())) by {
        if starts_with(frame, event_field()) {
            assert(frame.subrange(0, 6)[0] == event_field()[0]);
        }
    }
    assert(frame.skip(5) =~= pad + v);
    lemma_trim_start_spaces(pad, v);
    assert(data_values(ls.drop_last()) == Some(Seq::<Seq<char>>::empty()));
    assert(ls.last() == frame);
    assert(data_field().len() == 5);
    assert(Seq::<Seq<char>>::empty().push(v) =~= seq![v]);
    assert(data_values(ls) == Some(seq![v]));
    assert(join_spec(seq![v], seq!['\n']) == v);
}

} // verus!
