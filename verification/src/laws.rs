//! Properties of the library that span inputs, calls and states.

use vstd::prelude::*;

use crate::json::empty_object_text;
use crate::openai_compat::{
    chat_request_spec, converter_step, finish_events, finish_reason_spec, initial_converter,
    lemma_tool_index_grows, start_message_model, system_message, text_events, tool_call_events,
    tool_call_step, tool_calls_part, usage_event, ChatCompletionChunk, ChatUsage, ConverterModel,
    ChunkToolCall,
};
use crate::sse::{
    crlf_crlf, data_field, data_values, done_marker, event_field, find_from, frame_cut, lf_lf,
    lemma_find_from_facts, lemma_frame_cut_facts, next_payload_spec, occurs_at, payload_spec,
    ping_name, frame_text,
};
use crate::text::{lines_spec, starts_with, trim_spec};
use crate::types::{BlockDeltaModel, MessageRequest, OutputBlockModel, StreamEventModel};

verus! {

// ── Framing ────────────────────────────────────────────────────────────────

/// A frame is cut at the first blank line: the bytes before it, the
/// separator, and the bytes after it make up the buffer again; the
/// separator is two line feeds, or else two carriage-return line-feed
/// pairs; and no blank line of that kind comes earlier.
pub proof fn law_frame_cut_at_first_blank_line(buf: Seq<u8>)
    ensures
        frame_cut(buf) matches Some((p, n)) ==> {
            &&& buf.take(p) + buf.subrange(p, p + n) + buf.skip(p + n) == buf
            &&& (buf.subrange(p, p + n) == lf_lf() || buf.subrange(p, p + n) == crlf_crlf())
            &&& n == 2 ==> forall|j: int| 0 <= j < p ==> !occurs_at(buf, lf_lf(), j)
            &&& n == 4 ==> forall|j: int| 0 <= j ==> !occurs_at(buf, lf_lf(), j)
            &&& n == 4 ==> forall|j: int| 0 <= j < p ==> !occurs_at(buf, crlf_crlf(), j)
        },
        frame_cut(buf) is None ==> forall|j: int|
            0 <= j ==> !occurs_at(buf, lf_lf(), j) && !occurs_at(buf, crlf_crlf(), j),
{
    lemma_find_from_facts(buf, lf_lf(), 0);
    lemma_find_from_facts(buf, crlf_crlf(), 0);
    if let Some((p, n)) = frame_cut(buf) {
        assert(buf.take(p) + buf.subrange(p, p + n) + buf.skip(p + n) =~= buf);
    }
}

/// No blank line of carriage-return line-feed pairs occurs in `s`.
pub open spec fn no_crlf_blank_line(s: Seq<u8>) -> bool {
    forall|j: int| 0 <= j ==> !occurs_at(s, crlf_crlf(), j)
}

/// The payloads that taking payloads off `buf` until there is none gives,
/// in order, and what is left of `buf`.
pub open spec fn drain_payloads(buf: Seq<u8>) -> (Seq<Seq<char>>, Seq<u8>)
    decreases buf.len(),
{
    let (x, rest) = next_payload_spec(buf);
    match x {
        None => (Seq::empty(), rest),
        Some(x) => {
            proof {
                lemma_next_payload_rest(buf);
            }
            let (xs, r) = drain_payloads(rest);
            (seq![x] + xs, r)
        },
    }
}

/// What `next_payload_spec` leaves of `buf` is a suffix of it, a shorter one
/// where there is a payload.
pub proof fn lemma_next_payload_rest(buf: Seq<u8>)
    ensures
        exists|k: int|
            0 <= k <= buf.len() && #[trigger] buf.skip(k) == next_payload_spec(buf).1 && (
            next_payload_spec(buf).0 is Some ==> k > 0),
    decreases buf.len(),
{
    lemma_frame_cut_facts(buf);
    match frame_cut(buf) {
        None => {
            assert(buf.skip(0) =~= buf);
        },
        Some((p, n)) => {
            let rest = buf.skip(p + n);
            match payload_spec(frame_text(buf.take(p))) {
                Some(_) => {},
                None => {
                    lemma_next_payload_rest(rest);
                    let k = choose|k: int|
                        0 <= k <= rest.len() && #[trigger] rest.skip(k) == next_payload_spec(
                            rest,
                        ).1 && (next_payload_spec(rest).0 is Some ==> k > 0);
                    assert(buf.skip(p + n + k) =~= rest.skip(k));
                },
            }
        },
    }
}

proof fn lemma_find_prefix_stable(a: Seq<u8>, b: Seq<u8>, pat: Seq<u8>, i: int)
    requires
        0 <= i,
        pat.len() > 0,
        find_from(a, pat, i) is Some,
    ensures
        find_from(a + b, pat, i) == find_from(a, pat, i),
    decreases a.len() - i,
{
    assert((a + b).subrange(i, i + pat.len()) =~= a.subrange(i, i + pat.len()));
    if a.subrange(i, i + pat.len()) != pat {
        lemma_find_prefix_stable(a, b, pat, i + 1);
    }
}

proof fn lemma_no_crlf_parts(a: Seq<u8>, b: Seq<u8>, k: int)
    requires
        no_crlf_blank_line(a + b),
        0 <= k <= a.len(),
    ensures
        no_crlf_blank_line(a.skip(k) + b),
        forall|j: int| 0 <= j ==> !occurs_at(a, crlf_crlf(), j),
{
    assert forall|j: int| 0 <= j implies !occurs_at(a.skip(k) + b, crlf_crlf(), j) by {
        if occurs_at(a.skip(k) + b, crlf_crlf(), j) {
            assert((a + b).subrange(j + k, j + k + 4) =~= (a.skip(k) + b).subrange(j, j + 4));
            assert(occurs_at(a + b, crlf_crlf(), j + k));
        }
    }
    assert forall|j: int| 0 <= j implies !occurs_at(a, crlf_crlf(), j) by {
        if occurs_at(a, crlf_crlf(), j) {
            assert((a + b).subrange(j, j + 4) =~= a.subrange(j, j + 4));
            assert(occurs_at(a + b, crlf_crlf(), j));
        }
    }
}

/// Taking the next payload off `a + b` agrees with taking it off `a`: the
/// same payload with `b` still behind it, or, where `a` holds none, the
/// same as from what is left of `a` followed by `b`.
proof fn lemma_next_payload_concat(a: Seq<u8>, b: Seq<u8>)
    requires
        no_crlf_blank_line(a + b),
    ensures
        ({
            let (x, r) = next_payload_spec(a);
            match x {
                Some(x) => next_payload_spec(a + b) == (Some(x), r + b),
                None => next_payload_spec(a + b) == next_payload_spec(r + b),
            }
        }),
    decreases a.len(),
{
    lemma_frame_cut_facts(a);
    lemma_find_from_facts(a, lf_lf(), 0);
    lemma_find_from_facts(a, crlf_crlf(), 0);
    lemma_no_crlf_parts(a, b, 0);
    match frame_cut(a) {
        None => {},
        Some((p, n)) => {
            assert(find_from(a, lf_lf(), 0) == Some(p));
            lemma_find_prefix_stable(a, b, lf_lf(), 0);
            assert(frame_cut(a + b) == Some((p, 2int)));
            assert((a + b).take(p) =~= a.take(p));
            assert((a + b).skip(p + 2) =~= a.skip(p + 2) + b);
            let rest = a.skip(p + 2);
            lemma_no_crlf_parts(a, b, p + 2);
            match payload_spec(frame_text(a.take(p))) {
                Some(_) => {},
                None => {
                    lemma_next_payload_concat(rest, b);
                },
            }
        },
    }
}

/// Bytes that arrive in two pieces give the same payloads as the same bytes
/// at once, where the stream separates its frames by line feeds only: the
/// payloads of `a + b` are those of `a`, then those of what is left of `a`
/// followed by `b`, and the same bytes are left over.
pub proof fn law_payloads_do_not_depend_on_chunking(a: Seq<u8>, b: Seq<u8>)
    requires
        no_crlf_blank_line(a + b),
    ensures
        ({
            let (xa, ra) = drain_payloads(a);
            let (xb, rb) = drain_payloads(ra + b);
            drain_payloads(a + b) == (xa + xb, rb)
        }),
    decreases a.len(),
{
    lemma_next_payload_concat(a, b);
    lemma_next_payload_rest(a);
    let (x, r) = next_payload_spec(a);
    let k = choose|k: int|
        0 <= k <= a.len() && #[trigger] a.skip(k) == next_payload_spec(a).1 && (next_payload_spec(
            a,
        ).0 is Some ==> k > 0);
    lemma_no_crlf_parts(a, b, k);
    match x {
        Some(x) => {
            assert(r + b =~= (a + b).skip(k)) by {
                assert(a.skip(k) + b =~= (a + b).skip(k));
            }
            law_payloads_do_not_depend_on_chunking(r, b);
            let (xs, rr) = drain_payloads(r);
            let (xb, rb) = drain_payloads(rr + b);
            assert(seq![x] + (xs + xb) =~= seq![x] + xs + xb);
        },
        None => {
            assert(Seq::<Seq<char>>::empty() + drain_payloads(r + b).0 =~= drain_payloads(
                r + b,
            ).0);
        },
    }
}

proof fn lemma_run_concat(
    s: ConverterModel,
    xs: Seq<ChatCompletionChunk>,
    ys: Seq<ChatCompletionChunk>,
)
    ensures
        ({
            let (s1, e1) = converter_run(s, xs);
            let (s2, e2) = converter_run(s1, ys);
            converter_run(s, xs + ys) == (s2, e1 + e2)
        }),
    decreases ys.len(),
{
    if ys.len() == 0 {
        assert(xs + ys =~= xs);
        let e1 = converter_run(s, xs).1;
        assert(e1 + Seq::<StreamEventModel>::empty() =~= e1);
    } else {
        assert((xs + ys).drop_last() =~= xs + ys.drop_last());
        assert((xs + ys).last() == ys.last());
        lemma_run_concat(s, xs, ys.drop_last());
        let (s1, e1) = converter_run(s, xs);
        let (s2, e2) = converter_run(s1, ys.drop_last());
        let (s3, e3) = converter_step(s2, ys.last());
        assert(e1 + e2 + e3 =~= e1 + (e2 + e3));
    }
}

/// Pushing `bytes` onto a parser whose buffer holds `buf` and whose
/// converter is in state `conv`, where `read` reads each data payload as a
/// chunk: the bytes left buffered, the converter's new state, and the
/// events, as `push_bytes`, then `next_payload` and `accept_chunk` until
/// no payload is left, give them.
pub open spec fn push_spec(
    buf: Seq<u8>,
    conv: ConverterModel,
    bytes: Seq<u8>,
    read: spec_fn(Seq<char>) -> ChatCompletionChunk,
) -> (Seq<u8>, ConverterModel, Seq<StreamEventModel>) {
    let (xs, rest) = drain_payloads(buf + bytes);
    let (c2, evs) = converter_run(conv, xs.map_values(read));
    (rest, c2, evs)
}

/// How a byte stream is split across pushes does not change the events,
/// the converter's state or the bytes left buffered, where every payload
/// is read as a chunk and the stream separates its frames by line feeds
/// only: pushing `a + b` gives what pushing `a` and then `b` gives.
pub proof fn law_events_do_not_depend_on_chunking(
    buf: Seq<u8>,
    conv: ConverterModel,
    a: Seq<u8>,
    b: Seq<u8>,
    read: spec_fn(Seq<char>) -> ChatCompletionChunk,
)
    requires
        no_crlf_blank_line(buf + a + b),
    ensures
        ({
            let (r1, c1, e1) = push_spec(buf, conv, a, read);
            let (r2, c2, e2) = push_spec(r1, c1, b, read);
            push_spec(buf, conv, a + b, read) == (r2, c2, e1 + e2)
        }),
{
    assert(buf + (a + b) =~= buf + a + b);
    law_payloads_do_not_depend_on_chunking(buf + a, b);
    let (xa, ra) = drain_payloads(buf + a);
    let (xb, rb) = drain_payloads(ra + b);
    assert((xa + xb).map_values(read) =~= xa.map_values(read) + xb.map_values(read));
    lemma_run_concat(conv, xa.map_values(read), xb.map_values(read));
}

// ── Data payloads ──────────────────────────────────────────────────────────

/// The end-of-stream marker is never handed out as a payload.
pub proof fn law_payload_is_never_done_marker(frame: Seq<char>)
    ensures
        payload_spec(frame) != Some(done_marker()),
{
}

/// A frame of white space alone has no payload.
pub proof fn law_blank_frame_has_no_payload(frame: Seq<char>)
    requires
        trim_spec(frame).len() == 0,
    ensures
        payload_spec(frame) is None,
{
}

/// Whether line `l` is an event line that names `ping`.
pub open spec fn is_ping_line(l: Seq<char>) -> bool {
    starts_with(l, event_field()) && trim_spec(l.skip(event_field().len() as int)) == ping_name()
}

proof fn lemma_ping_line_gives_none(ls: Seq<Seq<char>>, i: int)
    requires
        0 <= i < ls.len(),
        is_ping_line(ls[i]),
    ensures
        data_values(ls) is None,
    decreases ls.len(),
{
    if i == ls.len() - 1 {
        let l = ls.last();
        assert(l[0] == event_field()[0]) by {
            assert(l.subrange(0, event_field().len() as int)[0] == event_field()[0]);
        }
    } else {
        assert(ls.drop_last()[i] == ls[i]);
        lemma_ping_line_gives_none(ls.drop_last(), i);
    }
}

/// A frame with an event line that names `ping`, wherever it stands among
/// the frame's lines, has no payload.
pub proof fn law_ping_frame_has_no_payload(frame: Seq<char>, i: int)
    requires
        0 <= i < lines_spec(trim_spec(frame)).len(),
        is_ping_line(lines_spec(trim_spec(frame))[i]),
    ensures
        payload_spec(frame) is None,
{
    lemma_ping_line_gives_none(lines_spec(trim_spec(frame)), i);
}

/// A payload is made only of data lines: a frame none of whose lines is a
/// data line has no payload.
pub proof fn law_payload_needs_data_line(frame: Seq<char>)
    requires
        forall|i: int|
            0 <= i < lines_spec(trim_spec(frame)).len() ==> !starts_with(
                #[trigger] lines_spec(trim_spec(frame))[i],
                data_field(),
            ),
    ensures
        payload_spec(frame) is None,
{
    let ls = lines_spec(trim_spec(frame));
    lemma_no_data_lines(ls);
}

proof fn lemma_no_data_lines(ls: Seq<Seq<char>>)
    requires
        forall|i: int| 0 <= i < ls.len() ==> !starts_with(#[trigger] ls[i], data_field()),
    ensures
        data_values(ls) matches Some(d) ==> d.len() == 0,
    decreases ls.len(),
{
    if ls.len() > 0 {
        assert forall|i: int| 0 <= i < ls.drop_last().len() implies !starts_with(
            #[trigger] ls.drop_last()[i],
            data_field(),
        ) by {
            assert(ls.drop_last()[i] == ls[i]);
        }
        lemma_no_data_lines(ls.drop_last());
        assert(!starts_with(ls[ls.len() - 1], data_field()));
    }
}

// ── Stream conversion ──────────────────────────────────────────────────────

/// The state and all events after the chunks, in order, from state `s`.
pub open spec fn converter_run(s: ConverterModel, chunks: Seq<ChatCompletionChunk>) -> (
    ConverterModel,
    Seq<StreamEventModel>,
)
    decreases chunks.len(),
{
    if chunks.len() == 0 {
        (s, Seq::empty())
    } else {
        let (s1, e1) = converter_run(s, chunks.drop_last());
        let (s2, e2) = converter_step(s1, chunks.last());
        (s2, e1 + e2)
    }
}

/// The number of message-start events in `evs`.
pub open spec fn count_message_starts(evs: Seq<StreamEventModel>) -> nat
    decreases evs.len(),
{
    if evs.len() == 0 {
        0
    } else {
        count_message_starts(evs.drop_last()) + if evs.last() is MessageStart {
            1nat
        } else {
            0nat
        }
    }
}

proof fn lemma_count_concat(a: Seq<StreamEventModel>, b: Seq<StreamEventModel>)
    ensures
        count_message_starts(a + b) == count_message_starts(a) + count_message_starts(b),
    decreases b.len(),
{
    if b.len() == 0 {
        assert(a + b =~= a);
    } else {
        assert((a + b).drop_last() =~= a + b.drop_last());
        lemma_count_concat(a, b.drop_last());
    }
}

proof fn lemma_tool_events_no_start(idx: int, h: bool, calls: Seq<ChunkToolCall>)
    ensures
        count_message_starts(tool_call_events(idx, h, calls).2) == 0,
    decreases calls.len(),
{
    if calls.len() > 0 {
        let (i0, h0, e0) = tool_call_events(idx, h, calls.drop_last());
        lemma_tool_events_no_start(idx, h, calls.drop_last());
        let e1 = tool_call_step(i0, h0, calls.last()).2;
        assert(count_message_starts(e1) == 0) by {
            reveal_with_fuel(count_message_starts, 4);
        }
        lemma_count_concat(e0, e1);
    }
}

proof fn lemma_step_starts(s: ConverterModel, c: ChatCompletionChunk)
    ensures
        converter_step(s, c).0.message_started == (s.message_started || c.choices@.len() > 0),
        count_message_starts(converter_step(s, c).1) == if !s.message_started
            && c.choices@.len() > 0 {
            1nat
        } else {
            0nat
        },
{
    if c.choices@.len() == 0 {
        assert(count_message_starts(converter_step(s, c).1) == 0) by {
            reveal_with_fuel(count_message_starts, 2);
        }
    } else {
        let choice = c.choices@[0];
        let id = converter_step(s, c).0.message_id;
        let model = converter_step(s, c).0.message_model;
        let started = if s.message_started {
            Seq::<StreamEventModel>::empty()
        } else {
            seq![
                StreamEventModel::MessageStart {
                    message: start_message_model(id, model),
                },
            ]
        };
        let (i1, h1, text) = text_events(
            s.block_index,
            s.has_text_block,
            choice.delta.content.deep_view(),
        );
        let (i2, h2, tools) = tool_calls_part(i1, h1, choice.delta.tool_calls);
        let finish = match choice.finish_reason {
            Some(r) => finish_events(i2, r@, c.usage),
            None => Seq::<StreamEventModel>::empty(),
        };
        assert(count_message_starts(started) == if s.message_started {
            0nat
        } else {
            1nat
        }) by {
            reveal_with_fuel(count_message_starts, 2);
        }
        assert(count_message_starts(text) == 0) by {
            reveal_with_fuel(count_message_starts, 3);
        }
        match choice.delta.tool_calls {
            Some(calls) => lemma_tool_events_no_start(i1, h1, calls@),
            None => {
                assert(count_message_starts(tools) == 0);
            },
        }
        assert(count_message_starts(finish) == 0) by {
            reveal_with_fuel(count_message_starts, 4);
        }
        lemma_count_concat(started, text);
        lemma_count_concat(started + text, tools);
        lemma_count_concat(started + text + tools, finish);
    }
}

proof fn lemma_run_starts(chunks: Seq<ChatCompletionChunk>)
    ensures
        count_message_starts(converter_run(initial_converter(), chunks).1) == if converter_run(
            initial_converter(),
            chunks,
        ).0.message_started {
            1nat
        } else {
            0nat
        },
    decreases chunks.len(),
{
    if chunks.len() > 0 {
        lemma_run_starts(chunks.drop_last());
        let (s1, e1) = converter_run(initial_converter(), chunks.drop_last());
        lemma_step_starts(s1, chunks.last());
        lemma_count_concat(e1, converter_step(s1, chunks.last()).1);
    }
}

/// A stream converter opens the message at most once: over any run of
/// chunks from the initial state, there is at most one message-start event,
/// and there is one as soon as a chunk with a choice has come.
pub proof fn law_message_starts_once(chunks: Seq<ChatCompletionChunk>)
    ensures
        count_message_starts(converter_run(initial_converter(), chunks).1) <= 1,
        (exists|i: int| 0 <= i < chunks.len() && (#[trigger] chunks[i]).choices@.len() > 0)
            ==> count_message_starts(converter_run(initial_converter(), chunks).1) == 1,
    decreases chunks.len(),
{
    lemma_run_starts(chunks);
    lemma_run_started_iff(chunks);
}

proof fn lemma_run_started_iff(chunks: Seq<ChatCompletionChunk>)
    ensures
        converter_run(initial_converter(), chunks).0.message_started <==> exists|i: int|
            0 <= i < chunks.len() && (#[trigger] chunks[i]).choices@.len() > 0,
    decreases chunks.len(),
{
    if chunks.len() > 0 {
        lemma_run_started_iff(chunks.drop_last());
        let (s1, e1) = converter_run(initial_converter(), chunks.drop_last());
        lemma_step_starts(s1, chunks.last());
        if exists|i: int| 0 <= i < chunks.len() && (#[trigger] chunks[i]).choices@.len() > 0 {
            let i = choose|i: int| 0 <= i < chunks.len() && (#[trigger] chunks[i]).choices@.len() > 0;
            if i < chunks.len() - 1 {
                assert(chunks.drop_last()[i] == chunks[i]);
            }
        }
        if exists|i: int|
            0 <= i < chunks.drop_last().len() && (#[trigger] chunks.drop_last()[i]).choices@.len()
                > 0 {
            let i = choose|i: int|
                0 <= i < chunks.drop_last().len() && (#[trigger] chunks.drop_last()[i]).choices@.len()
                    > 0;
            assert(chunks[i] == chunks.drop_last()[i]);
        }
    }
}

/// The block index never goes down: each chunk leaves it where it was or
/// raises it.
pub proof fn law_block_index_never_decreases(s: ConverterModel, c: ChatCompletionChunk)
    ensures
        converter_step(s, c).0.block_index >= s.block_index,
{
    if c.choices@.len() > 0 {
        let choice = c.choices@[0];
        let (i1, h1, text) = text_events(
            s.block_index,
            s.has_text_block,
            choice.delta.content.deep_view(),
        );
        match choice.delta.tool_calls {
            Some(calls) => lemma_tool_index_grows(i1, h1, calls@),
            None => {},
        }
    }
}

/// A chunk whose choice has a finish reason ends its events with the stop
/// of the current block, the report of the mapped stop reason and of the
/// chunk's usage (zero where it has none), and the message stop.
pub proof fn law_finish_reason_stops_message(s: ConverterModel, c: ChatCompletionChunk)
    requires
        c.choices@.len() > 0,
        c.choices@[0].finish_reason is Some,
        0 <= s.block_index,
        converter_step(s, c).0.block_index <= i32::MAX,
    ensures
        ({
            let evs = converter_step(s, c).1;
            let u = match c.usage {
                Some(u) => u,
                None => ChatUsage { prompt_tokens: 0, completion_tokens: 0 },
            };
            let r = c.choices@[0].finish_reason.unwrap();
            &&& evs.len() >= 3
            &&& evs[evs.len() - 3] == StreamEventModel::ContentBlockStop {
                index: converter_step(s, c).0.block_index as u32,
            }
            &&& evs[evs.len() - 2] == usage_event(u, Some(finish_reason_spec(r@)))
            &&& evs[evs.len() - 1] == StreamEventModel::MessageStop
        }),
{
    let choice = c.choices@[0];
    let (i1, h1, text) = text_events(
        s.block_index,
        s.has_text_block,
        choice.delta.content.deep_view(),
    );
    match choice.delta.tool_calls {
        Some(calls) => lemma_tool_index_grows(i1, h1, calls@),
        None => {},
    }
}

/// The content block events keep to their shapes: a text block opens with
/// empty text, a tool-use block opens with the empty object as its input,
/// and every block delta carries non-empty text or arguments.
pub open spec fn event_shape_ok(e: StreamEventModel) -> bool {
    match e {
        StreamEventModel::ContentBlockStart { content_block, .. } => match content_block {
            OutputBlockModel::Text { text } => text.len() == 0,
            OutputBlockModel::ToolUse { input, .. } => input == empty_object_text(),
        },
        StreamEventModel::ContentBlockDelta { delta, .. } => match delta {
            BlockDeltaModel::TextDelta { text } => text.len() > 0,
            BlockDeltaModel::InputJsonDelta { partial_json } => partial_json.len() > 0,
        },
        _ => true,
    }
}

/// Every event of `evs` is a content block event in its shape.
pub open spec fn all_block_events(evs: Seq<StreamEventModel>) -> bool {
    forall|i: int|
        0 <= i < evs.len() ==> {
            &&& event_shape_ok(#[trigger] evs[i])
            &&& (evs[i] is ContentBlockStart || evs[i] is ContentBlockDelta
                || evs[i] is ContentBlockStop)
        }
}

proof fn lemma_all_block_concat(a: Seq<StreamEventModel>, b: Seq<StreamEventModel>)
    requires
        all_block_events(a),
        all_block_events(b),
    ensures
        all_block_events(a + b),
{
    assert forall|i: int| 0 <= i < (a + b).len() implies {
        &&& event_shape_ok(#[trigger] (a + b)[i])
        &&& ((a + b)[i] is ContentBlockStart || (a + b)[i] is ContentBlockDelta
            || (a + b)[i] is ContentBlockStop)
    } by {
        if i < a.len() {
            assert((a + b)[i] == a[i]);
        } else {
            assert((a + b)[i] == b[i - a.len()]);
        }
    }
}

proof fn lemma_tools_block_events(idx: int, h: bool, calls: Seq<ChunkToolCall>)
    ensures
        all_block_events(tool_call_events(idx, h, calls).2),
    decreases calls.len(),
{
    if calls.len() > 0 {
        let (i0, h0, e0) = tool_call_events(idx, h, calls.drop_last());
        lemma_tools_block_events(idx, h, calls.drop_last());
        let e1 = tool_call_step(i0, h0, calls.last()).2;
        assert(all_block_events(e1));
        lemma_all_block_concat(e0, e1);
    }
}

/// Every content block event of a chunk's events is in its shape; and a
/// chunk with a choice but no finish reason gives no message-delta and no
/// message-stop event, only the message start (at most) and block events.
#[verifier::spinoff_prover]
#[verifier::rlimit(40)]
pub proof fn law_block_event_shapes(s: ConverterModel, c: ChatCompletionChunk)
    ensures
        forall|i: int|
            0 <= i < converter_step(s, c).1.len() ==> event_shape_ok(
                #[trigger] converter_step(s, c).1[i],
            ),
        c.choices@.len() > 0 && c.choices@[0].finish_reason is None ==> forall|i: int|
            0 <= i < converter_step(s, c).1.len() ==> !(#[trigger] converter_step(s, c).1[i] is MessageDelta)
                && !(converter_step(s, c).1[i] is MessageStop),
{
    let evs = converter_step(s, c).1;
    if c.choices@.len() == 0 {
        assert forall|i: int| 0 <= i < evs.len() implies event_shape_ok(#[trigger] evs[i]) by {}
    } else {
        let choice = c.choices@[0];
        let id = converter_step(s, c).0.message_id;
        let model = converter_step(s, c).0.message_model;
        let started = if s.message_started {
            Seq::<StreamEventModel>::empty()
        } else {
            seq![StreamEventModel::MessageStart { message: start_message_model(id, model) }]
        };
        let (i1, h1, text) = text_events(
            s.block_index,
            s.has_text_block,
            choice.delta.content.deep_view(),
        );
        let (i2, h2, tools) = tool_calls_part(i1, h1, choice.delta.tool_calls);
        let finish = match choice.finish_reason {
            Some(r) => finish_events(i2, r@, c.usage),
            None => Seq::<StreamEventModel>::empty(),
        };
        assert(all_block_events(text));
        match choice.delta.tool_calls {
            Some(calls) => lemma_tools_block_events(i1, h1, calls@),
            None => {},
        }
        lemma_all_block_concat(text, tools);
        let body = text + tools;
        assert(evs =~= started + body + finish);
        assert forall|i: int| 0 <= i < evs.len() implies event_shape_ok(#[trigger] evs[i]) by {
            if i < started.len() {
                assert(evs[i] == started[i]);
            } else if i < started.len() + body.len() {
                assert(evs[i] == body[i - started.len()]);
            } else {
                assert(evs[i] == finish[i - started.len() - body.len()]);
            }
        }
        if choice.finish_reason is None {
            assert forall|i: int| 0 <= i < evs.len() implies !(#[trigger] evs[i] is MessageDelta)
                && !(evs[i] is MessageStop) by {
                if i < started.len() {
                    assert(evs[i] == started[i]);
                } else {
                    assert(evs[i] == body[i - started.len()]);
                }
            }
        }
    }
}

/// An empty text delta opens a text block, where none is open, but adds
/// no delta.
pub proof fn law_empty_text_opens_block_only(s: ConverterModel, c: ChatCompletionChunk)
    requires
        s.message_started,
        !s.has_text_block,
        c.choices@.len() > 0,
        c.choices@[0].delta.content.deep_view() == Some(Seq::<char>::empty()),
        c.choices@[0].delta.tool_calls is None,
        c.choices@[0].finish_reason is None,
    ensures
        converter_step(s, c).1 == seq![
            StreamEventModel::ContentBlockStart {
                index: (s.block_index + 1) as u32,
                content_block: OutputBlockModel::Text { text: Seq::empty() },
            },
        ],
{
    assert(converter_step(s, c).1 =~= seq![
        StreamEventModel::ContentBlockStart {
            index: (s.block_index + 1) as u32,
            content_block: OutputBlockModel::Text { text: Seq::empty() },
        },
    ]);
}

/// The id of the last of the chunks whose id is not empty, or the empty id.
pub open spec fn last_nonempty_id(chunks: Seq<ChatCompletionChunk>) -> Seq<char>
    decreases chunks.len(),
{
    if chunks.len() == 0 {
        Seq::empty()
    } else if chunks.last().id@.len() > 0 {
        chunks.last().id@
    } else {
        last_nonempty_id(chunks.drop_last())
    }
}

/// The model of the last of the chunks whose model is not empty, or the
/// empty model.
pub open spec fn last_nonempty_model(chunks: Seq<ChatCompletionChunk>) -> Seq<char>
    decreases chunks.len(),
{
    if chunks.len() == 0 {
        Seq::empty()
    } else if chunks.last().model@.len() > 0 {
        chunks.last().model@
    } else {
        last_nonempty_model(chunks.drop_last())
    }
}

proof fn lemma_run_id_model(chunks: Seq<ChatCompletionChunk>)
    ensures
        converter_run(initial_converter(), chunks).0.message_id == last_nonempty_id(chunks),
        converter_run(initial_converter(), chunks).0.message_model == last_nonempty_model(chunks),
    decreases chunks.len(),
{
    if chunks.len() > 0 {
        lemma_run_id_model(chunks.drop_last());
    }
}

/// The message start comes first among the events of the first chunk with
/// a choice, and the started message carries the last id and model that
/// the chunks so far reported (empty where none did), kind `message`, role
/// `assistant`, no content, no stop reason and zero usage.
pub proof fn law_message_start_event(chunks: Seq<ChatCompletionChunk>)
    requires
        chunks.len() > 0,
        chunks.last().choices@.len() > 0,
        forall|i: int| 0 <= i < chunks.len() - 1 ==> (#[trigger] chunks[i]).choices@.len() == 0,
    ensures
        ({
            let s = converter_run(initial_converter(), chunks.drop_last()).0;
            let evs = converter_step(s, chunks.last()).1;
            &&& evs.len() > 0
            &&& evs[0] == StreamEventModel::MessageStart {
                message: start_message_model(
                    last_nonempty_id(chunks),
                    last_nonempty_model(chunks),
                ),
            }
        }),
{
    let prefix = chunks.drop_last();
    lemma_run_started_iff(prefix);
    assert forall|i: int| 0 <= i < prefix.len() implies (#[trigger] prefix[i]).choices@.len()
        == 0 by {
        assert(prefix[i] == chunks[i]);
    }
    lemma_run_id_model(chunks);
    let s = converter_run(initial_converter(), prefix).0;
    assert(!s.message_started);
}

/// Walks the block events of `evs` from block index `cur`: a block start
/// must open the next index, and a block delta or stop must carry the
/// current one. The block index reached, or `None` where an event breaks
/// the rule.
pub open spec fn index_walk(evs: Seq<StreamEventModel>, cur: int) -> Option<int>
    decreases evs.len(),
{
    if evs.len() == 0 {
        Some(cur)
    } else {
        match index_walk(evs.drop_last(), cur) {
            None => None,
            Some(k) => match evs.last() {
                StreamEventModel::ContentBlockStart { index, .. } => if index as int == k + 1 {
                    Some(k + 1)
                } else {
                    None
                },
                StreamEventModel::ContentBlockDelta { index, .. } => if index as int == k {
                    Some(k)
                } else {
                    None
                },
                StreamEventModel::ContentBlockStop { index } => if index as int == k {
                    Some(k)
                } else {
                    None
                },
                _ => Some(k),
            },
        }
    }
}

proof fn lemma_walk_concat(a: Seq<StreamEventModel>, b: Seq<StreamEventModel>, c: int)
    ensures
        index_walk(a + b, c) == match index_walk(a, c) {
            None => None,
            Some(k) => index_walk(b, k),
        },
    decreases b.len(),
{
    if b.len() == 0 {
        assert(a + b =~= a);
    } else {
        assert((a + b).drop_last() =~= a + b.drop_last());
        assert((a + b).last() == b.last());
        lemma_walk_concat(a, b.drop_last(), c);
    }
}

proof fn lemma_walk_tools(idx: int, h: bool, calls: Seq<ChunkToolCall>)
    requires
        0 <= idx,
        tool_call_events(idx, h, calls).0 <= i32::MAX,
    ensures
        index_walk(tool_call_events(idx, h, calls).2, idx) == Some(tool_call_events(idx, h, calls).0),
    decreases calls.len(),
{
    if calls.len() == 0 {
    } else {
        let (i0, h0, e0) = tool_call_events(idx, h, calls.drop_last());
        lemma_tool_index_grows(idx, h, calls.drop_last());
        let (i1, h1, e1) = tool_call_step(i0, h0, calls.last());
        lemma_walk_tools(idx, h, calls.drop_last());
        assert(index_walk(e1, i0) == Some(i1)) by {
            reveal_with_fuel(index_walk, 4);
        }
        lemma_walk_concat(e0, e1, idx);
    }
}

#[verifier::spinoff_prover]
#[verifier::rlimit(40)]
proof fn lemma_walk_step(s: ConverterModel, c: ChatCompletionChunk)
    requires
        0 <= s.block_index,
        converter_step(s, c).0.block_index <= i32::MAX,
    ensures
        index_walk(converter_step(s, c).1, s.block_index) == Some(
            converter_step(s, c).0.block_index,
        ),
{
    if c.choices@.len() == 0 {
        assert(index_walk(converter_step(s, c).1, s.block_index) == Some(s.block_index)) by {
            reveal_with_fuel(index_walk, 2);
        }
    } else {
        let choice = c.choices@[0];
        let id = converter_step(s, c).0.message_id;
        let model = converter_step(s, c).0.message_model;
        let started = if s.message_started {
            Seq::<StreamEventModel>::empty()
        } else {
            seq![
                StreamEventModel::MessageStart {
                    message: start_message_model(id, model),
                },
            ]
        };
        let (i1, h1, text) = text_events(
            s.block_index,
            s.has_text_block,
            choice.delta.content.deep_view(),
        );
        let (i2, h2, tools) = tool_calls_part(i1, h1, choice.delta.tool_calls);
        let finish = match choice.finish_reason {
            Some(r) => finish_events(i2, r@, c.usage),
            None => Seq::<StreamEventModel>::empty(),
        };
        match choice.delta.tool_calls {
            Some(calls) => {
                lemma_tool_index_grows(i1, h1, calls@);
                lemma_walk_tools(i1, h1, calls@);
            },
            None => {},
        }
        assert(index_walk(started, s.block_index) == Some(s.block_index)) by {
            reveal_with_fuel(index_walk, 2);
        }
        assert(index_walk(text, s.block_index) == Some(i1)) by {
            reveal_with_fuel(index_walk, 3);
        }
        assert(index_walk(finish, i2) == Some(i2)) by {
            reveal_with_fuel(index_walk, 4);
        }
        lemma_walk_concat(started, text, s.block_index);
        lemma_walk_concat(started + text, tools, s.block_index);
        lemma_walk_concat(started + text + tools, finish, s.block_index);
    }
}

/// Content blocks are numbered one after another: over any run of chunks
/// from the initial state (one that `process_chunk` accepts at each step),
/// each block start opens the index after the last one opened, from 1 on,
/// and each block delta and block stop carries the index of the last block
/// opened before it (0 before any), whatever index the tool call pieces name.
pub proof fn law_block_indices_are_consecutive(chunks: Seq<ChatCompletionChunk>)
    requires
        converter_run(initial_converter(), chunks).0.block_index <= i32::MAX,
    ensures
        index_walk(converter_run(initial_converter(), chunks).1, 0) == Some(
            converter_run(initial_converter(), chunks).0.block_index,
        ),
    decreases chunks.len(),
{
    if chunks.len() > 0 {
        let (s1, e1) = converter_run(initial_converter(), chunks.drop_last());
        law_block_index_never_decreases(s1, chunks.last());
        law_block_indices_are_consecutive(chunks.drop_last());
        lemma_run_index_natural(chunks.drop_last());
        lemma_walk_step(s1, chunks.last());
        lemma_walk_concat(e1, converter_step(s1, chunks.last()).1, 0);
    }
}

proof fn lemma_run_index_natural(chunks: Seq<ChatCompletionChunk>)
    ensures
        converter_run(initial_converter(), chunks).0.block_index >= 0,
    decreases chunks.len(),
{
    if chunks.len() > 0 {
        lemma_run_index_natural(chunks.drop_last());
        let (s1, e1) = converter_run(initial_converter(), chunks.drop_last());
        law_block_index_never_decreases(s1, chunks.last());
    }
}

// ── Request conversion ─────────────────────────────────────────────────────

/// A system prompt, when there is one, becomes the first message, and the
/// request keeps the model, the token limit and the stream flag.
pub proof fn law_request_keeps_prompt_and_settings(req: MessageRequest)
    ensures
        req.system matches Some(p) ==> chat_request_spec(req).messages.len() >= 1
            && chat_request_spec(req).messages[0] == system_message(p@),
        chat_request_spec(req).model == req.model@,
        chat_request_spec(req).max_tokens == Some(req.max_tokens),
        chat_request_spec(req).stream == req.stream,
        chat_request_spec(req).stream_options is Some <==> req.stream,
{
}

} // verus!
