//! Server-sent events: cutting a byte stream into frames, and reading the
//! data payload of a frame.

use vstd::prelude::*;
use vstd::utf8::{decode_utf8, valid_utf8};

use crate::openai_compat::{
    converter_step, initial_converter, ChatCompletionChunk, ConverterModel, OpenAiStreamConverter,
};
use crate::types::StreamEvent;

use crate::text::{
    chars_of, char_views, join_spec, lines_spec, split_lines, starts_with, string_of_chars, trim_end_index,
    trim_spec, trim_start_index, trim_start_spec,
};

verus! {

/// Whether `pat` occurs in `buf` at index `i`.
pub open spec fn occurs_at(buf: Seq<u8>, pat: Seq<u8>, i: int) -> bool {
    0 <= i && i + pat.len() <= buf.len() && buf.subrange(i, i + pat.len()) == pat
}

/// The first index at or after `i` where `pat` occurs in `buf`.
pub open spec fn find_from(buf: Seq<u8>, pat: Seq<u8>, i: int) -> Option<int>
    decreases buf.len() - i,
{
    if i < 0 || i + pat.len() > buf.len() {
        None
    } else if buf.subrange(i, i + pat.len()) == pat {
        Some(i)
    } else if pat.len() == 0 {
        None
    } else {
        find_from(buf, pat, i + 1)
    }
}

/// Two line feeds end a frame.
pub open spec fn lf_lf() -> Seq<u8> {
    seq![0x0Au8, 0x0Au8]
}

/// Two carriage-return line-feed pairs end a frame.
pub open spec fn crlf_crlf() -> Seq<u8> {
    seq![0x0Du8, 0x0Au8, 0x0Du8, 0x0Au8]
}

/// Where the first complete frame of `buf` ends, and the length of the
/// separator after it: the first blank line made of line feeds, or else
/// the first made of carriage-return line-feed pairs.
pub open spec fn frame_cut(buf: Seq<u8>) -> Option<(int, int)> {
    match find_from(buf, lf_lf(), 0) {
        Some(p) => Some((p, 2int)),
        None => match find_from(buf, crlf_crlf(), 0) {
            Some(p) => Some((p, 4int)),
            None => None,
        },
    }
}

/// What `find_from` finds occurs there, and nothing occurs before it.
pub proof fn lemma_find_from_facts(buf: Seq<u8>, pat: Seq<u8>, i: int)
    requires
        0 <= i,
    ensures
        find_from(buf, pat, i) matches Some(p) ==> i <= p && occurs_at(buf, pat, p) && forall|
            j: int,
        | i <= j < p ==> !occurs_at(buf, pat, j),
        find_from(buf, pat, i) is None ==> forall|j: int| i <= j ==> !occurs_at(buf, pat, j),
    decreases buf.len() - i,
{
    if i + pat.len() > buf.len() {
    } else if buf.subrange(i, i + pat.len()) == pat {
    } else if pat.len() == 0 {
        assert(buf.subrange(i, i) =~= pat);
    } else {
        lemma_find_from_facts(buf, pat, i + 1);
    }
}

/// The first index where `pat` occurs in `buf`.
fn find_pattern(buf: &Vec<u8>, pat: &Vec<u8>) -> (r: Option<usize>)
    requires
        pat@.len() > 0,
    ensures
        r matches Some(p) ==> find_from(buf@, pat@, 0) == Some(p as int),
        r is None ==> find_from(buf@, pat@, 0) is None,
{
    let n = buf.len();
    let m = pat.len();
    let mut i: usize = 0;
    while i < n && m <= n - i
        invariant
            n == buf@.len(),
            m == pat@.len(),
            m > 0,
            find_from(buf@, pat@, 0) == find_from(buf@, pat@, i as int),
        decreases n - i,
    {
        let mut k: usize = 0;
        let mut same = true;
        while k < m
            invariant
                i + m <= n,
                n == buf@.len(),
                m == pat@.len(),
                0 <= k <= m,
                same == forall|j: int| 0 <= j < k ==> buf@[i + j] == pat@[j],
            decreases m - k,
        {
            if buf[i + k] != pat[k] {
                same = false;
            }
            k = k + 1;
        }
        if same {
            assert(buf@.subrange(i as int, i + m) =~= pat@);
            return Some(i);
        }
        assert(buf@.subrange(i as int, i + m) != pat@) by {
            let j = choose|j: int| 0 <= j < m && buf@[i + j] != pat@[j];
            assert(buf@.subrange(i as int, i + m)[j] != pat@[j]);
        }
        i = i + 1;
    }
    None
}

/// `:` opens a comment line.
pub open spec fn comment_mark() -> char {
    ':'
}

/// The field name of an event line, with its colon.
pub open spec fn event_field() -> Seq<char> {
    seq!['e', 'v', 'e', 'n', 't', ':']
}

/// The field name of a data line, with its colon.
pub open spec fn data_field() -> Seq<char> {
    seq!['d', 'a', 't', 'a', ':']
}

/// The event name of a keep-alive frame.
pub open spec fn ping_name() -> Seq<char> {
    seq!['p', 'i', 'n', 'g']
}

/// The payload that marks the end of a stream.
pub open spec fn done_marker() -> Seq<char> {
    seq!['[', 'D', 'O', 'N', 'E', ']']
}

/// The data values of `lines`, in order, each with its leading white
/// space removed; `None` where an event line names `ping`. Comment lines
/// and lines of other fields are passed over.
pub open spec fn data_values(lines: Seq<Seq<char>>) -> Option<Seq<Seq<char>>>
    decreases lines.len(),
{
    if lines.len() == 0 {
        Some(Seq::<Seq<char>>::empty())
    } else {
        match data_values(lines.drop_last()) {
            None => None,
            Some(d) => {
                let l = lines.last();
                if l.len() > 0 && l[0] == comment_mark() {
                    Some(d)
                } else if starts_with(l, event_field()) {
                    if trim_spec(l.skip(event_field().len() as int)) == ping_name() {
                        None
                    } else {
                        Some(d)
                    }
                } else if starts_with(l, data_field()) {
                    Some(d.push(trim_start_spec(l.skip(data_field().len() as int))))
                } else {
                    Some(d)
                }
            },
        }
    }
}

/// The data payload of an SSE frame: its data values joined by line
/// feeds. There is none for an empty frame, a ping, a frame without data,
/// and the end-of-stream marker.
pub open spec fn payload_spec(frame: Seq<char>) -> Option<Seq<char>> {
    let t = trim_spec(frame);
    if t.len() == 0 {
        None
    } else {
        match data_values(lines_spec(t)) {
            None => None,
            Some(d) => {
                if d.len() == 0 {
                    None
                } else {
                    let p = join_spec(d, seq!['\n']);
                    if p == done_marker() {
                        None
                    } else {
                        Some(p)
                    }
                }
            },
        }
    }
}

proof fn lemma_data_values_none_absorbs(ls: Seq<Seq<char>>, i: int)
    requires
        0 <= i <= ls.len(),
        data_values(ls.take(i)) is None,
    ensures
        data_values(ls) is None,
    decreases ls.len() - i,
{
    if i == ls.len() {
        assert(ls.take(i) =~= ls);
    } else {
        assert(ls.take(i + 1).drop_last() =~= ls.take(i));
        lemma_data_values_none_absorbs(ls, i + 1);
    }
}

/// Whether `v[lo..hi]` begins with `p`.
fn range_starts_with(v: &Vec<char>, lo: usize, hi: usize, p: &Vec<char>) -> (b: bool)
    requires
        lo <= hi <= v@.len(),
    ensures
        b == starts_with(v@.subrange(lo as int, hi as int), p@),
{
    let n = p.len();
    if n > hi - lo {
        return false;
    }
    let mut k: usize = 0;
    while k < n
        invariant
            n == p@.len(),
            lo + n <= hi <= v@.len(),
            0 <= k <= n,
            forall|j: int| 0 <= j < k ==> v@[lo + j] == p@[j],
        decreases n - k,
    {
        if v[lo + k] != p[k] {
            assert(v@.subrange(lo as int, hi as int).subrange(0, n as int)[k as int] != p@[k as int]);
            return false;
        }
        k = k + 1;
    }
    assert(v@.subrange(lo as int, hi as int).subrange(0, n as int) =~= p@);
    true
}

/// Whether `v[lo..hi]` is exactly `p`.
fn range_equals(v: &Vec<char>, lo: usize, hi: usize, p: &Vec<char>) -> (b: bool)
    requires
        lo <= hi <= v@.len(),
    ensures
        b == (v@.subrange(lo as int, hi as int) == p@),
{
    if hi - lo != p.len() {
        return false;
    }
    let b = range_starts_with(v, lo, hi, p);
    assert(v@.subrange(lo as int, hi as int).subrange(0, p@.len() as int) =~= v@.subrange(
        lo as int,
        hi as int,
    ));
    b
}

/// Extracts the data payload from an SSE frame, returning `None` for
/// pings, the `[DONE]` marker, and frames that carry no data.
pub fn extract_data_payload(frame: &str) -> (payload: Option<String>)
    ensures
        payload.deep_view() == payload_spec(frame@),
{
    let chars = chars_of(frame);
    let n = chars.len();
    let a = trim_start_index(&chars, 0, n);
    let b = trim_end_index(&chars, a, n);
    assert(chars@.subrange(0, n as int) =~= frame@);
    let ghost t = chars@.subrange(a as int, b as int);
    assert(t == trim_spec(frame@));
    if a == b {
        return None;
    }
    let lines = split_lines(&chars, a, b);
    let ghost ls = lines_spec(t);
    let event = vec!['e', 'v', 'e', 'n', 't', ':'];
    let data = vec!['d', 'a', 't', 'a', ':'];
    let ping = vec!['p', 'i', 'n', 'g'];
    let done = vec!['[', 'D', 'O', 'N', 'E', ']'];
    assert(event@ =~= event_field());
    assert(data@ =~= data_field());
    assert(ping@ =~= ping_name());
    assert(done@ =~= done_marker());
    let mut out: Vec<char> = Vec::new();
    let mut count: usize = 0;
    let ghost mut d: Seq<Seq<char>> = Seq::empty();
    let mut i: usize = 0;
    assert(ls.take(0) =~= Seq::<Seq<char>>::empty());
    while i < lines.len()
        invariant
            char_views(lines@) == ls,
            ls == lines_spec(trim_spec(frame@)),
            trim_spec(frame@).len() > 0,
            0 <= i <= lines@.len(),
            event@ == event_field(),
            data@ == data_field(),
            ping@ == ping_name(),
            data_values(ls.take(i as int)) == Some(d),
            count == d.len(),
            count <= i,
            out@ == join_spec(d, seq!['\n']),
        decreases lines@.len() - i,
    {
        let line = &lines[i];
        let len = line.len();
        let ghost l = ls[i as int];
        assert(line@ == l);
        assert(ls.take(i + 1).drop_last() =~= ls.take(i as int));
        assert(ls.take(i + 1).last() == l);
        assert(line@.subrange(0, len as int) =~= l);
        if len > 0 && line[0] == ':' {
        } else if range_starts_with(line, 0, len, &event) {
            let s = trim_start_index(line, 6, len);
            let e = trim_end_index(line, s, len);
            assert(line@.subrange(6, len as int) =~= l.skip(6));
            if range_equals(line, s, e, &ping) {
                proof {
                    assert(line@.subrange(s as int, e as int) == trim_spec(l.skip(6)));
                    assert(starts_with(l, event_field()));
                    assert(event_field().len() == 6);
                    assert(data_values(ls.take(i + 1)) is None);
                    lemma_data_values_none_absorbs(ls, i + 1);
                }
                return None;
            }
        } else if range_starts_with(line, 0, len, &data) {
            let s = trim_start_index(line, 5, len);
            assert(line@.subrange(5, len as int) =~= l.skip(5));
            let ghost part = line@.subrange(s as int, len as int);
            let ghost before = out@;
            if count > 0 {
                out.push('\n');
            }
            let mut k = s;
            while k < len
                invariant
                    s <= k <= len,
                    len == line@.len(),
                    out@ == (if count > 0 {
                        before + seq!['\n']
                    } else {
                        before
                    }) + line@.subrange(s as int, k as int),
                decreases len - k,
            {
                out.push(line[k]);
                assert(line@.subrange(s as int, k + 1) =~= line@.subrange(s as int, k as int).push(
                    line@[k as int],
                ));
                k = k + 1;
            }
            proof {
                let nd = d.push(part);
                if d.len() == 0 {
                    assert(join_spec(d, seq!['\n']) == Seq::<char>::empty());
                    assert(out@ =~= part);
                } else {
                    assert(nd.drop_last() =~= d);
                }
                d = nd;
            }
            count = count + 1;
        }
        i = i + 1;
    }
    assert(ls.take(lines@.len() as int) =~= ls);
    if count == 0 {
        return None;
    }
    let m = out.len();
    if range_equals(&out, 0, m, &done) {
        assert(out@.subrange(0, m as int) =~= out@);
        return None;
    }
    assert(out@.subrange(0, m as int) =~= out@);
    Some(string_of_chars(&out, 0, m))
}

/// The text that `String::from_utf8_lossy` makes of `bytes`.
pub uninterp spec fn utf8_lossy(bytes: Seq<u8>) -> Seq<char>;

/// Decodes `bytes` with `String::from_utf8_lossy`, which replaces each
/// invalid sequence with U+FFFD. Trusted: the result is `utf8_lossy` of
/// the bytes, and, as the documentation of the function says, it is the
/// decoded text itself where the bytes are valid UTF-8.
#[verifier::external_body]
fn decode_utf8_lossy(bytes: &[u8]) -> (s: String)
    ensures
        s@ == utf8_lossy(bytes@),
        valid_utf8(bytes@) ==> s@ == decode_utf8(bytes@),
{
    String::from_utf8_lossy(bytes).into_owned()
}

/// The text of a frame's bytes: the decoded text where they are valid
/// UTF-8, and what lossy decoding makes of them otherwise.
pub open spec fn frame_text(bytes: Seq<u8>) -> Seq<char> {
    if valid_utf8(bytes) {
        decode_utf8(bytes)
    } else {
        utf8_lossy(bytes)
    }
}

/// The next data payload in `buf` and what is left of `buf` after it:
/// complete frames are taken from the front, and those without a payload
/// are passed over; `None` where no complete frame with a payload is left.
pub open spec fn next_payload_spec(buf: Seq<u8>) -> (Option<Seq<char>>, Seq<u8>)
    decreases buf.len(),
{
    match frame_cut(buf) {
        None => (None, buf),
        Some((p, n)) => {
            proof {
                lemma_frame_cut_facts(buf);
            }
            let rest = buf.skip(p + n);
            match payload_spec(frame_text(buf.take(p))) {
                Some(x) => (Some(x), rest),
                None => next_payload_spec(rest),
            }
        },
    }
}

/// A frame cut lies within the buffer, and the separator is one of the two
/// blank lines.
pub proof fn lemma_frame_cut_facts(buf: Seq<u8>)
    ensures
        frame_cut(buf) matches Some((p, n)) ==> 0 <= p && 2 <= n && p + n <= buf.len()
            && buf.subrange(p, p + n) == (if n == 2 {
            lf_lf()
        } else {
            crlf_crlf()
        }),
{
    lemma_find_from_facts(buf, lf_lf(), 0);
    lemma_find_from_facts(buf, crlf_crlf(), 0);
}

/// The model of an SSE parser: the bytes not yet taken as frames, and the
/// chunk converter, once there is one.
pub struct SseParserModel {
    pub buffer: Seq<u8>,
    pub converter: Option<ConverterModel>,
}

/// The state of a converter that may not have been made yet.
pub open spec fn converter_or_initial(c: Option<ConverterModel>) -> ConverterModel {
    match c {
        Some(c) => c,
        None => initial_converter(),
    }
}

/// A parser that cuts a byte stream of server-sent events into frames and
/// converts their payloads, once read as OpenAI chunks, into stream events.
#[derive(Debug)]
pub struct SseParser {
    buffer: Vec<u8>,
    converter: Option<OpenAiStreamConverter>,
}

impl View for SseParser {
    type V = SseParserModel;

    closed spec fn view(&self) -> SseParserModel {
        SseParserModel {
            buffer: self.buffer@,
            converter: match self.converter {
                Some(c) => Some(c@),
                None => None,
            },
        }
    }
}

impl Default for SseParser {
    fn default() -> (p: Self)
        ensures
            p@.buffer == Seq::<u8>::empty(),
            p@.converter is None,
    {
        SseParser::new()
    }
}

impl SseParser {
    /// A parser with nothing buffered.
    pub fn new() -> (p: Self)
        ensures
            p@.buffer == Seq::<u8>::empty(),
            p@.converter is None,
    {
        SseParser { buffer: Vec::new(), converter: None }
    }

    /// Appends raw bytes to the buffer.
    pub fn push_bytes(&mut self, chunk: &[u8])
        ensures
            final(self)@.buffer == old(self)@.buffer + chunk@,
            final(self)@.converter == old(self)@.converter,
    {
        self.buffer.extend_from_slice(chunk);
        assert(self@.buffer =~= old(self)@.buffer + chunk@);
    }

    /// Takes the first complete frame off the buffer, without its separator.
    pub fn next_frame(&mut self) -> (frame: Option<String>)
        ensures
            final(self)@.converter == old(self)@.converter,
            match frame_cut(old(self)@.buffer) {
                None => frame is None && final(self)@.buffer == old(self)@.buffer,
                Some((p, n)) => frame.deep_view() == Some(utf8_lossy(old(self)@.buffer.take(p)))
                    && frame.deep_view() == Some(frame_text(old(self)@.buffer.take(p)))
                    && (valid_utf8(old(self)@.buffer.take(p)) ==> frame.deep_view() == Some(
                    decode_utf8(old(self)@.buffer.take(p)),
                )) && final(self)@.buffer == old(self)@.buffer.skip(p + n),
            },
    {
        proof {
            lemma_frame_cut_facts(self.buffer@);
        }
        let lf_lf_bytes: Vec<u8> = vec![0x0Au8, 0x0Au8];
        let crlf_crlf_bytes: Vec<u8> = vec![0x0Du8, 0x0Au8, 0x0Du8, 0x0Au8];
        assert(lf_lf_bytes@ =~= lf_lf());
        assert(crlf_crlf_bytes@ =~= crlf_crlf());
        let cut = match find_pattern(&self.buffer, &lf_lf_bytes) {
            Some(p) => Some((p, 2usize)),
            None => match find_pattern(&self.buffer, &crlf_crlf_bytes) {
                Some(p) => Some((p, 4usize)),
                None => None,
            },
        };
        assert(match cut {
            Some((p, n)) => frame_cut(self.buffer@) == Some((p as int, n as int)),
            None => frame_cut(self.buffer@) is None,
        });
        match cut {
            None => None,
            Some((position, separator_len)) => {
                let ghost old_buf = self.buffer@;
                assert(frame_cut(old_buf) == Some((position as int, separator_len as int)));
                let ghost pn = frame_cut(old_buf).unwrap();
                let blen = self.buffer.len();
                assert(pn.0 + pn.1 <= blen);
                let mut frame = self.buffer.split_off(position + separator_len);
                std::mem::swap(&mut frame, &mut self.buffer);
                let frame_len = frame.len() - separator_len;
                frame.truncate(frame_len);
                assert(frame@ =~= old_buf.take(position as int));
                Some(decode_utf8_lossy(frame.as_slice()))
            },
        }
    }

    /// Takes frames off the buffer up to and including the next one with a
    /// data payload, and returns that payload.
    pub fn next_payload(&mut self) -> (payload: Option<String>)
        ensures
            final(self)@.converter == old(self)@.converter,
            payload.deep_view() == next_payload_spec(old(self)@.buffer).0,
            final(self)@.buffer == next_payload_spec(old(self)@.buffer).1,
    {
        loop
            invariant
                self@.converter == old(self)@.converter,
                next_payload_spec(self@.buffer) == next_payload_spec(old(self)@.buffer),
            decreases self@.buffer.len(),
        {
            proof {
                lemma_frame_cut_facts(self@.buffer);
            }
            match self.next_frame() {
                None => {
                    return None;
                },
                Some(frame) => {
                    let payload = extract_data_payload(frame.as_str());
                    if payload.is_some() {
                        return payload;
                    }
                },
            }
        }
    }

    /// Takes whatever is left in the buffer as a last frame, and returns
    /// its data payload.
    pub fn take_trailing_payload(&mut self) -> (payload: Option<String>)
        ensures
            final(self)@.converter == old(self)@.converter,
            final(self)@.buffer == Seq::<u8>::empty(),
            payload.deep_view() == (if old(self)@.buffer.len() == 0 {
                None
            } else {
                payload_spec(frame_text(old(self)@.buffer))
            }),
            old(self)@.buffer.len() > 0 ==> payload.deep_view() == payload_spec(
                utf8_lossy(old(self)@.buffer),
            ),
            old(self)@.buffer.len() > 0 && valid_utf8(old(self)@.buffer) ==> payload.deep_view()
                == payload_spec(decode_utf8(old(self)@.buffer)),
    {
        if self.buffer.len() == 0 {
            return None;
        }
        let mut trailing: Vec<u8> = Vec::new();
        std::mem::swap(&mut trailing, &mut self.buffer);
        let frame = decode_utf8_lossy(trailing.as_slice());
        extract_data_payload(frame.as_str())
    }

    /// Whether `accept_chunk` may be called with `chunk`.
    pub fn can_accept(&self, chunk: &ChatCompletionChunk) -> (r: bool)
        ensures
            r == (converter_step(converter_or_initial(self@.converter), *chunk).0.block_index
                <= i32::MAX),
            0 <= converter_or_initial(self@.converter).block_index <= i32::MAX,
    {
        match &self.converter {
            Some(c) => c.can_process(chunk),
            None => OpenAiStreamConverter::new().can_process(chunk),
        }
    }

    /// Converts a chunk with the parser's converter, made on first use.
    pub fn accept_chunk(&mut self, chunk: ChatCompletionChunk) -> (events: Vec<StreamEvent>)
        requires
            converter_step(converter_or_initial(old(self)@.converter), chunk).0.block_index
                <= i32::MAX,
        ensures
            final(self)@.buffer == old(self)@.buffer,
            final(self)@.converter == Some(
                converter_step(converter_or_initial(old(self)@.converter), chunk).0,
            ),
            events.deep_view() == converter_step(
                converter_or_initial(old(self)@.converter),
                chunk,
            ).1,
            0 <= converter_or_initial(old(self)@.converter).block_index <= converter_or_initial(
                final(self)@.converter,
            ).block_index <= i32::MAX,
    {
        let mut converter = match self.converter.take() {
            Some(c) => c,
            None => OpenAiStreamConverter::new(),
        };
        let events = converter.process_chunk(chunk);
        self.converter = Some(converter);
        events
    }
}

} // verus!
