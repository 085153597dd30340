//! Codex session logs (JSON Lines): framing the bytes into complete lines,
//! and folding the decoded lines into the session metadata and its token
//! usage events.
use vstd::prelude::*;
use vstd::utf8::{valid_utf8, decode_utf8};
use crate::domain::{TokenBreakdown, copy_opt_string};
use crate::text::{chars_of, push_char, push_str, push_decimal, owned, decimal};
use crate::clock::{local_time_text, utc_timestamp_supported, shown_at, rfc3339_seconds,
    parse_rfc3339_seconds};

verus! {

/// Bumped whenever parsing changes what a file yields, so that imported
/// files are read again from the start.
pub const PARSER_VERSION: i64 = 1;

// ---------------------------------------------------------------------
// Framing
// ---------------------------------------------------------------------

/// The Unicode `White_Space` property, which `char::is_whitespace` tests:
/// its 25 code points.
pub open spec fn unicode_whitespace(c: char) -> bool {
    let u = c as u32;
    ||| 0x09 <= u <= 0x0D
    ||| u == 0x20
    ||| u == 0x85
    ||| u == 0xA0
    ||| u == 0x1680
    ||| 0x2000 <= u <= 0x200A
    ||| u == 0x2028
    ||| u == 0x2029
    ||| u == 0x202F
    ||| u == 0x205F
    ||| u == 0x3000
}

/// Whether the character is white space, as `char::is_whitespace` says.
fn is_whitespace(c: char) -> (r: bool)
    ensures
        r == unicode_whitespace(c),
{
    let u = c as u32;
    (0x09 <= u && u <= 0x0D) || u == 0x20 || u == 0x85 || u == 0xA0 || u == 0x1680 || (0x2000 <= u
        && u <= 0x200A) || u == 0x2028 || u == 0x2029 || u == 0x202F || u == 0x205F || u == 0x3000
}

/// `std::str::from_utf8` on `bytes[start..end]`, copied into a `String`.
///
/// Trusted: the standard library documents that it fails exactly on bytes
/// that are not valid UTF-8, and otherwise reads the characters they encode.
#[verifier::external_body]
fn utf8_text(bytes: &Vec<u8>, start: usize, end: usize) -> (r: Option<String>)
    requires
        start <= end <= bytes@.len(),
    ensures
        match r {
            Some(s) => valid_utf8(bytes@.subrange(start as int, end as int))
                && s@ == decode_utf8(bytes@.subrange(start as int, end as int)),
            None => !valid_utf8(bytes@.subrange(start as int, end as int)),
        },
{
    std::str::from_utf8(&bytes[start..end]).ok().map(|text| text.to_owned())
}

/// The text without its trailing carriage returns.
pub open spec fn trim_cr(s: Seq<char>) -> Seq<char>
    decreases s.len(),
{
    if s.len() > 0 && s.last() == '\r' {
        trim_cr(s.drop_last())
    } else {
        s
    }
}

/// Every character is white space (so `trim()` leaves nothing).
pub open spec fn blank(s: Seq<char>) -> bool {
    forall|i: int| 0 <= i < s.len() ==> unicode_whitespace(#[trigger] s[i])
}

/// What one complete line of bytes reads as: its text without trailing
/// carriage returns, or `None` when it is not valid UTF-8.
pub open spec fn line_text(content: Seq<u8>) -> Option<Seq<char>> {
    if valid_utf8(content) {
        Some(trim_cr(decode_utf8(content)))
    } else {
        None
    }
}

/// The kept lines of `b[start..]` as (offset, text), scanning from `i`: a
/// line is the bytes up to a newline, and the bytes after the last newline
/// are no line yet. Blank lines are dropped; `base` is the offset of `b[0]`.
pub open spec fn framed(b: Seq<u8>, start: int, i: int, base: int) -> Seq<(int, Option<Seq<char>>)>
    decreases b.len() - i,
{
    if i < 0 || i >= b.len() {
        seq![]
    } else if b[i] == 10u8 {
        let text = line_text(b.subrange(start, i));
        let rest = framed(b, i + 1, i + 1, base);
        if text is Some && blank(text->0) {
            rest
        } else {
            seq![(base + start, text)] + rest
        }
    } else {
        framed(b, start, i + 1, base)
    }
}

/// The number of bytes that complete lines take, scanning from `i`.
pub open spec fn consumed(b: Seq<u8>, start: int, i: int) -> int
    decreases b.len() - i,
{
    if i < 0 || i >= b.len() {
        start
    } else if b[i] == 10u8 {
        consumed(b, i + 1, i + 1)
    } else {
        consumed(b, start, i + 1)
    }
}

/// A complete line: its offset in the file, and its text (`None` when the
/// bytes are not valid UTF-8).
#[derive(Debug, Clone, PartialEq)]
pub struct FramedLine {
    pub offset: u64,
    pub text: Option<String>,
}

/// The complete, non-blank lines of a chunk and the offset just after the
/// last complete line.
#[derive(Debug, Clone, PartialEq)]
pub struct Framing {
    pub lines: Vec<FramedLine>,
    pub next_offset: u64,
}

pub open spec fn opt_text(o: Option<String>) -> Option<Seq<char>> {
    match o {
        Some(s) => Some(s@),
        None => None,
    }
}

pub open spec fn framed_view(l: FramedLine) -> (int, Option<Seq<char>>) {
    (l.offset as int, opt_text(l.text))
}

pub open spec fn framed_views(v: Seq<FramedLine>) -> Seq<(int, Option<Seq<char>>)> {
    v.map_values(|l: FramedLine| framed_view(l))
}

/// The text of a line's bytes, read as `line_text` says.
fn read_line(bytes: &Vec<u8>, start: usize, end: usize) -> (r: Option<String>)
    requires
        start <= end <= bytes@.len(),
    ensures
        opt_text(r) == line_text(bytes@.subrange(start as int, end as int)),
{
    match utf8_text(bytes, start, end) {
        None => None,
        Some(s) => {
            let chars = chars_of(s.as_str());
            let mut k: usize = chars.len();
            proof {
                assert(chars@.take(chars@.len() as int) =~= chars@);
            }
            while k > 0 && chars[k - 1] == '\r'
                invariant
                    k <= chars@.len(),
                    trim_cr(chars@) == trim_cr(chars@.take(k as int)),
                decreases k,
            {
                proof {
                    assert(chars@.take(k as int).drop_last() =~= chars@.take(k - 1));
                }
                k = k - 1;
            }
            proof {
                let t = chars@.take(k as int);
                assert(!(t.len() > 0 && t.last() == '\r'));
                assert(trim_cr(t) == t);
                assert(chars@.take(chars@.len() as int) =~= chars@);
            }
            let mut out = String::new();
            let mut j: usize = 0;
            while j < k
                invariant
                    j <= k <= chars@.len(),
                    out@ == chars@.take(j as int),
                decreases k - j,
            {
                push_char(&mut out, chars[j]);
                proof {
                    assert(chars@.take(j as int).push(chars@[j as int]) =~= chars@.take(j + 1));
                }
                j = j + 1;
            }
            Some(out)
        },
    }
}

/// Whether every character of the text is white space.
fn is_blank(s: &String) -> (r: bool)
    ensures
        r == blank(s@),
{
    let chars = chars_of(s.as_str());
    let mut i: usize = 0;
    while i < chars.len()
        invariant
            i <= chars@.len(),
            chars@ == s@,
            forall|j: int| 0 <= j < i ==> unicode_whitespace(#[trigger] chars@[j]),
        decreases chars@.len() - i,
    {
        if !is_whitespace(chars[i]) {
            return false;
        }
        i = i + 1;
    }
    true
}

/// Splits a chunk read from `start_offset` into its complete lines. Bytes
/// after the last newline are left for the next read; lines whose text is
/// blank are dropped; lines that are not UTF-8 are kept without text.
pub fn frame_lines(bytes: &Vec<u8>, start_offset: u64) -> (r: Framing)
    requires
        start_offset + bytes@.len() <= u64::MAX,
    ensures
        framed_views(r.lines@) == framed(bytes@, 0, 0, start_offset as int),
        r.next_offset == start_offset + consumed(bytes@, 0, 0),
{
    let n = bytes.len();
    let mut lines: Vec<FramedLine> = Vec::new();
    let mut start: usize = 0;
    let mut i: usize = 0;
    while i < n
        invariant
            n == bytes@.len(),
            start <= i <= n,
            start_offset + n <= u64::MAX,
            framed(bytes@, 0, 0, start_offset as int) == framed_views(lines@) + framed(
                bytes@,
                start as int,
                i as int,
                start_offset as int,
            ),
            consumed(bytes@, 0, 0) == consumed(bytes@, start as int, i as int),
        decreases n - i,
    {
        if bytes[i] == 10u8 {
            let text = read_line(bytes, start, i);
            let keep = match &text {
                Some(t) => !is_blank(t),
                None => true,
            };
            let ghost before = framed_views(lines@);
            if keep {
                lines.push(FramedLine { offset: start_offset + start as u64, text });
                proof {
                    assert(framed_views(lines@) =~= before + seq![
                        (start_offset + start, line_text(bytes@.subrange(start as int, i as int))),
                    ]);
                }
            }
            start = i + 1;
        }
        i = i + 1;
    }
    proof {
        assert(framed_views(lines@) + seq![] =~= framed_views(lines@));
    }
    Framing { lines, next_offset: start_offset + start as u64 }
}

// ---------------------------------------------------------------------
// Decoded lines
// ---------------------------------------------------------------------

/// The token counts of a `last_token_usage` object (absent fields read 0).
#[derive(Debug, Clone, Copy, PartialEq, Eq, Structural, Default)]
pub struct TokenUsage {
    pub input_tokens: i64,
    pub cached_input_tokens: i64,
    pub output_tokens: i64,
    pub reasoning_output_tokens: i64,
    pub total_tokens: i64,
}

/// What stands at `payload.info.last_token_usage`.
#[derive(Debug, Clone, Copy, PartialEq, Eq, Structural)]
pub enum UsageField {
    Absent,
    /// Present, but not an object of integer counts.
    Malformed,
    Present(TokenUsage),
}

/// The values a log line's payload is read for; each text is `None` where
/// the field is missing or not a string.
#[derive(Debug, Clone, PartialEq)]
pub struct LogPayload {
    pub timestamp: Option<String>,
    pub id: Option<String>,
    pub cwd: Option<String>,
    /// `source.subagent.thread_spawn.parent_thread_id`.
    pub parent_thread_id: Option<String>,
    pub model: Option<String>,
    /// `payload.type`.
    pub payload_type: Option<String>,
    pub last_usage: UsageField,
    /// `info.total_token_usage.total_tokens`, where it is an integer.
    pub cumulative_total: Option<i64>,
}

/// The values a JSON log line is read for.
#[derive(Debug, Clone, PartialEq)]
pub struct LogRecord {
    /// `type`.
    pub kind: Option<String>,
    pub timestamp: Option<String>,
    pub payload: LogPayload,
}

/// A complete line with what it decoded to: `None` when its bytes are not
/// UTF-8 or its text is not JSON.
#[derive(Debug, Clone, PartialEq)]
pub struct LogLine {
    pub offset: u64,
    pub record: Option<LogRecord>,
}

/// Where a read continues: the session the file belongs to and the model in
/// effect at the end of what was read before.
#[derive(Debug, Clone, PartialEq, Default)]
pub struct ParseContext {
    pub session_id: Option<String>,
    pub current_model: Option<String>,
}

#[derive(Debug, Clone, PartialEq)]
pub struct ParsedSessionMetadata {
    pub session_id: String,
    pub parent_session_id: Option<String>,
    pub title: String,
    pub started_at: i64,
    pub last_active_at: i64,
    pub cwd: Option<String>,
    pub model: Option<String>,
    pub source_path: String,
}

#[derive(Debug, Clone, PartialEq)]
pub struct ParsedUsageEvent {
    pub fingerprint: String,
    pub session_id: String,
    pub occurred_at: i64,
    pub model: Option<String>,
    pub tokens: TokenBreakdown,
    pub source_path: String,
    pub source_offset: u64,
}

#[derive(Debug, Clone, PartialEq)]
pub struct ParsedFile {
    pub metadata: Option<ParsedSessionMetadata>,
    pub events: Vec<ParsedUsageEvent>,
    pub next_offset: u64,
    pub skipped_lines: i64,
    pub current_session_id: Option<String>,
    pub current_model: Option<String>,
}

// ---------------------------------------------------------------------
// The fold, stated
// ---------------------------------------------------------------------

/// Session metadata as values (the title is stated apart, by `title_ok`).
#[verifier::ext_equal]
pub struct MetaModel {
    pub session_id: Seq<char>,
    pub parent_session_id: Option<Seq<char>>,
    pub started_at: int,
    pub last_active_at: int,
    pub cwd: Option<Seq<char>>,
    pub model: Option<Seq<char>>,
    pub source_path: Seq<char>,
}

#[verifier::ext_equal]
pub struct UsageModel {
    pub fingerprint: Seq<char>,
    pub session_id: Seq<char>,
    pub occurred_at: int,
    pub model: Option<Seq<char>>,
    pub tokens: TokenBreakdown,
    pub source_path: Seq<char>,
    pub source_offset: int,
}

/// What has been read so far.
#[verifier::ext_equal]
pub struct FoldState {
    pub meta: Option<MetaModel>,
    pub events: Seq<UsageModel>,
    pub skipped: int,
    pub model: Option<Seq<char>>,
}

pub open spec fn first_some(a: Option<Seq<char>>, b: Option<Seq<char>>) -> Option<Seq<char>> {
    if a is Some {
        a
    } else {
        b
    }
}

/// An RFC 3339 timestamp in Unix seconds; 0 when missing or unreadable.
pub open spec fn timestamp_of(t: Option<Seq<char>>) -> int {
    match t {
        Some(x) => match rfc3339_seconds(x) {
            Some(v) => v,
            None => 0,
        },
        None => 0,
    }
}

pub open spec fn max_int(a: int, b: int) -> int {
    if a >= b {
        a
    } else {
        b
    }
}

pub open spec fn clamp_tokens(u: TokenUsage) -> TokenBreakdown {
    TokenBreakdown {
        input_tokens: if u.input_tokens < 0 { 0 } else { u.input_tokens },
        cached_input_tokens: if u.cached_input_tokens < 0 { 0 } else { u.cached_input_tokens },
        output_tokens: if u.output_tokens < 0 { 0 } else { u.output_tokens },
        reasoning_output_tokens: if u.reasoning_output_tokens < 0 {
            0
        } else {
            u.reasoning_output_tokens
        },
    }
}

/// The counter that tells repeated usage reports apart: the cumulative
/// total when the line reports one, else the event's own total, when
/// positive; else the time of the event.
pub open spec fn stable_counter(cumulative: Option<i64>, own_total: i64, occurred_at: int) -> int {
    match cumulative {
        Some(c) => if c > 0 { c as int } else { occurred_at },
        None => if own_total > 0 { own_total as int } else { occurred_at },
    }
}

/// The text a usage event's fingerprint hashes: the fields joined by NUL.
pub open spec fn fingerprint_text(
    session_id: Seq<char>,
    model: Option<Seq<char>>,
    tokens: TokenBreakdown,
    counter: int,
) -> Seq<char> {
    let sep = seq!['\0'];
    session_id + sep + (match model {
        Some(m) => m,
        None => Seq::empty(),
    }) + sep + decimal(tokens.input_tokens as int) + sep + decimal(tokens.cached_input_tokens as int)
        + sep + decimal(tokens.output_tokens as int) + sep + decimal(
        tokens.reasoning_output_tokens as int,
    ) + sep + decimal(counter)
}

/// The lowercase hexadecimal BLAKE3 hash of the UTF-8 encoding of the text.
pub uninterp spec fn blake3_hex(text: Seq<char>) -> Seq<char>;

/// 64 lowercase hexadecimal digits.
pub open spec fn hex_fingerprint(t: Seq<char>) -> bool {
    t.len() == 64 && forall|i: int| 0 <= i < t.len() ==> lower_hex_digit(#[trigger] t[i])
}

/// Every event's fingerprint is 64 lowercase hexadecimal digits.
pub open spec fn hex_fingerprints(v: Seq<ParsedUsageEvent>) -> bool {
    forall|i: int| 0 <= i < v.len() ==> hex_fingerprint(#[trigger] v[i].fingerprint@)
}

/// A digit of lowercase hexadecimal.
pub open spec fn lower_hex_digit(c: char) -> bool {
    ('0' <= c && c <= '9') || ('a' <= c && c <= 'f')
}

/// `blake3::hash` of the text's UTF-8 bytes, written by `Hash::to_hex`.
///
/// Trusted: the result is named `blake3_hex` of the text; blake3's source
/// writes two lowercase hexadecimal digits (from "0123456789abcdef") for
/// each of the 32 bytes of the hash.
#[verifier::external_body]
fn blake3_hex_text(text: &str) -> (r: String)
    ensures
        r@ == blake3_hex(text@),
        r@.len() == 64,
        forall|i: int| 0 <= i < r@.len() ==> lower_hex_digit(#[trigger] r@[i]),
{
    blake3::hash(text.as_bytes()).to_hex().to_string()
}

pub open spec fn touch(meta: Option<MetaModel>, at: int) -> Option<MetaModel> {
    match meta {
        Some(m) => Some(MetaModel { last_active_at: max_int(m.last_active_at, at), ..m }),
        None => None,
    }
}

pub open spec fn skip(st: FoldState) -> FoldState {
    FoldState { skipped: st.skipped + 1, ..st }
}

/// One line read into the state. `ctx_session` is the session the file was
/// known to belong to before this read.
pub open spec fn step(
    st: FoldState,
    line: LogLine,
    path: Seq<char>,
    ctx_session: Option<Seq<char>>,
) -> FoldState {
    match line.record {
        None => skip(st),
        Some(rec) => {
            let p = rec.payload;
            let kind = opt_text(rec.kind);
            let occurred = timestamp_of(first_some(opt_text(rec.timestamp), opt_text(p.timestamp)));
            if kind == Some("session_meta"@) {
                match opt_text(p.id) {
                    None => skip(st),
                    Some(id) => {
                        let started = timestamp_of(
                            first_some(opt_text(p.timestamp), opt_text(rec.timestamp)),
                        );
                        FoldState {
                            meta: Some(
                                MetaModel {
                                    session_id: id,
                                    parent_session_id: opt_text(p.parent_thread_id),
                                    started_at: started,
                                    last_active_at: started,
                                    cwd: opt_text(p.cwd),
                                    model: st.model,
                                    source_path: path,
                                },
                            ),
                            ..st
                        }
                    },
                }
            } else if kind == Some("turn_context"@) {
                let model = opt_text(p.model);
                FoldState {
                    meta: match touch(st.meta, occurred) {
                        Some(m) => Some(MetaModel { model, ..m }),
                        None => None,
                    },
                    model,
                    ..st
                }
            } else if kind == Some("event_msg"@) && opt_text(p.payload_type) == Some(
                "token_count"@,
            ) {
                let session = match st.meta {
                    Some(m) => Some(m.session_id),
                    None => ctx_session,
                };
                match session {
                    None => skip(st),
                    Some(sid) => match p.last_usage {
                        UsageField::Absent => st,
                        UsageField::Malformed => skip(st),
                        UsageField::Present(u) => {
                            let tokens = clamp_tokens(u);
                            let counter = stable_counter(p.cumulative_total, u.total_tokens, occurred);
                            let event = UsageModel {
                                fingerprint: blake3_hex(fingerprint_text(sid, st.model, tokens, counter)),
                                session_id: sid,
                                occurred_at: occurred,
                                model: st.model,
                                tokens,
                                source_path: path,
                                source_offset: line.offset as int,
                            };
                            FoldState { meta: touch(st.meta, occurred), events: st.events.push(event), ..st }
                        },
                    },
                }
            } else {
                st
            }
        },
    }
}

/// The time a record carries: its own timestamp, else its payload's (0 when
/// neither reads as RFC 3339).
pub open spec fn record_time(rec: LogRecord) -> int {
    timestamp_of(first_some(opt_text(rec.timestamp), opt_text(rec.payload.timestamp)))
}

/// Reading a line never makes a known session less recent, and a dated
/// turn or token count in a known session makes it active at least until
/// that time (the later of that time and the last activity before):
/// the session, its start and its source stay, and a turn sets the model.
pub proof fn lemma_activity_follows_records(
    st: FoldState,
    line: LogLine,
    path: Seq<char>,
    ctx_session: Option<Seq<char>>,
)
    requires
        st.meta is Some,
    ensures
        ({
            let m = st.meta->0;
            let after = step(st, line, path, ctx_session);
            let is_meta = line.record matches Some(rec) && opt_text(rec.kind) == Some(
                "session_meta"@,
            );
            &&& !is_meta ==> {
                &&& after.meta is Some
                &&& after.meta->0.last_active_at >= m.last_active_at
                &&& after.meta->0.session_id == m.session_id
                &&& after.meta->0.started_at == m.started_at
                &&& after.meta->0.source_path == m.source_path
            }
            &&& (line.record matches Some(rec) && opt_text(rec.kind) == Some("turn_context"@)) ==> {
                &&& after.meta->0.last_active_at >= record_time(line.record->0)
                &&& (after.meta->0.last_active_at == record_time(line.record->0)
                    || after.meta->0.last_active_at == m.last_active_at)
                &&& after.meta->0.model == opt_text(line.record->0.payload.model)
            }
            &&& (line.record matches Some(rec) && opt_text(rec.kind) == Some("event_msg"@)
                && opt_text(rec.payload.payload_type) == Some("token_count"@)
                && rec.payload.last_usage is Present) ==> {
                &&& after.meta->0.last_active_at >= record_time(line.record->0)
                &&& (after.meta->0.last_active_at == record_time(line.record->0)
                    || after.meta->0.last_active_at == m.last_active_at)
            }
        }),
{
    reveal_strlit("session_meta");
    reveal_strlit("turn_context");
    reveal_strlit("event_msg");
    assert("turn_context"@[0] != "session_meta"@[0]);
    assert("event_msg"@[0] != "session_meta"@[0]);
    assert("event_msg"@[0] != "turn_context"@[0]);
}

/// The state after the first `n` lines.
pub open spec fn fold_upto(
    lines: Seq<LogLine>,
    n: int,
    path: Seq<char>,
    ctx_session: Option<Seq<char>>,
    ctx_model: Option<Seq<char>>,
) -> FoldState
    decreases n,
{
    if n <= 0 {
        FoldState { meta: None, events: Seq::empty(), skipped: 0, model: ctx_model }
    } else {
        step(fold_upto(lines, n - 1, path, ctx_session, ctx_model), lines[n - 1], path, ctx_session)
    }
}

pub open spec fn meta_model(m: ParsedSessionMetadata) -> MetaModel {
    MetaModel {
        session_id: m.session_id@,
        parent_session_id: opt_text(m.parent_session_id),
        started_at: m.started_at as int,
        last_active_at: m.last_active_at as int,
        cwd: opt_text(m.cwd),
        model: opt_text(m.model),
        source_path: m.source_path@,
    }
}

pub open spec fn usage_model(e: ParsedUsageEvent) -> UsageModel {
    UsageModel {
        fingerprint: e.fingerprint@,
        session_id: e.session_id@,
        occurred_at: e.occurred_at as int,
        model: opt_text(e.model),
        tokens: e.tokens,
        source_path: e.source_path@,
        source_offset: e.source_offset as int,
    }
}

pub open spec fn usage_models(v: Seq<ParsedUsageEvent>) -> Seq<UsageModel> {
    v.map_values(|e: ParsedUsageEvent| usage_model(e))
}

pub open spec fn opt_meta_model(m: Option<ParsedSessionMetadata>) -> Option<MetaModel> {
    match m {
        Some(x) => Some(meta_model(x)),
        None => None,
    }
}

/// The title shown for a session: the last component of its working
/// directory (or "Codex") and its start date (or "未知日期").
pub open spec fn title_spec(name: Option<Seq<char>>, date: Option<Seq<char>>) -> Seq<char> {
    let project = match name {
        Some(n) => if n.len() > 0 { n } else { "Codex"@ },
        None => "Codex"@,
    };
    let day = match date {
        Some(d) => d,
        None => "未知日期"@,
    };
    project + " · "@ + day
}

/// The last component of a working directory, where there is one.
pub open spec fn project_name(cwd: Option<Seq<char>>) -> Option<Seq<char>> {
    match cwd {
        Some(c) => last_component(c),
        None => None,
    }
}

/// What a generated title is: the working directory's last component (else
/// "Codex") and the start date as `%-m月%-d日` in the local time zone,
/// there exactly when the start time is one chrono can represent.
pub open spec fn title_ok(title: Seq<char>, cwd: Option<Seq<char>>, started_at: int) -> bool {
    exists|date: Option<Seq<char>>|
        (date is Some <==> utc_timestamp_supported(started_at)) && (date matches Some(d)
            ==> shown_at(d, started_at, "%-m月%-d日"@)) && title == #[trigger] title_spec(
            project_name(cwd),
            date,
        )
}

pub open spec fn meta_title_ok(m: Option<ParsedSessionMetadata>) -> bool {
    match m {
        Some(x) => title_ok(x.title@, opt_text(x.cwd), x.started_at as int),
        None => true,
    }
}

pub open spec fn file_model(r: ParsedFile) -> FoldState {
    FoldState {
        meta: opt_meta_model(r.metadata),
        events: usage_models(r.events@),
        skipped: r.skipped_lines as int,
        model: opt_text(r.current_model),
    }
}

// ---------------------------------------------------------------------
// The fold, computed
// ---------------------------------------------------------------------

/// What `Path::new(path).file_name()` gives: the path's last component, by
/// the platform's path rules; `None` when the path ends in `..` or has no
/// component.
pub uninterp spec fn last_component(path: Seq<char>) -> Option<Seq<char>>;

/// `Path::file_name` of the text, as text.
///
/// Trusted: the result is named `last_component` of the text. The standard
/// library returns a normal component, which is a non-empty piece of the
/// path holding no `/`.
#[verifier::external_body]
fn path_file_name(path: &str) -> (r: Option<String>)
    ensures
        opt_text(r) == last_component(path@),
        r matches Some(n) ==> {
            &&& n@.len() > 0
            &&& !n@.contains('/')
            &&& exists|i: int|
                0 <= i && i + n@.len() <= path@.len() && #[trigger] path@.subrange(i, i + n@.len()) == n@
        },
{
    match std::path::Path::new(path).file_name() {
        Some(name) => name.to_str().map(str::to_owned),
        None => None,
    }
}

/// The title for a session from the last component of its working
/// directory and its start date.
pub fn title_text(name: Option<String>, date: Option<String>) -> (r: String)
    ensures
        r@ == title_spec(opt_text(name), opt_text(date)),
{
    let mut s = match name {
        Some(n) => if n.as_str().is_empty() {
            owned("Codex")
        } else {
            n
        },
        None => owned("Codex"),
    };
    push_str(&mut s, " · ");
    match date {
        Some(d) => push_str(&mut s, d.as_str()),
        None => push_str(&mut s, "未知日期"),
    }
    s
}

/// The title of a session that started at `started_at` in `cwd`.
pub fn generated_title(cwd: &Option<String>, started_at: i64) -> (r: String)
    ensures
        title_ok(r@, opt_text(*cwd), started_at as int),
{
    let name = match cwd {
        Some(c) => path_file_name(c.as_str()),
        None => None,
    };
    let date = local_time_text(started_at, "%-m月%-d日");
    let ghost (gn, gd) = (opt_text(name), opt_text(date));
    assert(gn == project_name(opt_text(*cwd)));
    let r = title_text(name, date);
    assert(r@ == title_spec(gn, gd));
    r
}

/// The fingerprint of a usage event.
fn fingerprint(session_id: &String, model: &Option<String>, tokens: &TokenBreakdown, counter: i64) -> (r:
    String)
    ensures
        r@ == blake3_hex(fingerprint_text(session_id@, opt_text(*model), *tokens, counter as int)),
        hex_fingerprint(r@),
{
    let mut s = String::new();
    push_str(&mut s, session_id.as_str());
    push_char(&mut s, '\0');
    match model {
        Some(m) => push_str(&mut s, m.as_str()),
        None => {},
    }
    push_char(&mut s, '\0');
    push_decimal(&mut s, tokens.input_tokens as i128);
    push_char(&mut s, '\0');
    push_decimal(&mut s, tokens.cached_input_tokens as i128);
    push_char(&mut s, '\0');
    push_decimal(&mut s, tokens.output_tokens as i128);
    push_char(&mut s, '\0');
    push_decimal(&mut s, tokens.reasoning_output_tokens as i128);
    push_char(&mut s, '\0');
    push_decimal(&mut s, counter as i128);
    proof {
        let sep = seq!['\0'];
        let m = match opt_text(*model) {
            Some(m) => m,
            None => Seq::<char>::empty(),
        };
        assert(Seq::<char>::empty() + session_id@ =~= session_id@);
        assert(m =~= (match opt_text(*model) {
            Some(x) => x,
            None => Seq::<char>::empty(),
        }));
        assert(s@ =~= session_id@ + sep + m + sep + decimal(tokens.input_tokens as int) + sep
            + decimal(tokens.cached_input_tokens as int) + sep + decimal(tokens.output_tokens as int)
            + sep + decimal(tokens.reasoning_output_tokens as int) + sep + decimal(counter as int));
    }
    blake3_hex_text(s.as_str())
}

/// Whether the text is there and equals `lit`.
fn text_is(s: &Option<String>, lit: &str) -> (r: bool)
    ensures
        r == (opt_text(*s) == Some(lit@)),
{
    match s {
        Some(t) => *t == owned(lit),
        None => false,
    }
}

fn timestamp_value(t: &Option<String>) -> (r: i64)
    ensures
        r as int == timestamp_of(opt_text(*t)),
{
    match t {
        Some(x) => match parse_rfc3339_seconds(x.as_str()) {
            Some(v) => v,
            None => 0,
        },
        None => 0,
    }
}

fn max_i64(a: i64, b: i64) -> (r: i64)
    ensures
        r as int == max_int(a as int, b as int),
{
    if a >= b {
        a
    } else {
        b
    }
}

fn clamp_usage(u: TokenUsage) -> (r: TokenBreakdown)
    ensures
        r == clamp_tokens(u),
{
    TokenBreakdown {
        input_tokens: if u.input_tokens < 0 { 0 } else { u.input_tokens },
        cached_input_tokens: if u.cached_input_tokens < 0 { 0 } else { u.cached_input_tokens },
        output_tokens: if u.output_tokens < 0 { 0 } else { u.output_tokens },
        reasoning_output_tokens: if u.reasoning_output_tokens < 0 {
            0
        } else {
            u.reasoning_output_tokens
        },
    }
}

fn counter_value(cumulative: Option<i64>, own_total: i64, occurred_at: i64) -> (r: i64)
    ensures
        r as int == stable_counter(cumulative, own_total, occurred_at as int),
{
    match cumulative {
        Some(c) => if c > 0 {
            c
        } else {
            occurred_at
        },
        None => if own_total > 0 {
            own_total
        } else {
            occurred_at
        },
    }
}

fn copy_meta(m: &ParsedSessionMetadata) -> (r: ParsedSessionMetadata)
    ensures
        r == *m,
{
    ParsedSessionMetadata {
        session_id: crate::domain::copy_string(&m.session_id),
        parent_session_id: copy_opt_string(&m.parent_session_id),
        title: crate::domain::copy_string(&m.title),
        started_at: m.started_at,
        last_active_at: m.last_active_at,
        cwd: copy_opt_string(&m.cwd),
        model: copy_opt_string(&m.model),
        source_path: crate::domain::copy_string(&m.source_path),
    }
}

/// The metadata with its last activity moved to `at` when that is later.
fn touched(meta: &Option<ParsedSessionMetadata>, at: i64) -> (r: Option<ParsedSessionMetadata>)
    ensures
        opt_meta_model(r) == touch(opt_meta_model(*meta), at as int),
        meta_title_ok(*meta) ==> meta_title_ok(r),
{
    match meta {
        Some(m) => {
            let mut x = copy_meta(m);
            x.last_active_at = max_i64(m.last_active_at, at);
            let r = Some(x);
            assert(opt_meta_model(r) =~= touch(opt_meta_model(*meta), at as int));
            r
        },
        None => None,
    }
}

/// What has been read so far, as values.
struct Cursor {
    metadata: Option<ParsedSessionMetadata>,
    events: Vec<ParsedUsageEvent>,
    skipped: i64,
    model: Option<String>,
}

spec fn cursor_model(c: Cursor) -> FoldState {
    FoldState {
        meta: opt_meta_model(c.metadata),
        events: usage_models(c.events@),
        skipped: c.skipped as int,
        model: opt_text(c.model),
    }
}

fn read_session_meta(c: &mut Cursor, rec: &LogRecord, id: &String, path: &str)
    requires
        meta_title_ok(old(c).metadata),
    ensures
        final(c).events == old(c).events,
        final(c).skipped == old(c).skipped,
        final(c).model == old(c).model,
        meta_title_ok(final(c).metadata),
        opt_meta_model(final(c).metadata) == Some(
            MetaModel {
                session_id: id@,
                parent_session_id: opt_text(rec.payload.parent_thread_id),
                started_at: timestamp_of(
                    first_some(opt_text(rec.payload.timestamp), opt_text(rec.timestamp)),
                ),
                last_active_at: timestamp_of(
                    first_some(opt_text(rec.payload.timestamp), opt_text(rec.timestamp)),
                ),
                cwd: opt_text(rec.payload.cwd),
                model: opt_text(old(c).model),
                source_path: path@,
            },
        ),
{
    let started = if rec.payload.timestamp.is_some() {
        timestamp_value(&rec.payload.timestamp)
    } else {
        timestamp_value(&rec.timestamp)
    };
    let title = generated_title(&rec.payload.cwd, started);
    let m = ParsedSessionMetadata {
        session_id: crate::domain::copy_string(id),
        parent_session_id: copy_opt_string(&rec.payload.parent_thread_id),
        title,
        started_at: started,
        last_active_at: started,
        cwd: copy_opt_string(&rec.payload.cwd),
        model: copy_opt_string(&c.model),
        source_path: owned(path),
    };
    c.metadata = Some(m);
}

fn read_token_count(
    c: &mut Cursor,
    line: &LogLine,
    rec: &LogRecord,
    occurred: i64,
    path: &str,
    ctx_session: &Option<String>,
)
    requires
        old(c).skipped < i64::MAX,
        meta_title_ok(old(c).metadata),
        hex_fingerprints(old(c).events@),
        line.record == Some(*rec),
        occurred as int == timestamp_of(
            first_some(opt_text(rec.timestamp), opt_text(rec.payload.timestamp)),
        ),
        opt_text(rec.kind) == Some("event_msg"@),
        opt_text(rec.payload.payload_type) == Some("token_count"@),
    ensures
        cursor_model(*final(c)) == step(cursor_model(*old(c)), *line, path@, opt_text(*ctx_session)),
        meta_title_ok(final(c).metadata),
        final(c).skipped <= old(c).skipped + 1,
        hex_fingerprints(final(c).events@),
{
    let ghost st = cursor_model(*c);
    assert(opt_text(rec.kind) != Some("session_meta"@)) by {
        reveal_strlit("event_msg");
        reveal_strlit("session_meta");
        assert("event_msg"@[0] != "session_meta"@[0]);
    }
    assert(opt_text(rec.kind) != Some("turn_context"@)) by {
        reveal_strlit("event_msg");
        reveal_strlit("turn_context");
        assert("event_msg"@[0] != "turn_context"@[0]);
    }
    let session: Option<String> = match &c.metadata {
        Some(m) => Some(crate::domain::copy_string(&m.session_id)),
        None => copy_opt_string(ctx_session),
    };
    match session {
        None => {
            c.skipped = c.skipped + 1;
        },
        Some(sid) => match rec.payload.last_usage {
            UsageField::Absent => {},
            UsageField::Malformed => {
                c.skipped = c.skipped + 1;
            },
            UsageField::Present(u) => {
                let tokens = clamp_usage(u);
                let counter = counter_value(rec.payload.cumulative_total, u.total_tokens, occurred);
                let fp = fingerprint(&sid, &c.model, &tokens, counter);
                let event = ParsedUsageEvent {
                    fingerprint: fp,
                    session_id: sid,
                    occurred_at: occurred,
                    model: copy_opt_string(&c.model),
                    tokens,
                    source_path: owned(path),
                    source_offset: line.offset,
                };
                let ghost before = c.events@;
                c.events.push(event);
                proof {
                    assert(usage_models(c.events@) =~= usage_models(before).push(usage_model(event)));
                }
                let m = touched(&c.metadata, occurred);
                c.metadata = m;
            },
        },
    }
}

/// Reads one line into the cursor.
fn read_line_into(c: &mut Cursor, line: &LogLine, path: &str, ctx_session: &Option<String>)
    requires
        old(c).skipped < i64::MAX,
        meta_title_ok(old(c).metadata),
        hex_fingerprints(old(c).events@),
    ensures
        cursor_model(*final(c)) == step(cursor_model(*old(c)), *line, path@, opt_text(*ctx_session)),
        meta_title_ok(final(c).metadata),
        final(c).skipped <= old(c).skipped + 1,
        hex_fingerprints(final(c).events@),
{
    match &line.record {
        None => {
            c.skipped = c.skipped + 1;
        },
        Some(rec) => {
            let occurred = if rec.timestamp.is_some() {
                timestamp_value(&rec.timestamp)
            } else {
                timestamp_value(&rec.payload.timestamp)
            };
            if text_is(&rec.kind, "session_meta") {
                match &rec.payload.id {
                    None => {
                        c.skipped = c.skipped + 1;
                    },
                    Some(id) => {
                        read_session_meta(c, rec, id, path);
                    },
                }
            } else if text_is(&rec.kind, "turn_context") {
                let model = copy_opt_string(&rec.payload.model);
                let t = touched(&c.metadata, occurred);
                c.metadata = match t {
                    Some(m) => {
                        let mut x = m;
                        x.model = copy_opt_string(&model);
                        Some(x)
                    },
                    None => None,
                };
                c.model = model;
            } else if text_is(&rec.kind, "event_msg") && text_is(
                &rec.payload.payload_type,
                "token_count",
            ) {
                read_token_count(c, line, rec, occurred, path, ctx_session);
            }
        },
    }
}

/// Folds the decoded lines of a read into the session metadata, its usage
/// events and the count of lines that could not be read.
pub fn fold_log_lines(
    lines: &Vec<LogLine>,
    next_offset: u64,
    source_path: &str,
    context: &ParseContext,
) -> (r: ParsedFile)
    requires
        lines@.len() < i64::MAX,
    ensures
        file_model(r) == fold_upto(
            lines@,
            lines@.len() as int,
            source_path@,
            opt_text(context.session_id),
            opt_text(context.current_model),
        ),
        r.next_offset == next_offset,
        opt_text(r.current_session_id) == match opt_meta_model(r.metadata) {
            Some(m) => Some(m.session_id),
            None => opt_text(context.session_id),
        },
        meta_title_ok(r.metadata),
        hex_fingerprints(r.events@),
{
    let mut c = Cursor {
        metadata: None,
        events: Vec::new(),
        skipped: 0,
        model: copy_opt_string(&context.current_model),
    };
    let ghost ctx_s = opt_text(context.session_id);
    let ghost ctx_m = opt_text(context.current_model);
    proof {
        assert(cursor_model(c) =~= fold_upto(lines@, 0, source_path@, ctx_s, ctx_m));
    }
    let mut i: usize = 0;
    while i < lines.len()
        invariant
            i <= lines@.len() < i64::MAX,
            c.skipped <= i,
            cursor_model(c) == fold_upto(lines@, i as int, source_path@, ctx_s, ctx_m),
            meta_title_ok(c.metadata),
            hex_fingerprints(c.events@),
            ctx_s == opt_text(context.session_id),
        decreases lines@.len() - i,
    {
        read_line_into(&mut c, &lines[i], source_path, &context.session_id);
        i = i + 1;
    }
    let current_session_id = match &c.metadata {
        Some(m) => Some(crate::domain::copy_string(&m.session_id)),
        None => copy_opt_string(&context.session_id),
    };
    ParsedFile {
        metadata: c.metadata,
        events: c.events,
        next_offset,
        skipped_lines: c.skipped,
        current_session_id,
        current_model: c.model,
    }
}

// ---------------------------------------------------------------------
// Resuming a read
// ---------------------------------------------------------------------

/// The session the lines read so far belong to: that of the metadata read,
/// else the one known before the read.
pub open spec fn session_of(st: FoldState, ctx_session: Option<Seq<char>>) -> Option<Seq<char>> {
    match st.meta {
        Some(m) => Some(m.session_id),
        None => ctx_session,
    }
}

proof fn lemma_step_alike(
    x: FoldState,
    y: FoldState,
    line: LogLine,
    path: Seq<char>,
    cx: Option<Seq<char>>,
    cy: Option<Seq<char>>,
)
    requires
        x.model == y.model,
        session_of(x, cx) == session_of(y, cy),
    ensures
        ({
            let x2 = step(x, line, path, cx);
            let y2 = step(y, line, path, cy);
            &&& x2.model == y2.model
            &&& session_of(x2, cx) == session_of(y2, cy)
            &&& x2.skipped - x.skipped == y2.skipped - y.skipped
            &&& ((x2.events == x.events && y2.events == y.events) || (x2.events.len() > 0
                && x2.events == x.events.push(x2.events.last()) && y2.events == y.events.push(
                x2.events.last(),
            )))
        }),
{
    let x2 = step(x, line, path, cx);
    let y2 = step(y, line, path, cy);
    if x2.events != x.events {
        assert(x2.events.last() == y2.events.last());
    }
}

proof fn lemma_resume_from(
    lines: Seq<LogLine>,
    k: int,
    n: int,
    path: Seq<char>,
    ctx_s: Option<Seq<char>>,
    ctx_m: Option<Seq<char>>,
)
    requires
        0 <= k <= n <= lines.len(),
    ensures
        ({
            let a = fold_upto(lines, k, path, ctx_s, ctx_m);
            let rest = lines.skip(k);
            let b = fold_upto(rest, n - k, path, session_of(a, ctx_s), a.model);
            let w = fold_upto(lines, n, path, ctx_s, ctx_m);
            &&& w.events == a.events + b.events
            &&& w.skipped == a.skipped + b.skipped
            &&& w.model == b.model
            &&& session_of(w, ctx_s) == session_of(b, session_of(a, ctx_s))
        }),
    decreases n - k,
{
    let a = fold_upto(lines, k, path, ctx_s, ctx_m);
    let rest = lines.skip(k);
    let cb = session_of(a, ctx_s);
    if n == k {
        let b = fold_upto(rest, 0, path, cb, a.model);
        assert(a.events + b.events =~= a.events);
    } else {
        lemma_resume_from(lines, k, n - 1, path, ctx_s, ctx_m);
        let b = fold_upto(rest, n - 1 - k, path, cb, a.model);
        let w = fold_upto(lines, n - 1, path, ctx_s, ctx_m);
        assert(rest[n - 1 - k] == lines[n - 1]);
        lemma_step_alike(w, b, lines[n - 1], path, ctx_s, cb);
        let w2 = fold_upto(lines, n, path, ctx_s, ctx_m);
        let b2 = fold_upto(rest, n - k, path, cb, a.model);
        assert(w2 == step(w, lines[n - 1], path, ctx_s));
        assert(b2 == step(b, lines[n - 1], path, cb));
        if w2.events != w.events {
            assert(w2.events =~= a.events + b2.events);
        }
    }
}

/// Reading a file in two parts, the second resumed with the session and
/// model the first ended in, gives the same usage events, the same count
/// of unreadable lines, and ends in the same session and model as reading
/// it whole.
pub proof fn lemma_resumed_read_matches_whole_read(
    lines: Seq<LogLine>,
    k: int,
    path: Seq<char>,
    ctx_session: Option<Seq<char>>,
    ctx_model: Option<Seq<char>>,
)
    requires
        0 <= k <= lines.len(),
    ensures
        ({
            let first = fold_upto(lines, k, path, ctx_session, ctx_model);
            let rest = lines.skip(k);
            let second = fold_upto(rest, rest.len() as int, path, session_of(first, ctx_session), first.model);
            let whole = fold_upto(lines, lines.len() as int, path, ctx_session, ctx_model);
            &&& whole.events == first.events + second.events
            &&& whole.skipped == first.skipped + second.skipped
            &&& whole.model == second.model
            &&& session_of(whole, ctx_session) == session_of(second, session_of(first, ctx_session))
        }),
{
    lemma_resume_from(lines, k, lines.len() as int, path, ctx_session, ctx_model);
}


proof fn lemma_no_newline_from(b: Seq<u8>, start: int, i: int, base: int)
    requires
        0 <= start <= i,
        forall|k: int| i <= k < b.len() ==> b[k] != 10u8,
    ensures
        framed(b, start, i, base) == Seq::<(int, Option<Seq<char>>)>::empty(),
        consumed(b, start, i) == start,
    decreases b.len() - i,
{
    if i < b.len() {
        lemma_no_newline_from(b, start, i + 1, base);
    }
}

/// Bytes without a newline hold no complete line: reading them again yields
/// nothing and leaves the offset where it was, so a file whose last line is
/// still being written is not read twice.
pub proof fn lemma_partial_line_yields_nothing(b: Seq<u8>, base: int)
    requires
        forall|k: int| 0 <= k < b.len() ==> b[k] != 10u8,
    ensures
        framed(b, 0, 0, base).len() == 0,
        consumed(b, 0, 0) == 0,
{
    lemma_no_newline_from(b, 0, 0, base);
}


// ---------------------------------------------------------------------
// What a read does not depend on
// ---------------------------------------------------------------------

proof fn lemma_framed_shift(b: Seq<u8>, s: int, i: int, base: int)
    ensures
        framed(b, s, i, base).len() == framed(b, s, i, 0).len(),
        forall|k: int|
            0 <= k < framed(b, s, i, base).len() ==> #[trigger] framed(b, s, i, base)[k] == (
                framed(b, s, i, 0)[k].0 + base,
                framed(b, s, i, 0)[k].1,
            ),
    decreases b.len() - i,
{
    if 0 <= i < b.len() {
        if b[i] == 10u8 {
            lemma_framed_shift(b, i + 1, i + 1, base);
        } else {
            lemma_framed_shift(b, s, i + 1, base);
        }
    }
}

proof fn lemma_consumed_ge(b: Seq<u8>, s: int, i: int)
    requires
        s <= i,
    ensures
        consumed(b, s, i) >= s,
    decreases b.len() - i,
{
    if 0 <= i < b.len() {
        if b[i] == 10u8 {
            lemma_consumed_ge(b, i + 1, i + 1);
        } else {
            lemma_consumed_ge(b, s, i + 1);
        }
    }
}

proof fn lemma_consumed_le(b: Seq<u8>, s: int, i: int)
    requires
        s <= i,
        s <= b.len(),
    ensures
        consumed(b, s, i) <= b.len(),
    decreases b.len() - i,
{
    if 0 <= i < b.len() {
        if b[i] == 10u8 {
            lemma_consumed_le(b, i + 1, i + 1);
        } else {
            lemma_consumed_le(b, s, i + 1);
        }
    }
}

proof fn lemma_framed_prefix(b: Seq<u8>, s: int, i: int, base: int)
    requires
        0 <= s <= i,
        s <= b.len(),
    ensures
        framed(b.take(consumed(b, s, i)), s, i, base) == framed(b, s, i, base),
        consumed(b.take(consumed(b, s, i)), s, i) == consumed(b, s, i),
    decreases b.len() - i,
{
    let c = consumed(b, s, i);
    lemma_consumed_ge(b, s, i);
    lemma_consumed_le(b, s, i);
    let t = b.take(c);
    assert(t.len() == c);
    if i >= b.len() {
    } else if b[i] == 10u8 {
        lemma_consumed_ge(b, i + 1, i + 1);
        lemma_framed_prefix(b, i + 1, i + 1, base);
        assert(t[i] == b[i]);
        assert(t.subrange(s, i) =~= b.subrange(s, i));
        assert(framed(t, s, i, base) == framed(b, s, i, base));
    } else {
        lemma_framed_prefix(b, s, i + 1, base);
        if i < c {
            assert(t[i] == b[i]);
        } else {
            assert(consumed(t, s, i + 1) == s);
        }
    }
}

#[verifier::spinoff_prover]
#[verifier::rlimit(30)]
proof fn lemma_framed_offsets(b: Seq<u8>, s: int, i: int, base: int)
    requires
        0 <= s <= i,
    ensures
        ({
            let f = framed(b, s, i, base);
            &&& forall|k: int|
                0 <= k < f.len() ==> s <= (#[trigger] f[k]).0 - base < consumed(b, s, i) && (f[k].0
                    - base == s || (0 <= f[k].0 - base - 1 < b.len() && b[f[k].0 - base - 1] == 10u8))
            &&& forall|k1: int, k2: int| 0 <= k1 < k2 < f.len() ==> #[trigger] f[k1].0 < #[trigger] f[k2].0
        }),
    decreases b.len() - i,
{
    let f = framed(b, s, i, base);
    if 0 <= i < b.len() {
        if b[i] == 10u8 {
            lemma_framed_offsets(b, i + 1, i + 1, base);
            lemma_consumed_ge(b, i + 1, i + 1);
            let rest = framed(b, i + 1, i + 1, base);
            assert(consumed(b, s, i) == consumed(b, i + 1, i + 1));
            let text = line_text(b.subrange(s, i));
            if text is Some && blank(text->0) {
                assert(f == rest);
                assert forall|k: int| 0 <= k < f.len() implies s <= (#[trigger] f[k]).0 - base
                    < consumed(b, s, i) && (f[k].0 - base == s || (0 <= f[k].0 - base - 1 < b.len()
                    && b[f[k].0 - base - 1] == 10u8)) by {
                    assert(f[k] == rest[k]);
                }
            } else {
                let g = seq![(base + s, text)] + rest;
                assert(f == g);
                assert forall|k: int| 0 < k < g.len() implies #[trigger] g[k] == rest[k - 1] by {}
                assert forall|k: int| 0 <= k < f.len() implies s <= (#[trigger] f[k]).0 - base
                    < consumed(b, s, i) && (f[k].0 - base == s || (0 <= f[k].0 - base - 1 < b.len()
                    && b[f[k].0 - base - 1] == 10u8)) by {
                    if k > 0 {
                        assert(f[k] == rest[k - 1]);
                    }
                }
                assert forall|k1: int, k2: int| 0 <= k1 < k2 < f.len() implies #[trigger] f[k1].0
                    < #[trigger] f[k2].0 by {
                    assert(f[k2] == rest[k2 - 1]);
                    if k1 > 0 {
                        assert(f[k1] == rest[k1 - 1]);
                    }
                }
            }
        } else {
            lemma_framed_offsets(b, s, i + 1, base);
            assert(f == framed(b, s, i + 1, base));
            assert(consumed(b, s, i) == consumed(b, s, i + 1));
        }
    } else {
        assert(f.len() == 0);
    }
}

proof fn lemma_consumed_from(b: Seq<u8>, start: int, i: int)
    requires
        0 <= start <= i <= b.len(),
        start == 0 || b[start - 1] == 10u8,
        forall|k: int| start <= k < i ==> b[k] != 10u8,
    ensures
        start <= consumed(b, start, i) <= b.len(),
        consumed(b, start, i) == 0 || b[consumed(b, start, i) - 1] == 10u8,
        forall|k: int| consumed(b, start, i) <= k < b.len() ==> b[k] != 10u8,
    decreases b.len() - i,
{
    if i < b.len() {
        if b[i] == 10u8 {
            lemma_consumed_from(b, i + 1, i + 1);
        } else {
            lemma_consumed_from(b, start, i + 1);
        }
    }
}

/// The bytes that a read takes end just after the last newline of the
/// chunk: none are taken when it holds no newline, and no newline follows
/// them.
pub proof fn lemma_consumed_ends_after_last_newline(b: Seq<u8>)
    ensures
        0 <= consumed(b, 0, 0) <= b.len(),
        consumed(b, 0, 0) == 0 || b[consumed(b, 0, 0) - 1] == 10u8,
        forall|k: int| consumed(b, 0, 0) <= k < b.len() ==> b[k] != 10u8,
{
    lemma_consumed_from(b, 0, 0);
}

/// A read gives the same lines whether the bytes after the last newline
/// are there or not: framing reads exactly the bytes up to and including
/// the last newline. Each line starts where the read starts or just after a
/// newline, inside what was consumed, and lines come in order of offset.
pub proof fn lemma_framing_reads_complete_lines(b: Seq<u8>, base: int)
    ensures
        ({
            let c = consumed(b, 0, 0);
            let f = framed(b, 0, 0, base);
            &&& framed(b.take(c), 0, 0, base) == f
            &&& consumed(b.take(c), 0, 0) == c
            &&& forall|k: int|
                0 <= k < f.len() ==> base <= (#[trigger] f[k]).0 < base + c && (f[k].0 == base || (0
                    <= f[k].0 - base - 1 < b.len() && b[f[k].0 - base - 1] == 10u8))
            &&& forall|k1: int, k2: int| 0 <= k1 < k2 < f.len() ==> #[trigger] f[k1].0 < #[trigger] f[k2].0
        }),
{
    lemma_framed_prefix(b, 0, 0, base);
    lemma_framed_offsets(b, 0, 0, base);
}

/// The same bytes read from another offset give the same lines, with their
/// offsets moved by the difference.
pub proof fn lemma_framing_ignores_offset(b: Seq<u8>, base1: int, base2: int)
    ensures
        framed(b, 0, 0, base1).len() == framed(b, 0, 0, base2).len(),
        forall|k: int|
            0 <= k < framed(b, 0, 0, base1).len() ==> #[trigger] framed(b, 0, 0, base2)[k] == (
                framed(b, 0, 0, base1)[k].0 + (base2 - base1),
                framed(b, 0, 0, base1)[k].1,
            ),
{
    lemma_framed_shift(b, 0, 0, base1);
    lemma_framed_shift(b, 0, 0, base2);
    assert forall|k: int| 0 <= k < framed(b, 0, 0, base1).len() implies #[trigger] framed(
        b,
        0,
        0,
        base2,
    )[k] == (framed(b, 0, 0, base1)[k].0 + (base2 - base1), framed(b, 0, 0, base1)[k].1) by {
        assert(framed(b, 0, 0, base1)[k] == (framed(b, 0, 0, 0)[k].0 + base1, framed(b, 0, 0, 0)[k].1));
        assert(framed(b, 0, 0, base2)[k] == (framed(b, 0, 0, 0)[k].0 + base2, framed(b, 0, 0, 0)[k].1));
    }
}

/// What identifies a usage event, apart from where it was read.
pub open spec fn usage_core(e: UsageModel) -> (Seq<char>, Seq<char>, int, Option<Seq<char>>, TokenBreakdown) {
    (e.fingerprint, e.session_id, e.occurred_at, e.model, e.tokens)
}

pub open spec fn usage_cores(v: Seq<UsageModel>) -> Seq<(Seq<char>, Seq<char>, int, Option<Seq<char>>, TokenBreakdown)> {
    v.map_values(|e: UsageModel| usage_core(e))
}

/// The lines decode to the same records, wherever they were read.
pub open spec fn same_records(a: Seq<LogLine>, b: Seq<LogLine>) -> bool {
    a.len() == b.len() && forall|i: int| 0 <= i < a.len() ==> #[trigger] a[i].record == b[i].record
}

proof fn lemma_step_same_record(
    x: FoldState,
    y: FoldState,
    la: LogLine,
    lb: LogLine,
    pa: Seq<char>,
    pb: Seq<char>,
    ctx: Option<Seq<char>>,
)
    requires
        la.record == lb.record,
        x.model == y.model,
        x.skipped == y.skipped,
        session_of(x, ctx) == session_of(y, ctx),
        usage_cores(x.events) == usage_cores(y.events),
    ensures
        ({
            let x2 = step(x, la, pa, ctx);
            let y2 = step(y, lb, pb, ctx);
            &&& x2.model == y2.model
            &&& x2.skipped == y2.skipped
            &&& session_of(x2, ctx) == session_of(y2, ctx)
            &&& usage_cores(x2.events) == usage_cores(y2.events)
        }),
{
    let x2 = step(x, la, pa, ctx);
    let y2 = step(y, lb, pb, ctx);
    if x2.events != x.events {
        assert(usage_cores(x2.events) =~= usage_cores(x.events).push(usage_core(x2.events.last())));
        assert(usage_cores(y2.events) =~= usage_cores(y.events).push(usage_core(y2.events.last())));
    } else {
        assert(y2.events == y.events);
    }
}

proof fn lemma_fold_same_records(
    a: Seq<LogLine>,
    b: Seq<LogLine>,
    n: int,
    pa: Seq<char>,
    pb: Seq<char>,
    ctx_s: Option<Seq<char>>,
    ctx_m: Option<Seq<char>>,
)
    requires
        same_records(a, b),
        0 <= n <= a.len(),
    ensures
        ({
            let x = fold_upto(a, n, pa, ctx_s, ctx_m);
            let y = fold_upto(b, n, pb, ctx_s, ctx_m);
            &&& x.model == y.model
            &&& x.skipped == y.skipped
            &&& session_of(x, ctx_s) == session_of(y, ctx_s)
            &&& usage_cores(x.events) == usage_cores(y.events)
        }),
    decreases n,
{
    if n == 0 {
        assert(usage_cores(Seq::<UsageModel>::empty()) =~= Seq::empty());
    } else {
        lemma_fold_same_records(a, b, n - 1, pa, pb, ctx_s, ctx_m);
        assert(a[n - 1].record == b[n - 1].record);
        lemma_step_same_record(
            fold_upto(a, n - 1, pa, ctx_s, ctx_m),
            fold_upto(b, n - 1, pb, ctx_s, ctx_m),
            a[n - 1],
            b[n - 1],
            pa,
            pb,
            ctx_s,
        );
    }
}

/// Lines that decode to the same records give the same usage events (same
/// fingerprints, sessions, times, models and tokens), the same count of
/// unreadable lines, and end in the same session and model, whatever path
/// and offsets they were read under: an event keeps its identity when its
/// file moves.
pub proof fn lemma_fold_ignores_path_and_offsets(
    a: Seq<LogLine>,
    b: Seq<LogLine>,
    path_a: Seq<char>,
    path_b: Seq<char>,
    ctx_session: Option<Seq<char>>,
    ctx_model: Option<Seq<char>>,
)
    requires
        same_records(a, b),
    ensures
        ({
            let x = fold_upto(a, a.len() as int, path_a, ctx_session, ctx_model);
            let y = fold_upto(b, b.len() as int, path_b, ctx_session, ctx_model);
            &&& usage_cores(x.events) == usage_cores(y.events)
            &&& x.skipped == y.skipped
            &&& x.model == y.model
            &&& session_of(x, ctx_session) == session_of(y, ctx_session)
        }),
{
    lemma_fold_same_records(a, b, a.len() as int, path_a, path_b, ctx_session, ctx_model);
}

} // verus!
