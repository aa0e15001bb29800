//! Event-stream rate-limit detection.
//!
//! A chunk of event-stream text is scanned line by line: payload lines carry
//! a `data: ` prefix, the sentinel `[DONE]` payload is skipped, every other
//! payload yields a candidate text (an error or content field extracted from
//! its JSON form, or the raw payload when it is not JSON), and the candidate
//! is classified by a case-insensitive search for `rate limit`.

use vstd::prelude::*;
use vstd::string::StrSliceExecFns;

verus! {

/// The Unicode white-space characters, as `str::trim` removes them.
pub open spec fn is_ws_char(c: char) -> bool {
    let u = c as u32;
    ||| u == 0x09
    ||| u == 0x0A
    ||| u == 0x0B
    ||| u == 0x0C
    ||| u == 0x0D
    ||| u == 0x20
    ||| u == 0x85
    ||| u == 0xA0
    ||| u == 0x1680
    ||| (0x2000 <= u && u <= 0x200A)
    ||| u == 0x2028
    ||| u == 0x2029
    ||| u == 0x202F
    ||| u == 0x205F
    ||| u == 0x3000
}

fn is_ws_exec(c: char) -> (r: bool)
    ensures
        r == is_ws_char(c),
{
    let u: u32 = c as u32;
    u == 0x09 || u == 0x0A || u == 0x0B || u == 0x0C || u == 0x0D || u == 0x20 || u == 0x85
        || u == 0xA0 || u == 0x1680 || (0x2000 <= u && u <= 0x200A) || u == 0x2028 || u == 0x2029
        || u == 0x202F || u == 0x205F || u == 0x3000
}

/// The text with white space removed from both ends.
pub open spec fn trim_spec(s: Seq<char>) -> Seq<char>
    decreases s.len(),
{
    if s.len() == 0 {
        s
    } else if is_ws_char(s[0]) {
        trim_spec(s.subrange(1, s.len() as int))
    } else if is_ws_char(s[s.len() - 1]) {
        trim_spec(s.subrange(0, s.len() - 1))
    } else {
        s
    }
}

/// Trimming a text whose white space is exactly the stretch before `a` and
/// the stretch from `b` on leaves the middle part `s[a..b]`.
proof fn lemma_trim_range(s: Seq<char>, a: int, b: int)
    requires
        0 <= a <= b <= s.len(),
        forall|i: int| 0 <= i < a ==> is_ws_char(s[i]),
        forall|i: int| b <= i < s.len() ==> is_ws_char(s[i]),
        a < b ==> !is_ws_char(s[a]) && !is_ws_char(s[b - 1]),
    ensures
        trim_spec(s) == s.subrange(a, b),
    decreases s.len(),
{
    if s.len() == 0 {
        assert(trim_spec(s) =~= s.subrange(a, b));
    } else if is_ws_char(s[0]) {
        let t = s.subrange(1, s.len() as int);
        if a == 0 {
            assert(b == 0);
            assert forall|i: int| 0 <= i < t.len() implies is_ws_char(t[i]) by {
                assert(t[i] == s[i + 1]);
            }
            lemma_trim_range(t, 0, 0);
            assert(t.subrange(0, 0) =~= s.subrange(a, b));
        } else {
            assert forall|i: int| 0 <= i < a - 1 implies is_ws_char(t[i]) by {
                assert(t[i] == s[i + 1]);
            }
            assert forall|i: int| b - 1 <= i < t.len() implies is_ws_char(t[i]) by {
                assert(t[i] == s[i + 1]);
            }
            if a - 1 < b - 1 {
                assert(t[a - 1] == s[a]);
                assert(t[b - 2] == s[b - 1]);
            }
            lemma_trim_range(t, a - 1, b - 1);
            assert(t.subrange(a - 1, b - 1) =~= s.subrange(a, b));
        }
    } else if is_ws_char(s[s.len() - 1]) {
        assert(a == 0);
        assert(a < b) by {
            if a == b {
                assert(is_ws_char(s[0]));
            }
        }
        assert(b < s.len()) by {
            if b == s.len() {
                assert(!is_ws_char(s[b - 1]));
            }
        }
        let t = s.subrange(0, s.len() - 1);
        assert forall|i: int| b <= i < t.len() implies is_ws_char(t[i]) by {
            assert(t[i] == s[i]);
        }
        assert(t[a] == s[a]);
        assert(t[b - 1] == s[b - 1]);
        lemma_trim_range(t, a, b);
        assert(t.subrange(a, b) =~= s.subrange(a, b));
    } else {
        assert(a == 0);
        assert(b == s.len()) by {
            if b < s.len() {
                assert(is_ws_char(s[s.len() - 1]));
            }
        }
        assert(trim_spec(s) == s);
        assert(s.subrange(0, s.len() as int) =~= s);
    }
}

/// Whether `n` occurs as a contiguous run inside `h`.
pub open spec fn contains_sub(h: Seq<char>, n: Seq<char>) -> bool {
    exists|i: int|
        0 <= i && i + n.len() <= h.len() && #[trigger] h.subrange(i, i + n.len() as int) == n
}

/// Substring search, character by character.
fn str_contains(h: &str, n: &str) -> (r: bool)
    ensures
        r == contains_sub(h@, n@),
{
    let hl: usize = h.unicode_len();
    let nl: usize = n.unicode_len();
    if nl > hl {
        proof {
            if contains_sub(h@, n@) {
                let k = choose|k: int|
                    0 <= k && k + n@.len() <= h@.len() && #[trigger] h@.subrange(
                        k,
                        k + n@.len() as int,
                    ) == n@;
            }
        }
        return false;
    }
    let mut i: usize = 0;
    while i <= hl - nl
        invariant
            nl <= hl,
            hl == h@.len(),
            nl == n@.len(),
            i <= hl - nl + 1,
            forall|k: int| 0 <= k < i ==> #[trigger] h@.subrange(k, k + n@.len() as int) != n@,
        decreases hl - nl + 1 - i,
    {
        let mut j: usize = 0;
        while j < nl
            invariant
                hl == h@.len(),
                nl == n@.len(),
                nl <= hl,
                i + nl <= hl,
                j <= nl,
                forall|k: int| 0 <= k < j ==> h@[i + k] == n@[k],
            ensures
                j <= nl,
                forall|k: int| 0 <= k < j ==> h@[i + k] == n@[k],
                j < nl ==> h@[i + j] != n@[j as int],
            decreases nl - j,
        {
            if h.get_char(i + j) != n.get_char(j) {
                break;
            }
            j = j + 1;
        }
        if j == nl {
            proof {
                assert(h@.subrange(i as int, i + n@.len() as int) =~= n@);
            }
            return true;
        }
        proof {
            assert(h@.subrange(i as int, i + n@.len() as int)[j as int] == h@[i + j]);
        }
        i = i + 1;
    }
    proof {
        if contains_sub(h@, n@) {
            let k = choose|k: int|
                0 <= k && k + n@.len() <= h@.len() && #[trigger] h@.subrange(
                    k,
                    k + n@.len() as int,
                ) == n@;
            assert(h@.subrange(k, k + n@.len() as int) != n@);
        }
    }
    false
}

/// What `str::to_lowercase` returns: the Unicode lowercase form of the text.
pub uninterp spec fn lower_of(s: Seq<char>) -> Seq<char>;

/// Relies on `str::to_lowercase`: the Unicode lowercase mapping of the text,
/// a function of the characters alone.
#[verifier::external_body]
fn to_lowercase_text(s: &str) -> (r: String)
    ensures
        r@ == lower_of(s@),
{
    s.to_lowercase()
}

/// The classifier's needle: a text is a rate-limit signal iff its lowercase
/// form contains this marker.
pub open spec fn rate_limit_marker() -> Seq<char> {
    "rate limit"@
}

/// Whether a text is classified as a rate-limit signal.
pub open spec fn text_signals_rate_limit(t: Seq<char>) -> bool {
    contains_sub(lower_of(t), rate_limit_marker())
}

/// Rate-limit classifier: case-insensitive search for the marker.
pub fn is_rate_limit_error(content: &str) -> (r: bool)
    ensures
        r == text_signals_rate_limit(content@),
{
    let lowered: String = to_lowercase_text(content);
    str_contains(lowered.as_str(), "rate limit")
}

/// The string fields a structured payload may carry error or content text in,
/// each present only when the field exists and is a JSON string.
pub struct PayloadFields {
    /// A top-level `error` field that is itself a string.
    pub error_str: Option<String>,
    /// `error.message`, when `error` is an object.
    pub error_message: Option<String>,
    /// `error.detail`, when `error` is an object.
    pub error_detail: Option<String>,
    /// `delta.text`, as token-delta streaming payloads carry it.
    pub delta_text: Option<String>,
    /// A top-level `message` field that is a string.
    pub message: Option<String>,
}

/// The fields of a payload, as sequences of characters.
pub struct PayloadFieldsModel {
    pub error_str: Option<Seq<char>>,
    pub error_message: Option<Seq<char>>,
    pub error_detail: Option<Seq<char>>,
    pub delta_text: Option<Seq<char>>,
    pub message: Option<Seq<char>>,
}

/// The view of one optional text field.
pub open spec fn opt_text_view(o: Option<String>) -> Option<Seq<char>> {
    match o {
        Option::Some(s) => Option::Some(s@),
        Option::None => Option::None,
    }
}

impl View for PayloadFields {
    type V = PayloadFieldsModel;

    open spec fn view(&self) -> PayloadFieldsModel {
        PayloadFieldsModel {
            error_str: opt_text_view(self.error_str),
            error_message: opt_text_view(self.error_message),
            error_detail: opt_text_view(self.error_detail),
            delta_text: opt_text_view(self.delta_text),
            message: opt_text_view(self.message),
        }
    }
}

/// What parsing a payload returns: `None` when the payload is not valid JSON,
/// otherwise the string fields of the parsed value. A function of the payload
/// text alone.
pub uninterp spec fn parsed_payload(s: Seq<char>) -> Option<PayloadFieldsModel>;

/// Relies on `serde_json::from_str` and on `serde_json::Value`'s `get` and
/// `as_str`: parses the payload as JSON and copies out the string fields the
/// extractor reads; `None` when the payload is not valid JSON.
#[verifier::external_body]
fn parse_payload_fields(data: &str) -> (r: Option<PayloadFields>)
    ensures
        r is Some <==> parsed_payload(data@) is Some,
        (r matches Some(f) ==> parsed_payload(data@) == Some(f@)),
{
    let v: serde_json::Value = match serde_json::from_str(data) {
        Ok(v) => v,
        Err(_) => return None,
    };
    let text = |x: Option<&serde_json::Value>| x.and_then(|f| f.as_str()).map(str::to_string);
    Some(PayloadFields {
        error_str: text(v.get("error")),
        error_message: text(v.get("error").and_then(|e| e.get("message"))),
        error_detail: text(v.get("error").and_then(|e| e.get("detail"))),
        delta_text: text(v.get("delta").and_then(|d| d.get("text"))),
        message: text(v.get("message")),
    })
}

/// The representative error or content text of a parsed payload: the first
/// present field, in the fixed order `error` (as string), `error.message`,
/// `error.detail`, `delta.text`, `message`.
pub open spec fn extracted_of(f: PayloadFieldsModel) -> Option<Seq<char>> {
    if f.error_str is Some {
        f.error_str
    } else if f.error_message is Some {
        f.error_message
    } else if f.error_detail is Some {
        f.error_detail
    } else if f.delta_text is Some {
        f.delta_text
    } else {
        f.message
    }
}

/// First present field wins; absence of all is a normal no-signal outcome.
pub fn extract_error_text(fields: PayloadFields) -> (r: Option<String>)
    ensures
        r is Some <==> extracted_of(fields@) is Some,
        (r matches Some(s) ==> extracted_of(fields@) == Some(s@)),
{
    let PayloadFields { error_str, error_message, error_detail, delta_text, message } = fields;
    if error_str.is_some() {
        error_str
    } else if error_message.is_some() {
        error_message
    } else if error_detail.is_some() {
        error_detail
    } else if delta_text.is_some() {
        delta_text
    } else {
        message
    }
}

/// The candidate text of a payload: the extracted text when the payload
/// parses as JSON, the raw payload itself when it does not.
pub open spec fn candidate_of(p: Seq<char>) -> Option<Seq<char>> {
    match parsed_payload(p) {
        Option::Some(f) => extracted_of(f),
        Option::None => Option::Some(p),
    }
}

/// Whether a payload (already past the sentinel check) yields a rate-limit
/// signal.
pub open spec fn payload_signals(p: Seq<char>) -> bool {
    match candidate_of(p) {
        Option::Some(t) => text_signals_rate_limit(t),
        Option::None => false,
    }
}

fn payload_signals_exec(p: &str) -> (r: bool)
    ensures
        r == payload_signals(p@),
{
    match parse_payload_fields(p) {
        Option::Some(fields) => match extract_error_text(fields) {
            Option::Some(t) => is_rate_limit_error(t.as_str()),
            Option::None => false,
        },
        Option::None => is_rate_limit_error(p),
    }
}

/// The completion sentinel: a payload that trims to it is never a match.
pub open spec fn done_marker() -> Seq<char> {
    "[DONE]"@
}

fn is_done_payload(p: &str) -> (r: bool)
    ensures
        r == (trim_spec(p@) == done_marker()),
{
    let n: usize = p.unicode_len();
    let mut a: usize = 0;
    while a < n
        invariant
            n == p@.len(),
            a <= n,
            forall|i: int| 0 <= i < a ==> is_ws_char(p@[i]),
        ensures
            n == p@.len(),
            a <= n,
            forall|i: int| 0 <= i < a ==> is_ws_char(p@[i]),
            a < n ==> !is_ws_char(p@[a as int]),
        decreases n - a,
    {
        if !is_ws_exec(p.get_char(a)) {
            break;
        }
        a = a + 1;
    }
    let mut b: usize = n;
    while b > a
        invariant
            n == p@.len(),
            a <= b <= n,
            forall|i: int| b <= i < n ==> is_ws_char(p@[i]),
        ensures
            a <= b <= n,
            forall|i: int| b <= i < n ==> is_ws_char(p@[i]),
            b > a ==> !is_ws_char(p@[b - 1]),
        decreases b,
    {
        if !is_ws_exec(p.get_char(b - 1)) {
            break;
        }
        b = b - 1;
    }
    proof {
        lemma_trim_range(p@, a as int, b as int);
        reveal_strlit("[DONE]");
    }
    if b - a != 6 {
        proof {
            assert(trim_spec(p@).len() == b - a);
            assert(done_marker().len() == 6);
        }
        return false;
    }
    let m0 = p.get_char(a) == '[';
    let m1 = p.get_char(a + 1) == 'D';
    let m2 = p.get_char(a + 2) == 'O';
    let m3 = p.get_char(a + 3) == 'N';
    let m4 = p.get_char(a + 4) == 'E';
    let m5 = p.get_char(a + 5) == ']';
    let all = m0 && m1 && m2 && m3 && m4 && m5;
    proof {
        let t = p@.subrange(a as int, b as int);
        assert(t[0] == p@[a as int]);
        assert(t[1] == p@[a + 1]);
        assert(t[2] == p@[a + 2]);
        assert(t[3] == p@[a + 3]);
        assert(t[4] == p@[a + 4]);
        assert(t[5] == p@[a + 5]);
        if all {
            assert(t =~= done_marker());
        }
    }
    all
}

/// Whether a line is a payload line: it starts with the `data: ` prefix.
pub open spec fn is_data_line(l: Seq<char>) -> bool {
    l.len() >= 6 && l.subrange(0, 6) == "data: "@
}

/// The payload of a data line: everything past the prefix.
pub open spec fn payload_of(l: Seq<char>) -> Seq<char> {
    l.subrange(6, l.len() as int)
}

/// Whether one line of the stream yields a rate-limit signal: a data line
/// whose payload is not the sentinel and signals.
pub open spec fn line_signals(l: Seq<char>) -> bool {
    &&& is_data_line(l)
    &&& trim_spec(payload_of(l)) != done_marker()
    &&& payload_signals(payload_of(l))
}

fn line_signals_exec(line: &str) -> (r: bool)
    ensures
        r == line_signals(line@),
{
    let n: usize = line.unicode_len();
    proof {
        reveal_strlit("data: ");
    }
    if n < 6 {
        return false;
    }
    let p0 = line.get_char(0) == 'd';
    let p1 = line.get_char(1) == 'a';
    let p2 = line.get_char(2) == 't';
    let p3 = line.get_char(3) == 'a';
    let p4 = line.get_char(4) == ':';
    let p5 = line.get_char(5) == ' ';
    if !(p0 && p1 && p2 && p3 && p4 && p5) {
        proof {
            let t = line@.subrange(0, 6);
            assert(t[0] == line@[0]);
            assert(t[1] == line@[1]);
            assert(t[2] == line@[2]);
            assert(t[3] == line@[3]);
            assert(t[4] == line@[4]);
            assert(t[5] == line@[5]);
        }
        return false;
    }
    proof {
        assert(line@.subrange(0, 6) =~= "data: "@);
    }
    let payload = line.substring_char(6, n);
    if is_done_payload(payload) {
        return false;
    }
    payload_signals_exec(payload)
}

/// Index of the first line feed in the text, or its length when it has none.
pub open spec fn first_newline(s: Seq<char>) -> int
    decreases s.len(),
{
    if s.len() == 0 {
        0
    } else if s[0] == '\n' {
        0
    } else {
        1 + first_newline(s.subrange(1, s.len() as int))
    }
}

proof fn lemma_first_newline_character(s: Seq<char>)
    ensures
        0 <= first_newline(s) <= s.len(),
        first_newline(s) < s.len() ==> s[first_newline(s)] == '\n',
        forall|k: int| 0 <= k < first_newline(s) ==> s[k] != '\n',
    decreases s.len(),
{
    if s.len() == 0 {
    } else if s[0] == '\n' {
    } else {
        let t = s.subrange(1, s.len() as int);
        lemma_first_newline_character(t);
        if first_newline(s) < s.len() {
            assert(s[first_newline(s)] == t[first_newline(t)]);
        }
        assert forall|k: int| 0 <= k < first_newline(s) implies s[k] != '\n' by {
            if k > 0 {
                assert(s[k] == t[k - 1]);
            }
        }
    }
}

fn find_newline(s: &str) -> (r: usize)
    ensures
        r == first_newline(s@),
{
    proof {
        lemma_first_newline_character(s@);
    }
    let n: usize = s.unicode_len();
    let mut i: usize = 0;
    while i < n
        invariant
            n == s@.len(),
            i <= n,
            forall|k: int| 0 <= k < i ==> s@[k] != '\n',
        ensures
            i <= n,
            forall|k: int| 0 <= k < i ==> s@[k] != '\n',
            i < n ==> s@[i as int] == '\n',
        decreases n - i,
    {
        if s.get_char(i) == '\n' {
            break;
        }
        i = i + 1;
    }
    proof {
        let f = first_newline(s@);
        if f < i {
            assert(s@[f] == '\n');
        }
        if i < f {
            assert(s@[i as int] != '\n');
        }
    }
    i
}

/// A line with its terminator's carriage return removed, as `str::lines`
/// yields lines of a text that uses `\r\n` endings.
pub open spec fn strip_cr(l: Seq<char>) -> Seq<char> {
    if l.len() > 0 && l[l.len() - 1] == '\r' {
        l.subrange(0, l.len() - 1)
    } else {
        l
    }
}

/// The lines of a chunk: split at each line feed, a carriage return before a
/// line feed removed, the optional final fragment kept as it stands.
pub open spec fn split_lines(s: Seq<char>) -> Seq<Seq<char>>
    decreases s.len(),
{
    if s.len() == 0 {
        Seq::empty()
    } else {
        let i = first_newline(s);
        if 0 <= i < s.len() {
            seq![strip_cr(s.subrange(0, i))] + split_lines(s.subrange(i + 1, s.len() as int))
        } else {
            seq![s]
        }
    }
}

/// Whether any line of the chunk yields a rate-limit signal.
pub open spec fn chunk_signals(s: Seq<char>) -> bool {
    exists|j: int| 0 <= j < split_lines(s).len() && line_signals(split_lines(s)[j])
}

proof fn lemma_chunk_signals_unfold(s: Seq<char>)
    requires
        s.len() > 0,
    ensures
        first_newline(s) < s.len() ==> chunk_signals(s) == (line_signals(
            strip_cr(s.subrange(0, first_newline(s))),
        ) || chunk_signals(s.subrange(first_newline(s) + 1, s.len() as int))),
        first_newline(s) == s.len() ==> chunk_signals(s) == line_signals(s),
{
    lemma_first_newline_character(s);
    let i = first_newline(s);
    if i < s.len() {
        let head = strip_cr(s.subrange(0, i));
        let rest = s.subrange(i + 1, s.len() as int);
        let l2 = split_lines(rest);
        assert(split_lines(s) == seq![head] + l2);
        if chunk_signals(s) {
            let j = choose|j: int|
                0 <= j < split_lines(s).len() && line_signals(split_lines(s)[j]);
            if j == 0 {
                assert(split_lines(s)[0] == head);
            } else {
                assert(split_lines(s)[j] == l2[j - 1]);
                assert(chunk_signals(rest));
            }
        }
        if line_signals(head) {
            assert(split_lines(s)[0] == head);
            assert(chunk_signals(s));
        }
        if chunk_signals(rest) {
            let j = choose|j: int| 0 <= j < l2.len() && line_signals(l2[j]);
            assert(split_lines(s)[j + 1] == l2[j]);
            assert(chunk_signals(s));
        }
    } else {
        assert(split_lines(s) == seq![s]);
        if chunk_signals(s) {
            let j = choose|j: int|
                0 <= j < split_lines(s).len() && line_signals(split_lines(s)[j]);
            assert(split_lines(s)[j] == s);
        }
        if line_signals(s) {
            assert(split_lines(s)[0] == s);
            assert(chunk_signals(s));
        }
    }
}

/// Stream scanner: a single pass over the chunk's lines, reporting whether
/// any data line yields a rate-limit signal. Stateless: nothing is buffered
/// across calls, so the chunk must contain complete lines.
pub fn detect_rate_limit_in_sse(sse_data: &str) -> (r: bool)
    ensures
        r == chunk_signals(sse_data@),
    decreases sse_data@.len(),
{
    let n: usize = sse_data.unicode_len();
    if n == 0 {
        return false;
    }
    proof {
        lemma_first_newline_character(sse_data@);
        lemma_chunk_signals_unfold(sse_data@);
    }
    let i: usize = find_newline(sse_data);
    if i == n {
        line_signals_exec(sse_data)
    } else {
        let line_end: usize = if i > 0 && sse_data.get_char(i - 1) == '\r' {
            i - 1
        } else {
            i
        };
        let line = sse_data.substring_char(0, line_end);
        proof {
            let head = sse_data@.subrange(0, i as int);
            if i > 0 {
                assert(head[i - 1] == sse_data@[i - 1]);
            }
            assert(line@ =~= strip_cr(head));
        }
        if line_signals_exec(line) {
            true
        } else {
            let rest = sse_data.substring_char(i + 1, n);
            detect_rate_limit_in_sse(rest)
        }
    }
}

/// Law: a chunk whose data lines all trim to the completion sentinel never
/// signals — the sentinel is skipped, never matched.
pub proof fn lemma_done_only_chunk_never_signals(s: Seq<char>)
    requires
        forall|j: int|
            0 <= j < split_lines(s).len() && is_data_line(#[trigger] split_lines(s)[j])
                ==> trim_spec(payload_of(split_lines(s)[j])) == done_marker(),
    ensures
        !chunk_signals(s),
{
    if chunk_signals(s) {
        let j = choose|j: int| 0 <= j < split_lines(s).len() && line_signals(split_lines(s)[j]);
        assert(is_data_line(split_lines(s)[j]));
    }
}

/// Law: a chunk signals as soon as any of its data lines carries a payload
/// that is not the sentinel and whose candidate text contains the rate-limit
/// marker case-insensitively.
pub proof fn lemma_rate_limited_line_signals(s: Seq<char>, j: int, t: Seq<char>)
    requires
        0 <= j < split_lines(s).len(),
        is_data_line(split_lines(s)[j]),
        trim_spec(payload_of(split_lines(s)[j])) != done_marker(),
        candidate_of(payload_of(split_lines(s)[j])) == Option::Some(t),
        text_signals_rate_limit(t),
    ensures
        chunk_signals(s),
{
    assert(line_signals(split_lines(s)[j]));
}

/// Law: a chunk none of whose data lines carries a matching candidate text
/// never signals — including chunks with unrelated structured content.
pub proof fn lemma_unmatched_chunk_never_signals(s: Seq<char>)
    requires
        forall|j: int|
            0 <= j < split_lines(s).len() && is_data_line(#[trigger] split_lines(s)[j])
                ==> match candidate_of(payload_of(split_lines(s)[j])) {
                    Option::Some(t) => !text_signals_rate_limit(t),
                    Option::None => true,
                },
    ensures
        !chunk_signals(s),
{
    if chunk_signals(s) {
        let j = choose|j: int| 0 <= j < split_lines(s).len() && line_signals(split_lines(s)[j]);
        assert(is_data_line(split_lines(s)[j]));
    }
}

} // verus!
