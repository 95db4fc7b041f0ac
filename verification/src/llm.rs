//! The rules of talking to the model: the request, when a failed request
//! is tried again, and how the streamed answer is decoded and shown.
//!
//! Sending the request, reading the stream, sleeping and printing are the
//! caller's part; the caller feeds the stream to a [`StreamDecoder`] one
//! character at a time and prints what it hands back.

use crate::text::{
    concat, decimal, decimal_spec, digit_char, contains, contains_spec, lemma_find_char_at, lemma_split_nonempty, lemma_split_push,
    push_str, split_spec, starts_with, starts_with_spec, str_eq, suffix_from, trim, trim_spec,
    views,
};
use crate::xml::{ascii_lower, lowercase_spec, to_lowercase};
use vstd::prelude::*;

verus! {

broadcast use vstd::string::group_string_axioms;

// ---------------------------------------------------------------------------
// Retries
// ---------------------------------------------------------------------------

/// How many times a failed request is tried again.
pub const MAX_RETRIES: u32 = 3;

/// The pause, in seconds, after failed try `attempt` (counting from 0):
/// 5 s, then 30 s, then 5 min.
pub open spec fn retry_delay_spec(attempt: int) -> u64 {
    if attempt == 0 {
        5
    } else if attempt == 1 {
        30
    } else {
        300
    }
}

/// Whether and how long to wait before trying again after try `attempt`
/// (counting from 0) failed: only retryable failures are tried again, and
/// at most [`MAX_RETRIES`] times.
pub fn retry_delay(attempt: u32, retryable: bool) -> (r: Option<u64>)
    ensures
        r == (if attempt < MAX_RETRIES && retryable {
            Some(retry_delay_spec(attempt as int))
        } else {
            None
        }),
{
    if attempt < MAX_RETRIES && retryable {
        if attempt == 0 {
            Some(5)
        } else if attempt == 1 {
            Some(30)
        } else {
            Some(300)
        }
    } else {
        None
    }
}

/// Backoff: the pause grows with each failed try (5 s, then 30 s, then
/// 5 min), and no try after the last allowed one is followed by a pause.
pub proof fn law_retry_backoff(attempt: int)
    ensures
        0 <= attempt && attempt + 1 < MAX_RETRIES ==> retry_delay_spec(attempt) < retry_delay_spec(
            attempt + 1,
        ),
        retry_delay_spec(0) == 5 && retry_delay_spec(1) == 30 && retry_delay_spec(2) == 300,
{
}

/// Whether `c` is an ASCII digit.
pub open spec fn is_digit(c: char) -> bool {
    '0' <= c && c <= '9'
}

/// How the message of a refused API request begins (see
/// [`api_error_message`]), in lower case.
pub open spec fn api_error_prefix_lower() -> Seq<char> {
    "deepseek api returned error ("@
}

/// Whether a lower-cased failure message is that of an API request refused
/// with a server error status (500 to 599): the status follows the prefix.
pub open spec fn mentions_server_error(l: Seq<char>) -> bool {
    let n = api_error_prefix_lower().len() as int;
    &&& starts_with_spec(l, api_error_prefix_lower())
    &&& n + 3 <= l.len()
    &&& l[n] == '5'
    &&& is_digit(l[n + 1])
    &&& is_digit(l[n + 2])
    &&& (n + 3 == l.len() || !is_digit(l[n + 3]))
}

/// Whether a failure is worth another try: its message, in lower case,
/// mentions a timeout, a rate limit (429), a refused API request with a
/// server error status (500 to 599) or the connection.
pub open spec fn is_retryable_spec(message: Seq<char>) -> bool {
    retryable_text(lowercase_spec(message))
}

/// Whether a lower-cased failure message mentions a timeout ("timeout" or
/// "timed out"), a rate limit, a server error status or the connection.
pub open spec fn retryable_text(l: Seq<char>) -> bool {
    ||| contains_spec(l, "timeout"@)
    ||| contains_spec(l, "timed out"@)
    ||| contains_spec(l, "429"@)
    ||| contains_spec(l, "rate limit"@)
    ||| mentions_server_error(l)
    ||| contains_spec(l, "connection"@)
}

/// Whether a lower-cased message is that of a refused request with a
/// server error status.
fn has_server_status(s: &str) -> (b: bool)
    ensures
        b == mentions_server_error(s@),
{
    proof {
        reveal_strlit("deepseek api returned error (");
    }
    if !starts_with(s, "deepseek api returned error (") {
        return false;
    }
    let v = crate::text::to_chars(s);
    let n: usize = 29;
    if v.len() < n + 3 {
        return false;
    }
    v[n] == '5' && '0' <= v[n + 1] && v[n + 1] <= '9' && '0' <= v[n + 2] && v[n + 2] <= '9' && (
    v.len() == n + 3 || !('0' <= v[n + 3] && v[n + 3] <= '9'))
}

/// Whether an HTTP status is a success (200 to 299).
pub fn is_success_status(code: u16) -> (b: bool)
    ensures
        b == (200 <= code && code <= 299),
{
    200 <= code && code <= 299
}

/// The message of a refused API request: the status code, its reason
/// phrase (or `<unknown status code>`), and the response body (or
/// `Unknown error` when it could not be read).
pub open spec fn api_error_message_spec(
    code: u16,
    reason: Option<Seq<char>>,
    body: Option<Seq<char>>,
) -> Seq<char> {
    "DeepSeek API returned error ("@ + decimal_spec(code as nat) + " "@ + match reason {
        Some(r) => r,
        None => "<unknown status code>"@,
    } + "): "@ + match body {
        Some(b) => b,
        None => "Unknown error"@,
    }
}

/// The message of a refused API request.
pub fn api_error_message(code: u16, reason: Option<&str>, body: Option<&str>) -> (s: String)
    ensures
        s@ == api_error_message_spec(
            code,
            match reason {
                Some(r) => Some(r@),
                None => None,
            },
            match body {
                Some(b) => Some(b@),
                None => None,
            },
        ),
{
    let mut s = concat("DeepSeek API returned error (", decimal(code as usize).as_str());
    push_str(&mut s, " ");
    match reason {
        Some(r) => push_str(&mut s, r),
        None => push_str(&mut s, "<unknown status code>"),
    }
    push_str(&mut s, "): ");
    match body {
        Some(b) => push_str(&mut s, b),
        None => push_str(&mut s, "Unknown error"),
    }
    s
}

/// A request refused with a server error status (500 to 599) is tried
/// again: its message, in lower case, is retryable.  (For a message of
/// ASCII characters, the lower case is that of [`is_retryable_error`].)
pub proof fn law_server_errors_retried(
    code: u16,
    reason: Option<Seq<char>>,
    body: Option<Seq<char>>,
)
    requires
        500 <= code <= 599,
    ensures
        retryable_text(
            api_error_message_spec(code, reason, body).map_values(|c: char| ascii_lower(c)),
        ),
{
    let m = api_error_message_spec(code, reason, body);
    let l = m.map_values(|c: char| ascii_lower(c));
    let pre = "DeepSeek API returned error ("@;
    let low = api_error_prefix_lower();
    reveal_strlit("DeepSeek API returned error (");
    reveal_strlit("deepseek api returned error (");
    reveal_strlit(" ");
    let d = decimal_spec(code as nat);
    let n = code as nat;
    assert(n / 10 >= 10 && (n / 10) / 10 == 5);
    assert(decimal_spec(5) == seq![digit_char(5)]);
    assert(d == decimal_spec(n / 10).push(digit_char(n % 10)));
    assert(decimal_spec(n / 10) == decimal_spec(5).push(digit_char((n / 10) % 10)));
    assert(digit_char(5) == '5');
    assert forall|k: nat| k < 10 implies is_digit(#[trigger] digit_char(k)) by {}
    assert(d.len() == 3);
    let head = pre + d + " "@;
    assert(head.len() == 33);
    assert(m == head + m.skip(33)) by {
        assert(m =~= head + m.skip(33));
    }
    assert(m.len() >= 33);
    assert forall|i: int| 0 <= i < 29 implies #[trigger] m[i] == pre[i] by {}
    assert(m[29] == '5');
    assert(is_digit(m[30]) && is_digit(m[31]));
    assert(m[32] == ' ');
    assert(l.take(29) =~= low);
    assert(mentions_server_error(l));
}

/// Whether a failure with this message is worth another try.
pub fn is_retryable_error(message: &str) -> (b: bool)
    ensures
        b == is_retryable_spec(message@),
        (forall|i: int| 0 <= i < message@.len() ==> (#[trigger] message@[i] as int) < 128) ==> b
            == retryable_text(message@.map_values(|c: char| ascii_lower(c))),
{
    let l = to_lowercase(message);
    let s = l.as_str();
    contains(s, "timeout") || contains(s, "timed out") || contains(s, "429") || contains(
        s,
        "rate limit",
    ) || has_server_status(s) || contains(s, "connection")
}

// ---------------------------------------------------------------------------
// The request
// ---------------------------------------------------------------------------

/// One message of the conversation.
pub struct ChatMessage {
    pub role: String,
    pub content: String,
}

/// The settings of a request that depend on whether thinking is shown.
pub struct RequestPlan {
    /// The answer is streamed.
    pub stream: bool,
    /// A sampling temperature is sent (thinking mode takes none).
    pub with_temperature: bool,
    /// The reasoning effort, in thinking mode.
    pub reasoning_effort: Option<String>,
    /// The thinking type, in thinking mode.
    pub thinking_type: Option<String>,
}

/// The request settings: always streamed; with thinking shown, high
/// reasoning effort and thinking enabled and no temperature; otherwise a
/// temperature and neither of the others.
pub fn request_plan(show_thinking: bool) -> (p: RequestPlan)
    ensures
        p.stream,
        p.with_temperature == !show_thinking,
        show_thinking ==> (p.reasoning_effort matches Some(e) && e@ == "high"@),
        show_thinking ==> (p.thinking_type matches Some(t) && t@ == "enabled"@),
        !show_thinking ==> p.reasoning_effort is None && p.thinking_type is None,
{
    if show_thinking {
        RequestPlan {
            stream: true,
            with_temperature: false,
            reasoning_effort: Some("high".to_owned()),
            thinking_type: Some("enabled".to_owned()),
        }
    } else {
        RequestPlan {
            stream: true,
            with_temperature: true,
            reasoning_effort: None,
            thinking_type: None,
        }
    }
}

/// The conversation sent: the system prompt, then the user prompt.
pub fn chat_messages(system_prompt: &str, user_prompt: &str) -> (m: Vec<ChatMessage>)
    ensures
        m@.len() == 2,
        m@[0].role@ == "system"@ && m@[0].content@ == system_prompt@,
        m@[1].role@ == "user"@ && m@[1].content@ == user_prompt@,
{
    vec![
        ChatMessage { role: "system".to_owned(), content: system_prompt.to_owned() },
        ChatMessage { role: "user".to_owned(), content: user_prompt.to_owned() },
    ]
}

/// The endpoint of chat completions under a base URL.
pub fn chat_url(base_url: &str) -> (s: String)
    ensures
        s@ == base_url@ + "/chat/completions"@,
{
    concat(base_url, "/chat/completions")
}

/// The authorization header value for an API key.
pub fn authorization(api_key: &str) -> (s: String)
    ensures
        s@ == "Bearer "@ + api_key@,
{
    concat("Bearer ", api_key)
}

// ---------------------------------------------------------------------------
// The streamed answer
// ---------------------------------------------------------------------------

/// The terminal code that starts grey text.
pub open spec fn grey_spec() -> Seq<char> {
    "\x1b[90m"@
}

/// The terminal code that resets the colour.
pub open spec fn reset_spec() -> Seq<char> {
    "\x1b[0m"@
}

/// A line of the event stream, classified.
pub enum SseLine {
    /// A blank line or one that carries no data.
    Skip,
    /// The end of the answer (`data: [DONE]`).
    Done,
    /// A chunk of the answer, as JSON.
    Data(String),
}

/// How a stream line is read: only `data: ` lines count; `[DONE]` ends the answer.
pub open spec fn classify_spec(line: Seq<char>) -> Option<Option<Seq<char>>> {
    if line.len() == 0 || !starts_with_spec(line, "data: "@) {
        None
    } else if line.skip(6) == "[DONE]"@ {
        Some(None)
    } else {
        Some(Some(line.skip(6)))
    }
}

/// Classifies a (trimmed) line of the event stream.
pub fn classify_line(line: &str) -> (r: SseLine)
    ensures
        classify_spec(line@) is None ==> r is Skip,
        classify_spec(line@) == Some(None::<Seq<char>>) ==> r is Done,
        classify_spec(line@) matches Some(Some(d)) ==> (r matches SseLine::Data(x) && x@ == d),
{
    if line.is_empty() || !starts_with(line, "data: ") {
        return SseLine::Skip;
    }
    proof {
        reveal_strlit("data: ");
    }
    let data = suffix_from(line, 6);
    if str_eq(data.as_str(), "[DONE]") {
        SseLine::Done
    } else {
        SseLine::Data(data)
    }
}

/// What a chunk of the answer carries (from its first choice).
pub struct StreamChunk {
    /// Thinking text.
    pub reasoning: Option<String>,
    /// Answer text.
    pub content: Option<String>,
    /// The chunk has a finish reason: the answer is complete.
    pub finished: bool,
}

/// What applying a chunk gives: text to print on standard error, and
/// whether the answer is complete.
pub struct ChunkOutcome {
    pub stderr: String,
    pub finished: bool,
}

/// The state of a decoder.
pub struct DecoderView {
    pub content: Seq<char>,
    pub line: Seq<char>,
    pub thinking_started: bool,
    pub thinking_ended: bool,
    pub show_thinking: bool,
    pub no_color: bool,
}

/// A colour code, unless colours are off.
pub open spec fn colour(no_color: bool, code: Seq<char>) -> Seq<char> {
    if no_color {
        seq![]
    } else {
        code
    }
}

/// A non-empty text.
pub open spec fn nonempty(t: Option<Seq<char>>) -> Option<Seq<char>> {
    match t {
        Some(x) if x.len() > 0 => Some(x),
        _ => None,
    }
}

/// The text that closes the shown thinking: the colour reset and a line
/// break, when thinking was shown and not closed yet.
pub open spec fn closing_spec(d: DecoderView) -> Seq<char> {
    if d.thinking_started && !d.thinking_ended {
        colour(d.no_color, reset_spec()) + "\n"@
    } else {
        seq![]
    }
}

/// The effect of a chunk.  Thinking text, when shown, is printed in grey
/// (the grey starts with the first of it).  Answer text is gathered; the
/// first answer text after shown thinking closes it.  A finished chunk
/// closes thinking that is still open.
pub open spec fn chunk_state_spec(
    d: DecoderView,
    reasoning: Option<Seq<char>>,
    content: Option<Seq<char>>,
) -> DecoderView {
    let r = if d.show_thinking {
        nonempty(reasoning)
    } else {
        None
    };
    let started = d.thinking_started || r is Some;
    let c = nonempty(content);
    let closes = c is Some && started && !d.thinking_ended;
    DecoderView {
        content: match c {
            Some(x) => d.content + x,
            None => d.content,
        },
        line: d.line,
        thinking_started: started,
        thinking_ended: d.thinking_ended || closes,
        show_thinking: d.show_thinking,
        no_color: d.no_color,
    }
}

/// The text a chunk prints on standard error.
pub open spec fn chunk_output_spec(
    d: DecoderView,
    reasoning: Option<Seq<char>>,
    content: Option<Seq<char>>,
    finished: bool,
) -> Seq<char> {
    let r = if d.show_thinking {
        nonempty(reasoning)
    } else {
        None
    };
    let out1 = match r {
        Some(x) => (if !d.thinking_started {
            colour(d.no_color, grey_spec())
        } else {
            seq![]
        }) + x,
        None => seq![],
    };
    let started = d.thinking_started || r is Some;
    let closes = nonempty(content) is Some && started && !d.thinking_ended;
    let out2 = if closes {
        colour(d.no_color, reset_spec()) + "\n"@
    } else {
        seq![]
    };
    let after = chunk_state_spec(d, reasoning, content);
    let out3 = if finished {
        closing_spec(after)
    } else {
        seq![]
    };
    out1 + out2 + out3
}

/// The decoder's state after a sequence of chunks, each given by its
/// thinking text and its answer text.
pub open spec fn decode_spec(
    d: DecoderView,
    chunks: Seq<(Option<Seq<char>>, Option<Seq<char>>)>,
) -> DecoderView
    decreases chunks.len(),
{
    if chunks.len() == 0 {
        d
    } else {
        chunk_state_spec(decode_spec(d, chunks.drop_last()), chunks.last().0, chunks.last().1)
    }
}

/// The answer texts of a sequence of chunks, one after the other.
pub open spec fn answer_text(chunks: Seq<(Option<Seq<char>>, Option<Seq<char>>)>) -> Seq<char>
    decreases chunks.len(),
{
    if chunks.len() == 0 {
        seq![]
    } else {
        answer_text(chunks.drop_last()) + match chunks.last().1 {
            Some(x) => x,
            None => seq![],
        }
    }
}

/// The answer gathered from a stream is the answer texts of its chunks, in
/// order, and the thinking texts never enter it; shown thinking, once
/// closed, stays closed; the display settings do not change.
pub proof fn law_decoded_answer(d: DecoderView, chunks: Seq<(Option<Seq<char>>, Option<Seq<char>>)>)
    ensures
        decode_spec(d, chunks).content == d.content + answer_text(chunks),
        d.thinking_ended ==> decode_spec(d, chunks).thinking_ended,
        decode_spec(d, chunks).show_thinking == d.show_thinking,
        decode_spec(d, chunks).no_color == d.no_color,
    decreases chunks.len(),
{
    if chunks.len() > 0 {
        let init = chunks.drop_last();
        law_decoded_answer(d, init);
        let piece = match chunks.last().1 {
            Some(x) => x,
            None => seq![],
        };
        assert(d.content + answer_text(chunks) =~= d.content + answer_text(init) + piece);
        if nonempty(chunks.last().1) is None {
            assert(decode_spec(d, init).content + piece =~= decode_spec(d, init).content);
        }
    }
}

/// The lines handed back, and the decoder after, when a text is fed to the
/// decoder one character at a time.
pub open spec fn feed_spec(d: DecoderView, s: Seq<char>) -> (Seq<Seq<char>>, DecoderView)
    decreases s.len(),
{
    if s.len() == 0 {
        (seq![], d)
    } else {
        let (out, d1) = feed_spec(d, s.drop_last());
        if s.last() == '\n' {
            (out.push(trim_spec(d1.line)), DecoderView { line: seq![], ..d1 })
        } else {
            (out, DecoderView { line: d1.line.push(s.last()), ..d1 })
        }
    }
}

/// Feeding a stream to the decoder, in pieces of any size, hands back its
/// complete lines, trimmed, in order, and keeps the unfinished last line
/// for later; nothing else of the decoder changes.
pub proof fn law_fed_lines(d: DecoderView, s: Seq<char>)
    requires
        forall|k: int| 0 <= k < d.line.len() ==> d.line[k] != '\n',
    ensures
        feed_spec(d, s).0 == split_spec(d.line + s, '\n').drop_last().map_values(
            |l: Seq<char>| trim_spec(l),
        ),
        feed_spec(d, s).1 == (DecoderView { line: split_spec(d.line + s, '\n').last(), ..d }),
    decreases s.len(),
{
    if s.len() == 0 {
        assert(d.line + s =~= d.line);
        lemma_find_char_at(d.line, '\n', d.line.len() as int);
        assert(split_spec(d.line, '\n') == seq![d.line]);
        assert(seq![d.line].drop_last().map_values(|l: Seq<char>| trim_spec(l)) =~= Seq::<
            Seq<char>,
        >::empty());
    } else {
        let s0 = s.drop_last();
        let x = s.last();
        law_fed_lines(d, s0);
        assert(d.line + s =~= (d.line + s0).push(x));
        lemma_split_push(d.line + s0, '\n', x);
        lemma_split_nonempty(d.line + s0, '\n');
        let p = split_spec(d.line + s0, '\n');
        if x == '\n' {
            assert(p.push(seq![]).drop_last() =~= p);
            assert(p.map_values(|l: Seq<char>| trim_spec(l)) =~= p.drop_last().map_values(
                |l: Seq<char>| trim_spec(l),
            ).push(trim_spec(p.last())));
        } else {
            assert(p.drop_last().push(p.last().push(x)).drop_last() =~= p.drop_last());
        }
    }
}

/// How the stream is cut into pieces does not matter: feeding two pieces
/// one after the other hands back the same lines, and leaves the decoder in
/// the same state, as feeding them joined.
pub proof fn law_feed_split(d: DecoderView, s1: Seq<char>, s2: Seq<char>)
    ensures
        feed_spec(d, s1 + s2).0 == feed_spec(d, s1).0 + feed_spec(feed_spec(d, s1).1, s2).0,
        feed_spec(d, s1 + s2).1 == feed_spec(feed_spec(d, s1).1, s2).1,
    decreases s2.len(),
{
    if s2.len() == 0 {
        assert(s1 + s2 =~= s1);
        assert(feed_spec(d, s1).0 + Seq::<Seq<char>>::empty() =~= feed_spec(d, s1).0);
    } else {
        law_feed_split(d, s1, s2.drop_last());
        assert((s1 + s2).drop_last() =~= s1 + s2.drop_last());
        assert((s1 + s2).last() == s2.last());
        let d1 = feed_spec(d, s1).1;
        let (o2, e2) = feed_spec(d1, s2.drop_last());
        if s2.last() == '\n' {
            assert(feed_spec(d, s1).0 + o2.push(trim_spec(e2.line)) =~= (feed_spec(d, s1).0
                + o2).push(trim_spec(e2.line)));
        }
    }
}

/// With thinking hidden (`--no-thinking`), no thinking is ever shown: a
/// chunk prints nothing and starts no thinking, whatever it carries.
pub proof fn law_hidden_thinking(
    d: DecoderView,
    reasoning: Option<Seq<char>>,
    content: Option<Seq<char>>,
    finished: bool,
)
    requires
        !d.show_thinking,
        !d.thinking_started,
    ensures
        chunk_output_spec(d, reasoning, content, finished) == Seq::<char>::empty(),
        !chunk_state_spec(d, reasoning, content).thinking_started,
        !chunk_state_spec(d, reasoning, content).show_thinking,
{
    assert(chunk_output_spec(d, reasoning, content, finished) =~= Seq::<char>::empty());
}

/// Decodes the streamed answer of the model.
pub struct StreamDecoder {
    content: String,
    line: String,
    thinking_started: bool,
    thinking_ended: bool,
    show_thinking: bool,
    no_color: bool,
}

impl View for StreamDecoder {
    type V = DecoderView;

    closed spec fn view(&self) -> DecoderView {
        DecoderView {
            content: self.content@,
            line: self.line@,
            thinking_started: self.thinking_started,
            thinking_ended: self.thinking_ended,
            show_thinking: self.show_thinking,
            no_color: self.no_color,
        }
    }
}

fn colour_code(no_color: bool, code: &str) -> (s: String)
    ensures
        s@ == colour(no_color, code@),
{
    if no_color {
        String::new()
    } else {
        code.to_owned()
    }
}

impl StreamDecoder {
    /// A decoder at the start of an answer.
    pub fn new(show_thinking: bool, no_color: bool) -> (d: StreamDecoder)
        ensures
            d@ == (DecoderView {
                content: seq![],
                line: seq![],
                thinking_started: false,
                thinking_ended: false,
                show_thinking,
                no_color,
            }),
    {
        StreamDecoder {
            content: String::new(),
            line: String::new(),
            thinking_started: false,
            thinking_ended: false,
            show_thinking,
            no_color,
        }
    }

    /// Feeds one character of the stream; at a line break, hands back the
    /// finished line, trimmed, and starts a new one.
    pub fn push_char(&mut self, ch: char) -> (r: Option<String>)
        ensures
            ch == '\n' ==> (r matches Some(l) && l@ == trim_spec(old(self)@.line)
                && final(self)@ == (DecoderView { line: seq![], ..old(self)@ })),
            ch != '\n' ==> r is None && final(self)@ == (DecoderView {
                line: old(self)@.line.push(ch),
                ..old(self)@
            }),
    {
        if ch == '\n' {
            let l = trim(self.line.as_str());
            self.line = String::new();
            Some(l)
        } else {
            crate::text::push_char(&mut self.line, ch);
            None
        }
    }

    /// Feeds a piece of the stream; hands back the lines it completes,
    /// trimmed, in order, and keeps an unfinished last line for later.
    pub fn push_text(&mut self, text: &str) -> (lines: Vec<String>)
        ensures
            views(lines@) == feed_spec(old(self)@, text@).0,
            final(self)@ == feed_spec(old(self)@, text@).1,
    {
        let v = crate::text::to_chars(text);
        let mut out: Vec<String> = Vec::new();
        let mut i: usize = 0;
        while i < v.len()
            invariant
                0 <= i <= v@.len(),
                v@ == text@,
                views(out@) == feed_spec(old(self)@, text@.take(i as int)).0,
                self@ == feed_spec(old(self)@, text@.take(i as int)).1,
            decreases v@.len() - i,
        {
            proof {
                assert(text@.take(i + 1).drop_last() =~= text@.take(i as int));
                assert(text@.take(i + 1).last() == v@[i as int]);
            }
            let ghost old_out = out@;
            match self.push_char(v[i]) {
                Some(l) => {
                    out.push(l);
                    assert(views(out@) =~= views(old_out).push(out@[old_out.len() as int]@));
                },
                None => {},
            }
            i = i + 1;
        }
        assert(text@.take(v@.len() as int) =~= text@);
        out
    }

    /// Applies a chunk of the answer.
    pub fn apply_chunk(&mut self, chunk: &StreamChunk) -> (o: ChunkOutcome)
        ensures
            final(self)@ == chunk_state_spec(
                old(self)@,
                crate::strmap::opt_view(chunk.reasoning),
                crate::strmap::opt_view(chunk.content),
            ),
            o.stderr@ == chunk_output_spec(
                old(self)@,
                crate::strmap::opt_view(chunk.reasoning),
                crate::strmap::opt_view(chunk.content),
                chunk.finished,
            ),
            o.finished == chunk.finished,
    {
        let mut out = String::new();
        if self.show_thinking {
            if let Some(r) = &chunk.reasoning {
                if !r.as_str().is_empty() {
                    if !self.thinking_started {
                        self.thinking_started = true;
                        push_str(&mut out, colour_code(self.no_color, "\x1b[90m").as_str());
                    }
                    push_str(&mut out, r.as_str());
                }
            }
        }
        if let Some(t) = &chunk.content {
            if !t.as_str().is_empty() {
                if self.thinking_started && !self.thinking_ended {
                    self.thinking_ended = true;
                    push_str(&mut out, colour_code(self.no_color, "\x1b[0m").as_str());
                    push_str(&mut out, "\n");
                }
                push_str(&mut self.content, t.as_str());
            }
        }
        if chunk.finished {
            let closing = self.closing();
            push_str(&mut out, closing.as_str());
        }
        ChunkOutcome { stderr: out, finished: chunk.finished }
    }

    /// The text that closes thinking still shown, to print when the answer ends.
    pub fn closing(&self) -> (s: String)
        ensures
            s@ == closing_spec(self@),
    {
        if self.thinking_started && !self.thinking_ended {
            let mut s = colour_code(self.no_color, "\x1b[0m");
            push_str(&mut s, "\n");
            s
        } else {
            String::new()
        }
    }

    /// The answer text gathered so far.
    pub fn content(&self) -> (s: String)
        ensures
            s@ == self@.content,
    {
        self.content.clone()
    }
}

} // verus!
