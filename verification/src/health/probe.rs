//! Health check probes: what is sent, and what an answer means.

use vstd::prelude::*;

use crate::base::text::chars_of;
use crate::types::backend::Backend;

verus! {

#[derive(Debug)]
pub enum ProbeResult {
    Success,
    Failure(String),
}

impl ProbeResult {
    pub fn is_success(&self) -> (b: bool)
        ensures
            b == (*self is Success),
    {
        match self {
            ProbeResult::Success => true,
            ProbeResult::Failure(_) => false,
        }
    }

    /// Whether the result is a failure in these words.
    pub open spec fn fails_with(self, text: Seq<char>) -> bool {
        self matches ProbeResult::Failure(m) && m@ == text
    }
}

#[derive(Debug)]
pub enum ProbeError {
    Timeout,
    ConnectionFailed(String),
    UnexpectedResponse(String),
}

impl ProbeError {
    /// The error in words.
    pub open spec fn text(self) -> Seq<char> {
        match self {
            ProbeError::Timeout => "probe timed out"@,
            ProbeError::ConnectionFailed(e) => "connection failed: "@ + e@,
            ProbeError::UnexpectedResponse(e) => "unexpected response: "@ + e@,
        }
    }

    /// The error in words.
    pub fn message(&self) -> (s: String)
        ensures
            s@ == self.text(),
    {
        match self {
            ProbeError::Timeout => "probe timed out".to_string(),
            ProbeError::ConnectionFailed(e) => prefixed("connection failed: ", e.as_str()),
            ProbeError::UnexpectedResponse(e) => prefixed("unexpected response: ", e.as_str()),
        }
    }
}

fn prefixed(prefix: &str, text: &str) -> (s: String)
    ensures
        s@ == prefix@ + text@,
{
    let mut s = prefix.to_string();
    s.append(text);
    s
}

/// How a step of a probe went.
#[derive(Debug)]
pub enum Attempt {
    Done,
    /// It failed, in words.
    Failed(String),
    TimedOut,
}

/// A step of a probe that has a time limit.
#[derive(Debug, Clone, Copy, PartialEq, Eq, Structural)]
pub enum ProbeStep {
    /// The only step of a TCP probe.
    TcpConnect,
    Connect,
    TlsHandshake,
    Read,
}

/// A step of writing the request.
#[derive(Debug, Clone, Copy, PartialEq, Eq, Structural)]
pub enum WriteStep {
    /// Waiting until the stream takes bytes.
    Ready,
    Write,
}

/// How a failed step is reported.
pub open spec fn failure_prefix(step: ProbeStep) -> Seq<char> {
    match step {
        ProbeStep::TcpConnect => "tcp connect failed: "@,
        ProbeStep::Connect => "connect failed: "@,
        ProbeStep::TlsHandshake => "TLS handshake failed: "@,
        ProbeStep::Read => "read error: "@,
    }
}

/// How a step that took too long is reported.
pub open spec fn timeout_text(step: ProbeStep) -> Seq<char> {
    match step {
        ProbeStep::TcpConnect => "tcp connect timed out"@,
        ProbeStep::Connect => "connect timed out"@,
        ProbeStep::TlsHandshake => "TLS handshake timed out"@,
        ProbeStep::Read => "read timed out"@,
    }
}

/// What a step means for the probe: it goes on after a step that succeeded, and
/// has failed otherwise.
pub fn step_result(step: ProbeStep, attempt: Attempt) -> (r: ProbeResult)
    ensures
        match attempt {
            Attempt::Done => r is Success,
            Attempt::Failed(e) => r.fails_with(failure_prefix(step) + e@),
            Attempt::TimedOut => r.fails_with(timeout_text(step)),
        },
{
    match attempt {
        Attempt::Done => ProbeResult::Success,
        Attempt::Failed(e) => {
            let prefix = match step {
                ProbeStep::TcpConnect => "tcp connect failed: ",
                ProbeStep::Connect => "connect failed: ",
                ProbeStep::TlsHandshake => "TLS handshake failed: ",
                ProbeStep::Read => "read error: ",
            };
            ProbeResult::Failure(prefixed(prefix, e.as_str()))
        },
        Attempt::TimedOut => {
            let text = match step {
                ProbeStep::TcpConnect => "tcp connect timed out",
                ProbeStep::Connect => "connect timed out",
                ProbeStep::TlsHandshake => "TLS handshake timed out",
                ProbeStep::Read => "read timed out",
            };
            ProbeResult::Failure(text.to_string())
        },
    }
}

/// What a failure to write the request means, the error given in words.
pub fn write_failure(step: WriteStep, error: &str) -> (r: ProbeResult)
    ensures
        r.fails_with(
            (match step {
                WriteStep::Ready => "stream not writable: "@,
                WriteStep::Write => "write failed: "@,
            }) + error@,
        ),
{
    let prefix = match step {
        WriteStep::Ready => "stream not writable: ",
        WriteStep::Write => "write failed: ",
    };
    ProbeResult::Failure(prefixed(prefix, error))
}

/// TCP health check: success if a TCP connection can be established.
#[derive(Debug)]
pub struct TcpProbe;

impl TcpProbe {
    /// What a connection attempt means.
    pub fn judge(&self, attempt: Attempt) -> (r: ProbeResult)
        ensures
            match attempt {
                Attempt::Done => r is Success,
                Attempt::Failed(e) => r.fails_with("tcp connect failed: "@ + e@),
                Attempt::TimedOut => r.fails_with("tcp connect timed out"@),
            },
    {
        step_result(ProbeStep::TcpConnect, attempt)
    }
}

/// HTTP health check: success if an HTTP GET returns a 2xx status.
#[derive(Debug)]
pub struct HttpProbe {
    pub path: String,
}

/// A minimal HTTP/1.1 GET request.
pub open spec fn request_text(path: Seq<char>, target: Backend) -> Seq<char> {
    "GET "@ + path + " HTTP/1.1\r\nHost: "@ + target.ip.text() + "\r\nConnection: close\r\n\r\n"@
}

impl HttpProbe {
    pub fn new(path: String) -> (p: HttpProbe)
        ensures
            p.path == path,
    {
        HttpProbe { path }
    }

    /// The request that the probe sends.
    pub fn request(&self, target: &Backend) -> (s: String)
        ensures
            s@ == request_text(self.path@, *target),
    {
        let mut s = "GET ".to_string();
        s.append(self.path.as_str());
        s.append(" HTTP/1.1\r\nHost: ");
        target.ip.push_text(&mut s);
        s.append("\r\nConnection: close\r\n\r\n");
        s
    }
}

/// The text of some bytes, with invalid UTF-8 replaced.
pub uninterp spec fn lossy_text(bytes: Seq<u8>) -> Seq<char>;

/// Calls `String::from_utf8_lossy`. Claims that the text depends on the bytes
/// alone. What replaces invalid sequences is left unsaid.
#[verifier::external_body]
fn from_utf8_lossy(bytes: &[u8]) -> (s: String)
    ensures
        s@ == lossy_text(bytes@),
{
    String::from_utf8_lossy(bytes).into_owned()
}

/// Where the first `c` is, or the length if there is none.
pub open spec fn position_of(s: Seq<char>, c: char) -> int
    decreases s.len(),
{
    if s.len() == 0 || s[0] == c {
        0
    } else {
        1 + position_of(s.drop_first(), c)
    }
}

/// The first line, without the line feed that ends it and a carriage return
/// before that.
pub open spec fn first_line(s: Seq<char>) -> Seq<char> {
    let n = position_of(s, '\n');
    if n < s.len() && n > 0 && s[n - 1] == '\r' {
        s.take(n - 1)
    } else {
        s.take(n)
    }
}

/// Whether `c` is a decimal digit.
pub open spec fn is_digit(c: char) -> bool {
    '0' <= c <= '9'
}

/// The status code of a status line: what stands between the first space and
/// the next.
pub open spec fn status_code(line: Seq<char>) -> Option<Seq<char>> {
    let i = position_of(line, ' ');
    if i < line.len() {
        let behind = line.skip(i + 1);
        Some(behind.take(position_of(behind, ' ')))
    } else {
        None
    }
}

/// Whether a status line reports a 2xx status: its code is three digits of which
/// the first is a two.
pub open spec fn has_2xx(line: Seq<char>) -> bool {
    status_code(line) matches Some(code) && code.len() == 3 && code[0] == '2' && is_digit(code[1])
        && is_digit(code[2])
}

proof fn lemma_position_of(s: Seq<char>, c: char)
    ensures
        0 <= position_of(s, c) <= s.len(),
        position_of(s, c) < s.len() ==> s[position_of(s, c)] == c,
        forall|i: int| 0 <= i < position_of(s, c) ==> #[trigger] s[i] != c,
    decreases s.len(),
{
    if s.len() > 0 && s[0] != c {
        let t = s.drop_first();
        lemma_position_of(t, c);
        assert forall|i: int| 0 <= i < position_of(s, c) implies #[trigger] s[i] != c by {
            if i > 0 {
                assert(t[i - 1] == s[i]);
            }
        }
    }
}

proof fn lemma_position_unique(s: Seq<char>, c: char, k: int)
    requires
        0 <= k <= s.len(),
        k < s.len() ==> s[k] == c,
        forall|i: int| 0 <= i < k ==> #[trigger] s[i] != c,
    ensures
        position_of(s, c) == k,
{
    lemma_position_of(s, c);
    let p = position_of(s, c);
    if p < k {
        assert(s[p] != c);
    } else if k < p {
        assert(s[k] != c);
    }
}

/// The index of the first `c` in the first `end` characters, or `end` if there
/// is none.
fn find_char(v: &Vec<char>, end: usize, c: char) -> (n: usize)
    requires
        end <= v@.len(),
    ensures
        n == position_of(v@.take(end as int), c),
        n <= end,
{
    let mut n: usize = 0;
    while n < end && v[n] != c
        invariant
            n <= end <= v@.len(),
            forall|i: int| 0 <= i < n ==> #[trigger] v@[i] != c,
        decreases end - n,
    {
        n = n + 1;
    }
    proof {
        lemma_position_unique(v@.take(end as int), c, n as int);
    }
    n
}

fn char_is_digit(c: char) -> (b: bool)
    ensures
        b == is_digit(c),
{
    '0' <= c && c <= '9'
}

/// Whether the first `end` characters are a status line that reports a 2xx
/// status.
fn reports_2xx(v: &Vec<char>, end: usize) -> (b: bool)
    requires
        end <= v@.len(),
    ensures
        b == has_2xx(v@.take(end as int)),
{
    let ghost line = v@.take(end as int);
    let i: usize = find_char(v, end, ' ');
    proof {
        lemma_position_of(line, ' ');
    }
    if i == end {
        return false;
    }
    let ghost behind = line.skip(i + 1);
    proof {
        lemma_position_of(behind, ' ');
        assert(behind.len() == end - i - 1);
        assert forall|k: int| 0 <= k < behind.len() implies #[trigger] behind[k] == v@[i + 1
            + k] by {}
    }
    if end - i < 4 {
        return false;
    }
    let b: bool = v[i + 1] == '2' && char_is_digit(v[i + 2]) && char_is_digit(v[i + 3]) && (end - i
        == 4 || v[i + 4] == ' ');
    proof {
        assert(behind[0] == v@[i + 1] && behind[1] == v@[i + 2] && behind[2] == v@[i + 3]);
        if b {
            lemma_position_unique(behind, ' ', 3);
        } else if has_2xx(line) {
            assert(position_of(behind, ' ') == 3);
        }
    }
    b
}

/// What the text of an answer means: success if its first line reports a 2xx
/// status.
pub fn classify_text(response: &str) -> (r: ProbeResult)
    ensures
        response@.len() == 0 ==> r.fails_with("empty response"@),
        response@.len() > 0 && has_2xx(first_line(response@)) ==> r is Success,
        response@.len() > 0 && !has_2xx(first_line(response@)) ==> r.fails_with(
            "non-2xx response: "@ + first_line(response@),
        ),
{
    let v: Vec<char> = chars_of(response);
    if v.len() == 0 {
        return ProbeResult::Failure("empty response".to_string());
    }
    let n: usize = find_char(&v, v.len(), '\n');
    assert(v@.take(v@.len() as int) =~= v@);
    let end: usize = if n < v.len() && n > 0 && v[n - 1] == '\r' {
        n - 1
    } else {
        n
    };
    let ghost line = first_line(response@);
    assert(line == v@.take(end as int));
    if reports_2xx(&v, end) {
        return ProbeResult::Success;
    }
    let mut m = "non-2xx response: ".to_string();
    let head: &str = response.substring_char(0, end);
    m.append(head);
    assert(response@.subrange(0, end as int) =~= line);
    ProbeResult::Failure(m)
}

/// What the bytes of an answer mean.
pub fn classify_response(data: &[u8]) -> (r: ProbeResult)
    ensures
        data@.len() == 0 ==> r.fails_with("no response data"@),
        data@.len() > 0 ==> ({
            let text = lossy_text(data@);
            if text.len() == 0 {
                r.fails_with("empty response"@)
            } else if has_2xx(first_line(text)) {
                r is Success
            } else {
                r.fails_with("non-2xx response: "@ + first_line(text))
            }
        }),
{
    if data.len() == 0 {
        return ProbeResult::Failure("no response data".to_string());
    }
    let text: String = from_utf8_lossy(data);
    classify_text(text.as_str())
}

/// Whether a status line can go on like this behind its code: it ends, with or
/// without a carriage return, or a space follows.
pub open spec fn after_code(rest: Seq<char>) -> bool {
    rest.len() == 0 || rest[0] == ' ' || rest[0] == '\n' || (rest.len() > 1 && rest[0] == '\r'
        && rest[1] == '\n')
}

proof fn lemma_status_code(version: Seq<char>, code: Seq<char>, rest: Seq<char>)
    requires
        forall|i: int|
            0 <= i < version.len() ==> #[trigger] version[i] != '\n' && version[i] != ' ',
        code.len() == 3,
        forall|i: int| 0 <= i < 3 ==> is_digit(#[trigger] code[i]),
        after_code(rest),
    ensures
        status_code(first_line(version + seq![' '] + code + rest)) == Some(code),
{
    let s = version + seq![' '] + code + rest;
    let k = version.len() as int;
    let n = position_of(s, '\n');
    lemma_position_of(s, '\n');
    assert(s[k] == ' ');
    assert forall|j: int| 0 <= j < 3 implies s[k + 1 + j] == code[j] by {}
    assert(is_digit(code[0]) && is_digit(code[1]) && is_digit(code[2]));
    assert forall|i: int| 0 <= i < k implies #[trigger] s[i] != '\n' && s[i] != ' ' by {
        assert(s[i] == version[i]);
    }
    assert(rest.len() > 0 ==> s[k + 4] == rest[0]);
    assert(rest.len() > 1 ==> s[k + 5] == rest[1]);
    assert(s[k + 3] == code[2]);
    assert(n >= k + 4) by {
        if n < k + 4 {
            assert(n < s.len());
            if n < k {
                assert(s[n] == version[n]);
            } else if n > k {
                assert(s[k + 1 + (n - k - 1)] == code[n - k - 1]);
            }
        }
    }
    let line = first_line(s);
    assert(s[k + 3] != '\r');
    assert(line.len() >= k + 4);
    assert forall|i: int| 0 <= i < line.len() implies line[i] == s[i] by {}
    lemma_position_unique(line, ' ', k);
    let behind = line.skip(k + 1);
    assert(behind.len() > 3 ==> behind[3] == ' ') by {
        if behind.len() > 3 {
            assert(behind[3] == s[k + 4]);
            if s[k + 4] == '\n' {
                lemma_position_unique(s, '\n', k + 4);
            } else if s[k + 4] == '\r' {
                lemma_position_unique(s, '\n', k + 5);
            }
        }
    }
    assert(behind[0] == code[0] && behind[1] == code[1] && behind[2] == code[2]);
    lemma_position_unique(behind, ' ', 3);
    assert(behind.take(3) =~= code);
}

/// A status line with the protocol version and a 2xx code is a success, whatever
/// reason follows it.
pub proof fn ok_status_is_success(version: Seq<char>, code: Seq<char>, rest: Seq<char>)
    requires
        forall|i: int|
            0 <= i < version.len() ==> #[trigger] version[i] != '\n' && version[i] != ' ',
        code.len() == 3,
        forall|i: int| 0 <= i < 3 ==> is_digit(#[trigger] code[i]),
        code[0] == '2',
        after_code(rest),
    ensures
        has_2xx(first_line(version + seq![' '] + code + rest)),
{
    lemma_status_code(version, code, rest);
    assert(is_digit(code[1]) && is_digit(code[2]));
}

/// A status line with any other code is none, whatever reason follows it.
pub proof fn other_status_is_failure(version: Seq<char>, code: Seq<char>, rest: Seq<char>)
    requires
        forall|i: int|
            0 <= i < version.len() ==> #[trigger] version[i] != '\n' && version[i] != ' ',
        code.len() == 3,
        forall|i: int| 0 <= i < 3 ==> is_digit(#[trigger] code[i]),
        code[0] != '2',
        after_code(rest),
    ensures
        !has_2xx(first_line(version + seq![' '] + code + rest)),
{
    lemma_status_code(version, code, rest);
}

} // verus!
