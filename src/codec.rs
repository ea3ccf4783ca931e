//! The line-framed wire protocol: requests from client to node, and the
//! responses that come back.
use vstd::prelude::*;
use vstd::slice::slice_subrange;
use vstd::utf8::*;
use crate::decimal::{decimal_bytes, parse_u8, parse_usize, push_decimal_bytes, read_decimal};
use crate::escape::{escape, escape_text, unescape, unescape_text};
use crate::text::utf8_text;

verus! {

/// A request decoded from a frame.
#[derive(Debug, PartialEq)]
pub enum JobEvent {
    /// Register a command template.
    Command(String),
    /// Run one input: the command's handle, the job id, the input.
    Input(usize, usize, String),
    /// List the registered commands.
    GetCommands,
    /// Report the node's core count.
    GetCores,
    /// Stop the slots of a command and free its handle.
    StopJob(usize),
}

/// A request, with its strings as characters.
pub enum JobEventView {
    Command(Seq<char>),
    Input(nat, nat, Seq<char>),
    GetCommands,
    GetCores,
    StopJob(nat),
}

impl View for JobEvent {
    type V = JobEventView;

    open spec fn view(&self) -> JobEventView {
        match self {
            JobEvent::Command(t) => JobEventView::Command(t@),
            JobEvent::Input(c, j, x) => JobEventView::Input(*c as nat, *j as nat, x@),
            JobEvent::GetCommands => JobEventView::GetCommands,
            JobEvent::GetCores => JobEventView::GetCores,
            JobEvent::StopJob(h) => JobEventView::StopJob(*h as nat),
        }
    }
}

/// A response to a request.
#[derive(Debug, PartialEq)]
pub enum ResponseEvent {
    /// The input with this job id could not be run.
    Error(usize, String),
    /// A finished job: its id, exit status, standard output and standard error.
    Output(usize, u8, String, String),
    /// One line of information.
    Info(String),
}

/// A response, with its strings as characters.
pub enum ResponseEventView {
    Error(nat, Seq<char>),
    Output(nat, nat, Seq<char>, Seq<char>),
    Info(Seq<char>),
}

impl View for ResponseEvent {
    type V = ResponseEventView;

    open spec fn view(&self) -> ResponseEventView {
        match self {
            ResponseEvent::Error(id, m) => ResponseEventView::Error(*id as nat, m@),
            ResponseEvent::Output(id, s, o, e) => ResponseEventView::Output(
                *id as nat,
                *s as nat,
                o@,
                e@,
            ),
            ResponseEvent::Info(s) => ResponseEventView::Info(s@),
        }
    }
}

/// Why a frame was refused.
#[derive(Clone, Copy, Debug, PartialEq, Eq, Structural)]
pub enum CodecError {
    /// The frame body is shorter than five bytes.
    InvalidCall,
    /// The verb is unknown, or not followed by a space.
    InvalidInstruction,
    /// Text that must be UTF-8 is not.
    InvalidUtf8,
    /// A field that must be a decimal number is not, or is too large.
    NotANumber,
    /// `get` asks for something other than `cores` or `comms`.
    UnsupportedValue,
    /// A field separated by a space is missing.
    NotEnoughArguments,
    /// A line ends in a line feed with no carriage return before it.
    BareLineFeed,
}

/// The index of the first `b` in `s`, or the length of `s` if there is none.
pub open spec fn first_byte(s: Seq<u8>, b: u8) -> int
    decreases s.len(),
{
    if s.len() == 0 {
        0
    } else if s[0] == b {
        0
    } else {
        1 + first_byte(s.drop_first(), b)
    }
}

/// `first_byte` is the one index before which `b` does not occur and at which
/// it does, or the end.
pub proof fn lemma_first_byte(s: Seq<u8>, b: u8, i: int)
    ensures
        0 <= first_byte(s, b) <= s.len(),
        first_byte(s, b) < s.len() ==> s[first_byte(s, b)] == b,
        0 <= i < first_byte(s, b) ==> s[i] != b,
        (0 <= i <= s.len() && (i < s.len() ==> s[i] == b) && forall|j: int|
            0 <= j < i ==> s[j] != b) ==> first_byte(s, b) == i,
    decreases s.len(),
{
    if s.len() > 0 && s[0] != b {
        let t = s.drop_first();
        lemma_first_byte(t, b, i - 1);
        if 0 <= i <= s.len() && (i < s.len() ==> s[i] == b) && forall|j: int|
            0 <= j < i ==> s[j] != b {
            assert(i > 0);
            assert forall|j: int| 0 <= j < i - 1 implies t[j] != b by {
                assert(t[j] == s[j + 1]);
            }
        }
    } else if s.len() > 0 {
        if 0 <= i <= s.len() && (i < s.len() ==> s[i] == b) && forall|j: int|
            0 <= j < i ==> s[j] != b {
            if i > 0 {
                assert(s[0] != b);
            }
        }
    }
}

/// `first_byte` over a sequence that does not hold `b` until a prefix ends.
pub proof fn lemma_first_byte_after(a: Seq<u8>, rest: Seq<u8>, b: u8)
    requires
        !a.contains(b),
    ensures
        first_byte(a + rest, b) == a.len() + first_byte(rest, b),
{
    let s = a + rest;
    let k = first_byte(rest, b);
    lemma_first_byte(rest, b, 0);
    assert forall|j: int| 0 <= j < a.len() + k implies s[j] != b by {
        if j < a.len() {
            assert(s[j] == a[j]);
        } else {
            lemma_first_byte(rest, b, j - a.len());
        }
    }
    lemma_first_byte(s, b, a.len() + k);
}

/// The index of the first `b` in `s[from..to]`, counted from `from`, or
/// `to - from` if there is none.
pub fn find_byte(s: &[u8], from: usize, to: usize, b: u8) -> (r: usize)
    requires
        from <= to <= s@.len(),
    ensures
        r == first_byte(s@.subrange(from as int, to as int), b),
        r <= to - from,
{
    let ghost t = s@.subrange(from as int, to as int);
    let mut i: usize = from;
    while i < to && s[i] != b
        invariant
            from <= i <= to <= s@.len(),
            t == s@.subrange(from as int, to as int),
            forall|j: int| 0 <= j < i - from ==> t[j] != b,
        decreases to - i,
    {
        i = i + 1;
    }
    proof {
        lemma_first_byte(t, b, (i - from) as int);
    }
    i - from
}

/// Reads UTF-8 text, or fails with `InvalidUtf8`.
pub open spec fn read_text(b: Seq<u8>) -> Result<Seq<char>, CodecError> {
    if valid_utf8(b) {
        Ok(decode_utf8(b))
    } else {
        Err(CodecError::InvalidUtf8)
    }
}

/// Reads a decimal `usize`, or fails with `NotANumber`.
pub open spec fn read_id(b: Seq<u8>) -> Result<nat, CodecError> {
    match read_decimal(b, usize::MAX as nat) {
        Some(v) => Ok(v),
        None => Err(CodecError::NotANumber),
    }
}

/// The argument of `inp`: a handle, a space, a job id, a space, the input.
pub open spec fn parse_input_arg(arg: Seq<u8>) -> Result<JobEventView, CodecError> {
    let p = first_byte(arg, 32);
    if p >= arg.len() {
        Err(CodecError::NotEnoughArguments)
    } else {
        match read_id(arg.subrange(0, p)) {
            Err(e) => Err(e),
            Ok(cid) => {
                let rest = arg.subrange(p + 1, arg.len() as int);
                let q = first_byte(rest, 32);
                if q >= rest.len() {
                    Err(CodecError::NotEnoughArguments)
                } else {
                    match read_id(rest.subrange(0, q)) {
                        Err(e) => Err(e),
                        Ok(jid) => match read_text(rest.subrange(q + 1, rest.len() as int)) {
                            Err(e) => Err(e),
                            Ok(x) => Ok(JobEventView::Input(cid, jid, x)),
                        },
                    }
                }
            },
        }
    }
}

/// The bytes of `com`.
pub open spec fn verb_com() -> Seq<u8> {
    seq![99u8, 111u8, 109u8]
}

/// The bytes of `inp`.
pub open spec fn verb_inp() -> Seq<u8> {
    seq![105u8, 110u8, 112u8]
}

/// The bytes of `get`.
pub open spec fn verb_get() -> Seq<u8> {
    seq![103u8, 101u8, 116u8]
}

/// The bytes of `del`.
pub open spec fn verb_del() -> Seq<u8> {
    seq![100u8, 101u8, 108u8]
}

/// The bytes of `comms`.
pub open spec fn word_comms() -> Seq<u8> {
    seq![99u8, 111u8, 109u8, 109u8, 115u8]
}

/// The bytes of `cores`.
pub open spec fn word_cores() -> Seq<u8> {
    seq![99u8, 111u8, 114u8, 101u8, 115u8]
}

/// The request that a frame body (the bytes before CR LF) holds.
pub open spec fn parse_request(body: Seq<u8>) -> Result<JobEventView, CodecError> {
    if body.len() < 5 {
        Err(CodecError::InvalidCall)
    } else if body[3] != 32 {
        Err(CodecError::InvalidInstruction)
    } else {
        let verb = body.subrange(0, 3);
        let arg = body.subrange(4, body.len() as int);
        if verb == verb_com() {
            match read_text(arg) {
                Ok(t) => Ok(JobEventView::Command(t)),
                Err(e) => Err(e),
            }
        } else if verb == verb_inp() {
            parse_input_arg(arg)
        } else if verb == verb_get() {
            if arg == word_comms() {
                Ok(JobEventView::GetCommands)
            } else if arg == word_cores() {
                Ok(JobEventView::GetCores)
            } else {
                Err(CodecError::UnsupportedValue)
            }
        } else if verb == verb_del() {
            match read_id(arg) {
                Ok(h) => Ok(JobEventView::StopJob(h)),
                Err(e) => Err(e),
            }
        } else {
            Err(CodecError::InvalidInstruction)
        }
    }
}

/// What decoding the front of `buf` gives: nothing while no line feed has
/// arrived, else the request of the first frame, or why it was refused, and
/// the number of bytes that the frame takes.
pub open spec fn decode_request(buf: Seq<u8>) -> Option<(Result<JobEventView, CodecError>, int)> {
    let i = first_byte(buf, 10);
    if i >= buf.len() {
        None
    } else if i == 0 || buf[i - 1] != 13 {
        Some((Err(CodecError::BareLineFeed), i + 1))
    } else {
        Some((parse_request(buf.subrange(0, i - 1)), i + 1))
    }
}

/// Reads UTF-8 text into a string, or fails with `InvalidUtf8`.
pub fn obtain(b: &[u8]) -> (r: Result<String, CodecError>)
    ensures
        match read_text(b@) {
            Ok(t) => r matches Ok(s) && s@ == t,
            Err(e) => r == Err::<String, CodecError>(e),
        },
{
    match utf8_text(b) {
        Some(s) => Ok(s),
        None => Err(CodecError::InvalidUtf8),
    }
}

/// Reads a decimal id, or fails with `NotANumber`.
fn id_arg(b: &[u8]) -> (r: Result<usize, CodecError>)
    ensures
        match read_id(b@) {
            Ok(v) => r == Ok::<usize, CodecError>(v as usize) && v <= usize::MAX,
            Err(e) => r == Err::<usize, CodecError>(e),
        },
{
    match parse_usize(b) {
        Some(v) => Ok(v),
        None => Err(CodecError::NotANumber),
    }
}

impl JobEvent {
    /// The `Command` event of a `com` argument: the template, as UTF-8 text.
    pub fn get_command(input: &[u8]) -> (r: Result<Option<JobEvent>, CodecError>)
        ensures
            match read_text(input@) {
                Ok(t) => r matches Ok(Some(JobEvent::Command(s))) && s@ == t,
                Err(e) => r == Err::<Option<JobEvent>, CodecError>(e),
            },
    {
        match obtain(input) {
            Ok(s) => Ok(Some(JobEvent::Command(s))),
            Err(e) => Err(e),
        }
    }

    /// The event of a `get` argument: `comms` or `cores`.
    pub fn get_option(input: &[u8]) -> (r: Result<Option<JobEvent>, CodecError>)
        ensures
            input@ == word_comms() ==> r == Ok::<Option<JobEvent>, CodecError>(Some(JobEvent::GetCommands)),
            input@ == word_cores() ==> r == Ok::<Option<JobEvent>, CodecError>(Some(JobEvent::GetCores)),
            input@ != word_comms() && input@ != word_cores() ==> r == Err::<Option<JobEvent>, CodecError>(
                CodecError::UnsupportedValue,
            ),
    {
        if input.len() == 5 && input[0] == 99 && input[1] == 111 {
            if input[2] == 109 && input[3] == 109 && input[4] == 115 {
                assert(input@ =~= word_comms());
                return Ok(Some(JobEvent::GetCommands));
            }
            if input[2] == 114 && input[3] == 101 && input[4] == 115 {
                assert(input@ =~= word_cores());
                return Ok(Some(JobEvent::GetCores));
            }
            assert(input@ != word_comms() && input@ != word_cores()) by {
                if input@ == word_comms() {
                    assert(input@[2] == 109 && input@[3] == 109 && input@[4] == 115);
                }
                if input@ == word_cores() {
                    assert(input@[2] == 114 && input@[3] == 101 && input@[4] == 115);
                }
            }
        } else {
            assert(input@ != word_comms() && input@ != word_cores()) by {
                if input@ == word_comms() || input@ == word_cores() {
                    assert(input@.len() == 5 && input@[0] == 99 && input@[1] == 111);
                }
            }
        }
        Err(CodecError::UnsupportedValue)
    }

    /// The `StopJob` event of a `del` argument: a decimal handle.
    pub fn del_command(input: &[u8]) -> (r: Result<Option<JobEvent>, CodecError>)
        ensures
            match read_id(input@) {
                Ok(h) => r == Ok::<Option<JobEvent>, CodecError>(Some(JobEvent::StopJob(h as usize))),
                Err(e) => r == Err::<Option<JobEvent>, CodecError>(e),
            },
    {
        match id_arg(input) {
            Ok(h) => Ok(Some(JobEvent::StopJob(h))),
            Err(e) => Err(e),
        }
    }

    /// The `Input` event of an `inp` argument: a handle, a job id and the
    /// input, separated by single spaces.
    pub fn get_input(input: &[u8]) -> (r: Result<Option<JobEvent>, CodecError>)
        ensures
            match parse_input_arg(input@) {
                Ok(v) => r matches Ok(Some(e)) && e@ == v,
                Err(e) => r == Err::<Option<JobEvent>, CodecError>(e),
            },
    {
        let n = input.len();
        let p = find_byte(input, 0, n, 32);
        assert(input@.subrange(0, n as int) == input@);
        if p >= n {
            return Err(CodecError::NotEnoughArguments);
        }
        let cid = match id_arg(slice_subrange(input, 0, p)) {
            Ok(v) => v,
            Err(e) => return Err(e),
        };
        let ghost rest = input@.subrange(p + 1, n as int);
        let q = find_byte(input, p + 1, n, 32);
        if q >= n - (p + 1) {
            return Err(CodecError::NotEnoughArguments);
        }
        let j = p + 1 + q;
        assert(rest.subrange(0, q as int) == input@.subrange(p + 1, j as int));
        let jid = match id_arg(slice_subrange(input, p + 1, j)) {
            Ok(v) => v,
            Err(e) => return Err(e),
        };
        assert(rest.subrange(q + 1, rest.len() as int) == input@.subrange(j + 1, n as int));
        match obtain(slice_subrange(input, j + 1, n)) {
            Ok(x) => Ok(Some(JobEvent::Input(cid, jid, x))),
            Err(e) => Err(e),
        }
    }
}

/// Reads the request of a frame body.
pub fn parse_frame(body: &[u8]) -> (r: Result<Option<JobEvent>, CodecError>)
    ensures
        match parse_request(body@) {
            Ok(v) => r matches Ok(Some(e)) && e@ == v,
            Err(e) => r == Err::<Option<JobEvent>, CodecError>(e),
        },
{
    let n = body.len();
    if n < 5 {
        return Err(CodecError::InvalidCall);
    }
    if body[3] != 32 {
        return Err(CodecError::InvalidInstruction);
    }
    let ghost verb = body@.subrange(0, 3);
    let arg = slice_subrange(body, 4, n);
    let (a, b, c) = (body[0], body[1], body[2]);
    assert(verb == seq![a, b, c]);
    if a == 99 && b == 111 && c == 109 {
        assert(verb == verb_com());
        JobEvent::get_command(arg)
    } else if a == 105 && b == 110 && c == 112 {
        assert(verb == verb_inp());
        JobEvent::get_input(arg)
    } else if a == 103 && b == 101 && c == 116 {
        assert(verb == verb_get());
        JobEvent::get_option(arg)
    } else if a == 100 && b == 101 && c == 108 {
        assert(verb == verb_del());
        JobEvent::del_command(arg)
    } else {
        assert(verb != verb_com() && verb != verb_inp() && verb != verb_get() && verb != verb_del()) by {
            if verb == verb_com() || verb == verb_inp() || verb == verb_get() || verb == verb_del() {
                assert(verb[0] == a && verb[1] == b && verb[2] == c);
            }
        }
        Err(CodecError::InvalidInstruction)
    }
}

/// The server's side of the protocol: decodes request frames and encodes
/// responses.
pub struct ConcurrCodec;

impl ConcurrCodec {
    /// Takes the first frame off `buf` and decodes its request. Gives
    /// `Ok(None)`, leaving `buf` as it was, while no line feed has arrived.
    pub fn decode(&mut self, buf: &mut Vec<u8>) -> (r: Result<Option<JobEvent>, CodecError>)
        ensures
            match decode_request(old(buf)@) {
                None => r == Ok::<Option<JobEvent>, CodecError>(None) && final(buf)@ == old(buf)@,
                Some((res, n)) => final(buf)@ == old(buf)@.subrange(n, old(buf)@.len() as int)
                    && match res {
                    Ok(v) => r matches Ok(Some(e)) && e@ == v,
                    Err(e) => r == Err::<Option<JobEvent>, CodecError>(e),
                },
            },
    {
        let n = buf.len();
        let i = find_byte(buf.as_slice(), 0, n, 10);
        assert(buf@.subrange(0, n as int) == buf@);
        if i >= n {
            return Ok(None);
        }
        let r = if i == 0 || buf[i - 1] != 13 {
            Err(CodecError::BareLineFeed)
        } else {
            parse_frame(slice_subrange(buf.as_slice(), 0, i - 1))
        };
        let rest = buf.split_off(i + 1);
        *buf = rest;
        r
    }

    /// Appends the frame of a response to `buf`.
    pub fn encode(&mut self, msg: ResponseEvent, buf: &mut Vec<u8>)
        ensures
            final(buf)@ == old(buf)@ + response_bytes(msg@),
    {
        let frame = encode_response(&msg);
        let mut frame = frame;
        buf.append(&mut frame);
    }
}

/// `s` followed by CR LF.
pub open spec fn line(s: Seq<u8>) -> Seq<u8> {
    s + seq![13u8, 10u8]
}

/// The frame of a request.
pub open spec fn request_bytes(e: JobEventView) -> Seq<u8> {
    line(
        match e {
            JobEventView::Command(t) => verb_com().push(32) + encode_utf8(t),
            JobEventView::Input(c, j, x) => verb_inp().push(32) + decimal_bytes(c).push(32)
                + decimal_bytes(j).push(32) + encode_utf8(x),
            JobEventView::GetCommands => verb_get().push(32) + word_comms(),
            JobEventView::GetCores => verb_get().push(32) + word_cores(),
            JobEventView::StopJob(h) => verb_del().push(32) + decimal_bytes(h),
        },
    )
}

/// The frame of a response. Output and error text is escaped, so that only
/// the two line feeds that part an output's fields stand in it before the
/// final CR LF.
pub open spec fn response_bytes(m: ResponseEventView) -> Seq<u8> {
    line(
        match m {
            ResponseEventView::Error(id, msg) => seq![69u8, 82u8, 82u8, 32u8] + decimal_bytes(
                id,
            ).push(32) + encode_utf8(escape_text(msg)),
            ResponseEventView::Output(id, st, o, e) => decimal_bytes(id).push(32) + decimal_bytes(
                st,
            ).push(10) + encode_utf8(escape_text(o)).push(10) + encode_utf8(escape_text(e)),
            ResponseEventView::Info(s) => encode_utf8(s),
        },
    )
}

/// Appends the UTF-8 bytes of `s` to `v`.
fn push_text(v: &mut Vec<u8>, s: &str)
    ensures
        final(v)@ == old(v)@ + encode_utf8(s@),
{
    let b = s.as_bytes();
    v.extend_from_slice(b);
}

/// Appends the bytes of `w` to `v`.
fn push_all(v: &mut Vec<u8>, w: &[u8])
    ensures
        final(v)@ == old(v)@ + w@,
{
    v.extend_from_slice(w);
}

/// The frame of a response.
pub fn encode_response(msg: &ResponseEvent) -> (r: Vec<u8>)
    ensures
        r@ == response_bytes(msg@),
{
    let mut v: Vec<u8> = Vec::new();
    match msg {
        ResponseEvent::Error(id, m) => {
            push_all(&mut v, &[69u8, 82u8, 82u8, 32u8]);
            push_decimal_bytes(&mut v, *id);
            v.push(32);
            let e = escape(m.as_str());
            push_text(&mut v, e.as_str());
        },
        ResponseEvent::Output(id, st, o, e) => {
            push_decimal_bytes(&mut v, *id);
            v.push(32);
            push_decimal_bytes(&mut v, *st as usize);
            v.push(10);
            let eo = escape(o.as_str());
            push_text(&mut v, eo.as_str());
            v.push(10);
            let ee = escape(e.as_str());
            push_text(&mut v, ee.as_str());
        },
        ResponseEvent::Info(s) => {
            push_text(&mut v, s.as_str());
        },
    }
    v.push(13);
    v.push(10);
    assert(v@ =~= response_bytes(msg@));
    v
}

/// The frame of a request.
pub fn encode_request(e: &JobEvent) -> (r: Vec<u8>)
    ensures
        r@ == request_bytes(e@),
{
    let mut v: Vec<u8> = Vec::new();
    match e {
        JobEvent::Command(t) => {
            push_all(&mut v, &[99u8, 111u8, 109u8, 32u8]);
            push_text(&mut v, t.as_str());
        },
        JobEvent::Input(c, j, x) => {
            push_all(&mut v, &[105u8, 110u8, 112u8, 32u8]);
            push_decimal_bytes(&mut v, *c);
            v.push(32);
            push_decimal_bytes(&mut v, *j);
            v.push(32);
            push_text(&mut v, x.as_str());
        },
        JobEvent::GetCommands => {
            push_all(&mut v, &[103u8, 101u8, 116u8, 32u8, 99u8, 111u8, 109u8, 109u8, 115u8]);
        },
        JobEvent::GetCores => {
            push_all(&mut v, &[103u8, 101u8, 116u8, 32u8, 99u8, 111u8, 114u8, 101u8, 115u8]);
        },
        JobEvent::StopJob(h) => {
            push_all(&mut v, &[100u8, 101u8, 108u8, 32u8]);
            push_decimal_bytes(&mut v, *h);
        },
    }
    v.push(13);
    v.push(10);
    assert(v@ =~= request_bytes(e@));
    v
}

/// The bytes of `ERR `.
pub open spec fn error_prefix() -> Seq<u8> {
    seq![69u8, 82u8, 82u8, 32u8]
}

/// An error line, CR included: `ERR <id> <escaped message>`.
pub open spec fn parse_error_line(ln: Seq<u8>) -> Result<ResponseEventView, CodecError> {
    if ln.len() < 5 || ln.last() != 13 {
        Err(CodecError::BareLineFeed)
    } else {
        let body = ln.subrange(4, ln.len() - 1);
        let p = first_byte(body, 32);
        if p >= body.len() {
            Err(CodecError::NotEnoughArguments)
        } else {
            match read_id(body.subrange(0, p)) {
                Err(e) => Err(e),
                Ok(id) => match read_text(body.subrange(p + 1, body.len() as int)) {
                    Err(e) => Err(e),
                    Ok(m) => Ok(ResponseEventView::Error(id, unescape_text(m))),
                },
            }
        }
    }
}

/// The three lines of an output: `<id> <status>`, the escaped standard
/// output, and the escaped standard error with the CR that ends the frame.
pub open spec fn parse_output(
    status: Seq<u8>,
    out: Seq<u8>,
    err: Seq<u8>,
) -> Result<ResponseEventView, CodecError> {
    if err.len() == 0 || err.last() != 13 {
        Err(CodecError::BareLineFeed)
    } else {
        let p = first_byte(status, 32);
        if p >= status.len() {
            Err(CodecError::NotEnoughArguments)
        } else {
            match read_id(status.subrange(0, p)) {
                Err(e) => Err(e),
                Ok(id) => match read_decimal(status.subrange(p + 1, status.len() as int), 255) {
                    None => Err(CodecError::NotANumber),
                    Some(st) => match read_text(out) {
                        Err(e) => Err(e),
                        Ok(o) => match read_text(err.subrange(0, err.len() - 1)) {
                            Err(e) => Err(e),
                            Ok(x) => Ok(
                                ResponseEventView::Output(id, st, unescape_text(o), unescape_text(x)),
                            ),
                        },
                    },
                },
            }
        }
    }
}

/// What decoding the front of `buf` gives when the answer to an input is
/// awaited: nothing while the frame is incomplete, else the error or output
/// it holds, or why it was refused, and the number of bytes it takes.
pub open spec fn decode_result(buf: Seq<u8>) -> Option<(Result<ResponseEventView, CodecError>, int)> {
    let i = first_byte(buf, 10);
    if i >= buf.len() {
        None
    } else {
        let ln = buf.subrange(0, i);
        if ln.len() >= 4 && ln.subrange(0, 4) == error_prefix() {
            Some((parse_error_line(ln), i + 1))
        } else {
            let r1 = buf.subrange(i + 1, buf.len() as int);
            let j = first_byte(r1, 10);
            if j >= r1.len() {
                None
            } else {
                let r2 = r1.subrange(j + 1, r1.len() as int);
                let k = first_byte(r2, 10);
                if k >= r2.len() {
                    None
                } else {
                    Some(
                        (
                            parse_output(ln, r1.subrange(0, j), r2.subrange(0, k)),
                            i + 1 + j + 1 + k + 1,
                        ),
                    )
                }
            }
        }
    }
}

/// What decoding the front of `buf` gives when one line of information is
/// awaited.
pub open spec fn decode_info(buf: Seq<u8>) -> Option<(Result<Seq<char>, CodecError>, int)> {
    let i = first_byte(buf, 10);
    if i >= buf.len() {
        None
    } else if i == 0 || buf[i - 1] != 13 {
        Some((Err(CodecError::BareLineFeed), i + 1))
    } else {
        Some((read_text(buf.subrange(0, i - 1)), i + 1))
    }
}

/// Whether a decoded response matches a result over views.
pub open spec fn response_matches(
    r: Result<ResponseEvent, CodecError>,
    s: Result<ResponseEventView, CodecError>,
) -> bool {
    match s {
        Ok(v) => r matches Ok(e) && e@ == v,
        Err(e) => r == Err::<ResponseEvent, CodecError>(e),
    }
}

/// Reads an error line.
fn error_line(ln: &[u8]) -> (r: Result<ResponseEvent, CodecError>)
    ensures
        response_matches(r, parse_error_line(ln@)),
{
    let n = ln.len();
    if n < 5 || ln[n - 1] != 13 {
        return Err(CodecError::BareLineFeed);
    }
    let ghost body = ln@.subrange(4, n - 1);
    let p = find_byte(ln, 4, n - 1, 32);
    if p >= n - 5 {
        return Err(CodecError::NotEnoughArguments);
    }
    assert(body.subrange(0, p as int) == ln@.subrange(4, 4 + p));
    let id = match id_arg(slice_subrange(ln, 4, 4 + p)) {
        Ok(v) => v,
        Err(e) => return Err(e),
    };
    assert(body.subrange(p + 1, body.len() as int) == ln@.subrange(4 + p + 1, n - 1));
    match obtain(slice_subrange(ln, 4 + p + 1, n - 1)) {
        Ok(m) => Ok(ResponseEvent::Error(id, unescape(m.as_str()))),
        Err(e) => Err(e),
    }
}

/// Reads the three lines of an output.
fn output_lines(status: &[u8], out: &[u8], err: &[u8]) -> (r: Result<ResponseEvent, CodecError>)
    ensures
        response_matches(r, parse_output(status@, out@, err@)),
{
    let m = err.len();
    if m == 0 || err[m - 1] != 13 {
        return Err(CodecError::BareLineFeed);
    }
    let n = status.len();
    let p = find_byte(status, 0, n, 32);
    assert(status@.subrange(0, n as int) == status@);
    if p >= n {
        return Err(CodecError::NotEnoughArguments);
    }
    let id = match id_arg(slice_subrange(status, 0, p)) {
        Ok(v) => v,
        Err(e) => return Err(e),
    };
    let st = match parse_u8(slice_subrange(status, p + 1, n)) {
        Some(v) => v,
        None => return Err(CodecError::NotANumber),
    };
    let o = match obtain(out) {
        Ok(v) => v,
        Err(e) => return Err(e),
    };
    let x = match obtain(slice_subrange(err, 0, m - 1)) {
        Ok(v) => v,
        Err(e) => return Err(e),
    };
    Ok(ResponseEvent::Output(id, st, unescape(o.as_str()), unescape(x.as_str())))
}

/// Takes the answer to an input off the front of `buf`: an error or an
/// output frame. Gives `Ok(None)`, leaving `buf` as it was, while the frame is
/// incomplete.
pub fn decode_response(buf: &mut Vec<u8>) -> (r: Result<Option<ResponseEvent>, CodecError>)
    ensures
        match decode_result(old(buf)@) {
            None => r == Ok::<Option<ResponseEvent>, CodecError>(None) && final(buf)@ == old(buf)@,
            Some((res, n)) => final(buf)@ == old(buf)@.subrange(n, old(buf)@.len() as int)
                && match res {
                Ok(v) => r matches Ok(Some(e)) && e@ == v,
                Err(e) => r == Err::<Option<ResponseEvent>, CodecError>(e),
            },
        },
{
    let ghost s = buf@;
    let n = buf.len();
    let i = find_byte(buf.as_slice(), 0, n, 10);
    assert(buf@.subrange(0, n as int) == buf@);
    if i >= n {
        return Ok(None);
    }
    let ghost ln = s.subrange(0, i as int);
    let is_error = i >= 4 && buf[0] == 69 && buf[1] == 82 && buf[2] == 82 && buf[3] == 32;
    assert(is_error <==> (ln.len() >= 4 && ln.subrange(0, 4) == error_prefix())) by {
        if ln.len() >= 4 && ln.subrange(0, 4) == error_prefix() {
            assert(ln.subrange(0, 4)[0] == s[0]);
            assert(ln.subrange(0, 4)[1] == s[1]);
            assert(ln.subrange(0, 4)[2] == s[2]);
            assert(ln.subrange(0, 4)[3] == s[3]);
        }
        if is_error {
            assert(ln.subrange(0, 4) =~= error_prefix());
        }
    }
    let (res, used) = if is_error {
        (error_line(slice_subrange(buf.as_slice(), 0, i)), i + 1)
    } else {
        let ghost r1 = s.subrange(i + 1, n as int);
        let j = find_byte(buf.as_slice(), i + 1, n, 10);
        if j >= n - (i + 1) {
            return Ok(None);
        }
        let b = i + 1 + j;
        let ghost r2 = r1.subrange(j + 1, r1.len() as int);
        assert(r2 == s.subrange(b + 1, n as int));
        let k = find_byte(buf.as_slice(), b + 1, n, 10);
        if k >= n - (b + 1) {
            return Ok(None);
        }
        let c = b + 1 + k;
        assert(r1.subrange(0, j as int) == s.subrange(i + 1, b as int));
        assert(r2.subrange(0, k as int) == s.subrange(b + 1, c as int));
        (
            output_lines(
                slice_subrange(buf.as_slice(), 0, i),
                slice_subrange(buf.as_slice(), i + 1, b),
                slice_subrange(buf.as_slice(), b + 1, c),
            ),
            c + 1,
        )
    };
    let rest = buf.split_off(used);
    *buf = rest;
    match res {
        Ok(e) => Ok(Some(e)),
        Err(e) => Err(e),
    }
}

/// Takes one line of information off the front of `buf`. Gives `Ok(None)`,
/// leaving `buf` as it was, while no line feed has arrived.
pub fn decode_info_line(buf: &mut Vec<u8>) -> (r: Result<Option<String>, CodecError>)
    ensures
        match decode_info(old(buf)@) {
            None => r == Ok::<Option<String>, CodecError>(None) && final(buf)@ == old(buf)@,
            Some((res, n)) => final(buf)@ == old(buf)@.subrange(n, old(buf)@.len() as int)
                && match res {
                Ok(t) => r matches Ok(Some(x)) && x@ == t,
                Err(e) => r == Err::<Option<String>, CodecError>(e),
            },
        },
{
    let n = buf.len();
    let i = find_byte(buf.as_slice(), 0, n, 10);
    assert(buf@.subrange(0, n as int) == buf@);
    if i >= n {
        return Ok(None);
    }
    let r = if i == 0 || buf[i - 1] != 13 {
        Err(CodecError::BareLineFeed)
    } else {
        match obtain(slice_subrange(buf.as_slice(), 0, i - 1)) {
            Ok(t) => Ok(Some(t)),
            Err(e) => Err(e),
        }
    };
    let rest = buf.split_off(i + 1);
    *buf = rest;
    r
}

} // verus!
