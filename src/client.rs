//! The client's side of a connection slot: building requests, reading the
//! answers, and deciding what becomes of each attempt.
use vstd::prelude::*;
use vstd::slice::slice_subrange;
use vstd::utf8::*;
use crate::codec::{
    find_byte, first_byte, read_id, request_bytes, CodecError, JobEventView, ResponseEvent,
};
use crate::decimal::{parse_u8, parse_usize, push_decimal_bytes, read_decimal};
use crate::jobs::{Attempt, Outputs, Retries, MAX_ATTEMPTS};
use crate::text::chars_of;

verus! {

/// What became of one input.
#[derive(Debug, PartialEq)]
pub enum Outcome {
    /// The process ran: its exit status, standard output and standard error.
    Completed(u8, String, String),
    /// The input could not be run; the input.
    Failed(String),
}

/// A line without its line ending: a final line feed, and a carriage return
/// before it, are dropped.
pub open spec fn line_content(s: Seq<char>) -> Seq<char> {
    let t = if s.len() > 0 && s.last() == '\n' {
        s.drop_last()
    } else {
        s
    };
    if t.len() > 0 && t.last() == '\r' {
        t.drop_last()
    } else {
        t
    }
}

/// The job id and exit status of a status line `<id> <status>`.
pub open spec fn parse_status_line(b: Seq<u8>) -> Result<(nat, nat), CodecError> {
    let p = first_byte(b, 32);
    if p >= b.len() {
        Err(CodecError::NotEnoughArguments)
    } else {
        match read_id(b.subrange(0, p)) {
            Err(e) => Err(e),
            Ok(id) => match read_decimal(b.subrange(p + 1, b.len() as int), 255) {
                None => Err(CodecError::NotANumber),
                Some(st) => Ok((id, st)),
            },
        }
    }
}

/// The buffers a connection slot reuses from one input to the next: the
/// request being sent, and the three lines of the answer.
pub struct ResultsCache {
    pub instruction: Vec<u8>,
    pub status: String,
    pub stdout: String,
    pub stderr: String,
}

/// The line `s` without its line ending.
fn content_of(s: &str) -> (r: String)
    ensures
        r@ == line_content(s@),
{
    let cs = chars_of(s);
    let mut n = cs.len();
    if n > 0 && cs[n - 1] == '\n' {
        n = n - 1;
    }
    if n > 0 && cs[n - 1] == '\r' {
        n = n - 1;
    }
    let r = crate::text::string_of_range(cs.as_slice(), 0, n);
    assert(r@ =~= line_content(s@));
    r
}

impl ResultsCache {
    /// Empty buffers.
    pub fn new() -> (r: ResultsCache)
        ensures
            r.instruction@.len() == 0,
            r.status@.len() == 0,
            r.stdout@.len() == 0,
            r.stderr@.len() == 0,
    {
        ResultsCache {
            instruction: Vec::new(),
            status: String::new(),
            stdout: String::new(),
            stderr: String::new(),
        }
    }

    /// Keeps the three lines of an answer, without their line endings.
    pub fn read_from(&mut self, status: &str, stdout: &str, stderr: &str)
        ensures
            final(self).status@ == line_content(status@),
            final(self).stdout@ == line_content(stdout@),
            final(self).stderr@ == line_content(stderr@),
            final(self).instruction@ == old(self).instruction@,
    {
        self.status = content_of(status);
        self.stdout = content_of(stdout);
        self.stderr = content_of(stderr);
    }

    /// Builds the request that runs `input` as job `jid` of the command with
    /// handle `cid`.
    pub fn write_instruction(&mut self, cid: usize, jid: usize, input: &str)
        ensures
            final(self).instruction@ == request_bytes(
                JobEventView::Input(cid as nat, jid as nat, input@),
            ),
            final(self).status == old(self).status,
            final(self).stdout == old(self).stdout,
            final(self).stderr == old(self).stderr,
    {
        self.instruction.clear();
        self.instruction.push(105);
        self.instruction.push(110);
        self.instruction.push(112);
        self.instruction.push(32);
        push_decimal_bytes(&mut self.instruction, cid);
        self.instruction.push(32);
        push_decimal_bytes(&mut self.instruction, jid);
        self.instruction.push(32);
        self.instruction.extend_from_slice(input.as_bytes());
        self.instruction.push(13);
        self.instruction.push(10);
        assert(self.instruction@ =~= request_bytes(
            JobEventView::Input(cid as nat, jid as nat, input@),
        ));
    }

    /// The job id and exit status of the status line kept.
    pub fn parse_status(&self) -> (r: Result<(usize, u8), CodecError>)
        ensures
            match parse_status_line(encode_utf8(self.status@)) {
                Ok((id, st)) => r == Ok::<(usize, u8), CodecError>((id as usize, st as u8)),
                Err(e) => r == Err::<(usize, u8), CodecError>(e),
            },
    {
        let b = self.status.as_str().as_bytes();
        let n = b.len();
        let p = find_byte(b, 0, n, 32);
        assert(b@.subrange(0, n as int) == b@);
        if p >= n {
            return Err(CodecError::NotEnoughArguments);
        }
        let id = match parse_usize(slice_subrange(b, 0, p)) {
            Some(v) => v,
            None => return Err(CodecError::NotANumber),
        };
        match parse_u8(slice_subrange(b, p + 1, n)) {
            Some(st) => Ok((id, st)),
            None => Err(CodecError::NotANumber),
        }
    }

    /// Empties the three lines of the answer.
    pub fn clear(&mut self)
        ensures
            final(self).status@.len() == 0,
            final(self).stdout@.len() == 0,
            final(self).stderr@.len() == 0,
            final(self).instruction@ == old(self).instruction@,
    {
        self.status = String::new();
        self.stdout = String::new();
        self.stderr = String::new();
    }
}

/// Settles one attempt on an input, given the answer that came back: an
/// output for its job id completes it, an error (the process could not be
/// started) fails it, and anything else, no answer included, is a transport
/// failure that queues it again or, after `MAX_ATTEMPTS`, fails it. Gives
/// whether an outcome was stored.
pub fn finish_attempt(
    outcomes: &mut Outputs<Outcome>,
    retries: &mut Retries,
    attempt: Attempt,
    answer: Option<ResponseEvent>,
) -> (r: bool)
    requires
        old(outcomes).wf(),
        old(retries).wf(),
        attempt.2 < MAX_ATTEMPTS,
    ensures
        final(outcomes).wf(),
        final(retries).wf(),
        old(outcomes).written().subset_of(final(outcomes).written()),
        r ==> !old(outcomes).written().contains(attempt.0) && final(outcomes).written()
            == old(outcomes).written().insert(attempt.0),
        !r ==> final(outcomes).pending() == old(outcomes).pending(),
        match answer {
            Some(ResponseEvent::Output(id, st, o, e)) if id == attempt.0 => {
                &&& final(retries).errors@ == old(retries).errors@
                &&& r == !old(outcomes).written().contains(attempt.0)
                &&& r ==> final(outcomes).pending() == old(outcomes).pending().insert(
                    attempt.0,
                    Outcome::Completed(st, o, e),
                )
            },
            Some(ResponseEvent::Error(_, _)) => {
                &&& final(retries).errors@ == old(retries).errors@
                &&& r == !old(outcomes).written().contains(attempt.0)
                &&& r ==> final(outcomes).pending() == old(outcomes).pending().insert(
                    attempt.0,
                    Outcome::Failed(attempt.1),
                )
            },
            _ => if attempt.2 + 1 < MAX_ATTEMPTS {
                &&& !r
                &&& final(retries).errors@ == old(retries).errors@.push(
                    (attempt.0, attempt.1, (attempt.2 + 1) as u8),
                )
                &&& final(outcomes).written() == old(outcomes).written()
            } else {
                &&& final(retries).errors@ == old(retries).errors@
                &&& r == !old(outcomes).written().contains(attempt.0)
                &&& r ==> final(outcomes).pending() == old(outcomes).pending().insert(
                    attempt.0,
                    Outcome::Failed(attempt.1),
                )
            },
        },
{
    let (id, input, tries) = attempt;
    match answer {
        Some(ResponseEvent::Output(got, st, o, e)) if got == id => {
            outcomes.insert(id, Outcome::Completed(st, o, e))
        },
        Some(ResponseEvent::Error(_, _)) => outcomes.insert(id, Outcome::Failed(input)),
        _ => {
            if retries.record_failure(id, input.clone(), tries) {
                outcomes.insert(id, Outcome::Failed(input))
            } else {
                false
            }
        },
    }
}

} // verus!
