//! Decoding an encoded frame gives back what was encoded.
use vstd::prelude::*;
use vstd::utf8::*;
use crate::codec::{
    decode_info, decode_request, decode_result, first_byte, lemma_first_byte, lemma_first_byte_after,
    line, parse_error_line, parse_input_arg, parse_output, parse_request, request_bytes, response_bytes, verb_com, verb_del, verb_get, verb_inp, word_comms,
    word_cores, error_prefix, CodecError, JobEventView, ResponseEventView,
};
use crate::decimal::{decimal_bytes, lemma_decimal_plain, lemma_decimal_reads_back, read_decimal};
use crate::escape::{escape_text, lemma_escape_no_newline, lemma_unescape_escape, unescape_text};
use crate::text::{lemma_utf8_ascii_byte};

verus! {

broadcast use {encode_utf8_valid_utf8, encode_utf8_decode_utf8};

/// Text without a newline encodes to bytes without a line feed.
proof fn lemma_text_without_line_feed(t: Seq<char>)
    requires
        !t.contains('\n'),
    ensures
        !encode_utf8(t).contains(10u8),
{
    assert forall|i: int| 0 <= i < t.len() implies t[i] as u32 != 10u8 as u32 by {
        if t[i] as u32 == 10u8 as u32 {
            char_u32_cast(t[i], 10);
            assert(t[i] == '\n');
        }
    }
    lemma_utf8_ascii_byte(t, 10);
}

/// A frame body that holds no line feed ends where its CR LF is.
proof fn lemma_frame_end(body: Seq<u8>, rest: Seq<u8>)
    requires
        !body.contains(10u8),
    ensures
        first_byte(line(body) + rest, 10) == body.len() + 1,
        (line(body) + rest)[body.len() as int] == 13,
        (line(body) + rest).subrange(0, body.len() as int) == body,
        (line(body) + rest).subrange(body.len() as int + 2, (line(body) + rest).len() as int) == rest,
        line(body).len() == body.len() + 2,
{
    let tail = seq![13u8, 10u8] + rest;
    assert(line(body) + rest == body + tail);
    lemma_first_byte_after(body, tail, 10);
    lemma_first_byte(tail, 10, 1);
    assert((body + tail).subrange(0, body.len() as int) == body);
    assert((body + tail).subrange(body.len() as int + 2, (body + tail).len() as int) == rest);
}

/// Two fields parted by a space: the first holds no space.
proof fn lemma_split_at_space(a: Seq<u8>, b: Seq<u8>)
    requires
        !a.contains(32u8),
    ensures
        first_byte(a.push(32) + b, 32) == a.len(),
        (a.push(32) + b).subrange(0, a.len() as int) == a,
        (a.push(32) + b).subrange(a.len() as int + 1, (a.push(32) + b).len() as int) == b,
{
    let tail = seq![32u8] + b;
    assert(a.push(32) + b == a + tail);
    lemma_first_byte_after(a, tail, 32);
    lemma_first_byte(tail, 32, 0);
    assert((a + tail).subrange(0, a.len() as int) == a);
    assert((a + tail).subrange(a.len() as int + 1, (a + tail).len() as int) == b);
}

/// A decimal writing of a number in range reads back.
proof fn lemma_id_reads_back(n: nat, max: nat)
    requires
        n <= max,
    ensures
        read_decimal(decimal_bytes(n), max) == Some(n),
{
    lemma_decimal_reads_back(n);
}

/// The encoding of non-empty text is not empty.
proof fn lemma_text_len(t: Seq<char>)
    requires
        t.len() > 0,
    ensures
        encode_utf8(t).len() > 0,
{
    assert(encode_utf8(t) == encode_scalar(t[0] as u32) + encode_utf8(t.drop_first()));
}

/// Whether a request can be written as a frame and read back: a template is
/// not empty, and no text holds a newline or an id exceeds `usize::MAX`.
pub open spec fn well_formed_request(e: JobEventView) -> bool {
    match e {
        JobEventView::Command(t) => t.len() > 0 && !t.contains('\n'),
        JobEventView::Input(c, j, x) => c <= usize::MAX && j <= usize::MAX && !x.contains('\n'),
        JobEventView::StopJob(h) => h <= usize::MAX,
        _ => true,
    }
}

/// The body of a request's frame, before its CR LF.
pub open spec fn request_body(e: JobEventView) -> Seq<u8> {
    match e {
        JobEventView::Command(t) => verb_com().push(32) + encode_utf8(t),
        JobEventView::Input(c, j, x) => verb_inp().push(32) + decimal_bytes(c).push(32)
            + decimal_bytes(j).push(32) + encode_utf8(x),
        JobEventView::GetCommands => verb_get().push(32) + word_comms(),
        JobEventView::GetCores => verb_get().push(32) + word_cores(),
        JobEventView::StopJob(h) => verb_del().push(32) + decimal_bytes(h),
    }
}

/// The four verbs differ.
proof fn lemma_verbs_differ()
    ensures
        verb_com() != verb_inp(),
        verb_com() != verb_get(),
        verb_com() != verb_del(),
        verb_inp() != verb_get(),
        verb_inp() != verb_del(),
        verb_get() != verb_del(),
        word_comms() != word_cores(),
{
    assert(verb_com()[0] != verb_inp()[0]);
    assert(verb_com()[0] != verb_get()[0]);
    assert(verb_com()[0] != verb_del()[0]);
    assert(verb_inp()[0] != verb_get()[0]);
    assert(verb_inp()[0] != verb_del()[0]);
    assert(verb_get()[0] != verb_del()[0]);
    assert(word_comms()[2] != word_cores()[2]);
}

/// A verb, a space and an argument: how the body splits.
proof fn lemma_body_parts(verb: Seq<u8>, arg: Seq<u8>)
    requires
        verb.len() == 3,
    ensures
        (verb.push(32) + arg).subrange(0, 3) == verb,
        (verb.push(32) + arg).subrange(4, (verb.push(32) + arg).len() as int) == arg,
        (verb.push(32) + arg)[3] == 32,
        (verb.push(32) + arg).len() == 4 + arg.len(),
{
    assert((verb.push(32) + arg).subrange(0, 3) == verb);
    assert((verb.push(32) + arg).subrange(4, (verb.push(32) + arg).len() as int) == arg);
}

proof fn lemma_command_body(t: Seq<char>)
    requires
        t.len() > 0,
        !t.contains('\n'),
    ensures
        parse_request(request_body(JobEventView::Command(t))) == Ok::<JobEventView, CodecError>(
            JobEventView::Command(t),
        ),
        !request_body(JobEventView::Command(t)).contains(10u8),
{
    lemma_verbs_differ();
    let body = request_body(JobEventView::Command(t));
    lemma_text_without_line_feed(t);
    lemma_text_len(t);
    lemma_body_parts(verb_com(), encode_utf8(t));
    assert forall|i: int| 0 <= i < body.len() implies body[i] != 10 by {
        if i >= 4 {
            assert(body[i] == encode_utf8(t)[i - 4]);
        }
    }
}

/// Two pieces without the byte `b` make a whole without it.
proof fn lemma_without_byte(a: Seq<u8>, c: Seq<u8>, b: u8)
    requires
        !a.contains(b) || (a.len() > 0 && !a.drop_last().contains(b) && a.last() != b),
        !c.contains(b),
    ensures
        !(a + c).contains(b),
{
    if a.len() > 0 && !a.drop_last().contains(b) && a.last() != b {
        assert forall|i: int| 0 <= i < a.len() implies a[i] != b by {
            if i < a.len() - 1 {
                assert(a[i] == a.drop_last()[i]);
            }
        }
    }
    assert forall|i: int| 0 <= i < (a + c).len() implies (a + c)[i] != b by {
        if i >= a.len() {
            assert((a + c)[i] == c[i - a.len()]);
        } else {
            assert((a + c)[i] == a[i]);
        }
    }
}

/// The argument of an `inp` frame reads back.
proof fn lemma_input_arg(c: nat, j: nat, x: Seq<char>)
    requires
        c <= usize::MAX,
        j <= usize::MAX,
    ensures
        parse_input_arg(decimal_bytes(c).push(32) + (decimal_bytes(j).push(32) + encode_utf8(x)))
            == Ok::<JobEventView, CodecError>(JobEventView::Input(c, j, x)),
{
    let dc = decimal_bytes(c);
    let jd = decimal_bytes(j);
    let dj = jd.push(32) + encode_utf8(x);
    lemma_decimal_plain(c);
    lemma_decimal_plain(j);
    lemma_id_reads_back(c, usize::MAX as nat);
    lemma_id_reads_back(j, usize::MAX as nat);
    lemma_split_at_space(dc, dj);
    lemma_split_at_space(jd, encode_utf8(x));
}

/// An `inp` body is read by the argument parser.
proof fn lemma_parse_inp(arg: Seq<u8>)
    requires
        arg.len() > 0,
    ensures
        parse_request(verb_inp().push(32) + arg) == parse_input_arg(arg),
{
    lemma_verbs_differ();
    lemma_body_parts(verb_inp(), arg);
}

proof fn lemma_input_body(c: nat, j: nat, x: Seq<char>)
    requires
        c <= usize::MAX,
        j <= usize::MAX,
        !x.contains('\n'),
    ensures
        parse_request(request_body(JobEventView::Input(c, j, x))) == Ok::<JobEventView, CodecError>(
            JobEventView::Input(c, j, x),
        ),
        !request_body(JobEventView::Input(c, j, x)).contains(10u8),
{
    let body = request_body(JobEventView::Input(c, j, x));
    let dc = decimal_bytes(c);
    let jd = decimal_bytes(j);
    let arg = dc.push(32) + (jd.push(32) + encode_utf8(x));
    assert(body == verb_inp().push(32) + arg);
    lemma_input_arg(c, j, x);
    lemma_parse_inp(arg);
    lemma_text_without_line_feed(x);
    lemma_decimal_plain(c);
    lemma_decimal_plain(j);
    assert(jd.push(32).drop_last() == jd);
    assert(dc.push(32).drop_last() == dc);
    lemma_without_byte(jd.push(32), encode_utf8(x), 10);
    lemma_without_byte(dc.push(32), jd.push(32) + encode_utf8(x), 10);
    assert(!verb_inp().push(32).contains(10u8));
    lemma_without_byte(verb_inp().push(32), arg, 10);
}

proof fn lemma_get_body(e: JobEventView)
    requires
        e is GetCommands || e is GetCores,
    ensures
        parse_request(request_body(e)) == Ok::<JobEventView, CodecError>(e),
        !request_body(e).contains(10u8),
{
    lemma_verbs_differ();
    let body = request_body(e);
    if e is GetCommands {
        lemma_body_parts(verb_get(), word_comms());
    } else {
        lemma_body_parts(verb_get(), word_cores());
    }
    assert forall|i: int| 0 <= i < body.len() implies body[i] != 10 by {}
}

proof fn lemma_del_body(h: nat)
    requires
        h <= usize::MAX,
    ensures
        parse_request(request_body(JobEventView::StopJob(h))) == Ok::<JobEventView, CodecError>(
            JobEventView::StopJob(h),
        ),
        !request_body(JobEventView::StopJob(h)).contains(10u8),
{
    lemma_verbs_differ();
    let body = request_body(JobEventView::StopJob(h));
    lemma_decimal_plain(h);
    lemma_decimal_reads_back(h);
    lemma_body_parts(verb_del(), decimal_bytes(h));
    assert forall|i: int| 0 <= i < body.len() implies body[i] != 10 by {
        if i >= 4 {
            assert(body[i] == decimal_bytes(h)[i - 4]);
        }
    }
}

/// Decoding the frame of a well-formed request, whatever follows it, gives the
/// request back and takes exactly the frame.
pub proof fn lemma_request_round_trip(e: JobEventView, rest: Seq<u8>)
    requires
        well_formed_request(e),
    ensures
        decode_request(request_bytes(e) + rest) == Some(
            (Ok::<JobEventView, CodecError>(e), request_bytes(e).len() as int),
        ),
{
    match e {
        JobEventView::Command(t) => lemma_command_body(t),
        JobEventView::Input(c, j, x) => lemma_input_body(c, j, x),
        JobEventView::StopJob(h) => lemma_del_body(h),
        _ => lemma_get_body(e),
    }
    assert(request_bytes(e) == line(request_body(e)));
    lemma_frame_end(request_body(e), rest);
}

/// Escaped text encodes to bytes without a line feed, and reads back.
proof fn lemma_escaped_bytes(s: Seq<char>)
    ensures
        !encode_utf8(escape_text(s)).contains(10u8),
        valid_utf8(encode_utf8(escape_text(s))),
        unescape_text(decode_utf8(encode_utf8(escape_text(s)))) == s,
{
    lemma_escape_no_newline(s);
    lemma_text_without_line_feed(escape_text(s));
    lemma_unescape_escape(s);
}

/// `a` then a line feed then `rest`, where `a` holds no line feed.
proof fn lemma_line_feed_split(a: Seq<u8>, rest: Seq<u8>)
    requires
        !a.contains(10u8),
    ensures
        first_byte(a.push(10) + rest, 10) == a.len(),
        (a.push(10) + rest).subrange(0, a.len() as int) == a,
        (a.push(10) + rest).subrange(a.len() as int + 1, (a.push(10) + rest).len() as int) == rest,
{
    let tail = seq![10u8] + rest;
    assert(a.push(10) + rest == a + tail);
    lemma_first_byte_after(a, tail, 10);
    lemma_first_byte(tail, 10, 0);
    assert((a + tail).subrange(0, a.len() as int) == a);
    assert((a + tail).subrange(a.len() as int + 1, (a + tail).len() as int) == rest);
}

/// Decoding the frame of an output whose id fits a `usize`, whatever follows
/// it, gives the output back and takes exactly the frame.
#[verifier::rlimit(60)]
pub proof fn lemma_output_round_trip(
    id: nat,
    status: nat,
    out: Seq<char>,
    err: Seq<char>,
    rest: Seq<u8>,
)
    requires
        id <= usize::MAX,
        status <= 255,
    ensures
        ({
            let m = ResponseEventView::Output(id, status, out, err);
            decode_result(response_bytes(m) + rest) == Some(
                (Ok::<ResponseEventView, CodecError>(m), response_bytes(m).len() as int),
            )
        }),
{
    let m = ResponseEventView::Output(id, status, out, err);
    let di = decimal_bytes(id);
    let ds = decimal_bytes(status);
    let eo = encode_utf8(escape_text(out));
    let ee = encode_utf8(escape_text(err));
    let l1 = di.push(32) + ds;
    let l3 = ee.push(13);
    let buf = response_bytes(m) + rest;
    lemma_decimal_plain(id);
    lemma_decimal_plain(status);
    lemma_id_reads_back(id, usize::MAX as nat);
    lemma_id_reads_back(status, 255);
    lemma_escaped_bytes(out);
    lemma_escaped_bytes(err);
    assert(!l1.contains(10u8)) by {
        assert forall|i: int| 0 <= i < l1.len() implies l1[i] != 10 by {
            if i < di.len() {
                assert(l1[i] == di[i]);
            } else if i > di.len() {
                assert(l1[i] == ds[i - di.len() - 1]);
            }
        }
    }
    assert(!l3.contains(10u8)) by {
        assert forall|i: int| 0 <= i < l3.len() implies l3[i] != 10 by {
            if i < ee.len() {
                assert(l3[i] == ee[i]);
            }
        }
    }
    let r2 = l3.push(10) + rest;
    let r1 = eo.push(10) + r2;
    assert(buf == l1.push(10) + r1);
    lemma_line_feed_split(l1, r1);
    lemma_line_feed_split(eo, r2);
    lemma_line_feed_split(l3, rest);
    lemma_split_at_space(di, ds);
    if l1.len() >= 4 {
        assert(l1.subrange(0, 4) != error_prefix()) by {
            assert(l1[0] == di[0]);
            assert(l1.subrange(0, 4)[0] == l1[0]);
        }
    }
    assert(l3.subrange(0, l3.len() - 1) == ee);
    assert(parse_output(l1, eo, l3) == Ok::<ResponseEventView, CodecError>(m));
    assert(response_bytes(m).len() == l1.len() + 1 + eo.len() + 1 + l3.len() + 1);
}

/// Decoding the frame of an error whose id fits a `usize`, whatever follows
/// it, gives the error back and takes exactly the frame.
pub proof fn lemma_error_round_trip(id: nat, msg: Seq<char>, rest: Seq<u8>)
    requires
        id <= usize::MAX,
    ensures
        ({
            let m = ResponseEventView::Error(id, msg);
            decode_result(response_bytes(m) + rest) == Some(
                (Ok::<ResponseEventView, CodecError>(m), response_bytes(m).len() as int),
            )
        }),
{
    let m = ResponseEventView::Error(id, msg);
    let di = decimal_bytes(id);
    let em = encode_utf8(escape_text(msg));
    let body = di.push(32) + em;
    let ln = (error_prefix() + body).push(13);
    lemma_decimal_plain(id);
    lemma_id_reads_back(id, usize::MAX as nat);
    lemma_escaped_bytes(msg);
    assert(!ln.contains(10u8)) by {
        assert forall|i: int| 0 <= i < ln.len() implies ln[i] != 10 by {
            if 4 <= i < 4 + di.len() {
                assert(ln[i] == di[i - 4]);
            } else if 5 + di.len() <= i < ln.len() - 1 {
                assert(ln[i] == em[i - 5 - di.len()]);
            }
        }
    }
    assert(response_bytes(m) + rest == ln.push(10) + rest);
    lemma_line_feed_split(ln, rest);
    assert(ln.subrange(0, 4) == error_prefix());
    assert(ln.subrange(4, ln.len() - 1) == body);
    lemma_split_at_space(di, em);
    assert(parse_error_line(ln) == Ok::<ResponseEventView, CodecError>(m));
}

/// Decoding the frame of a line of information without a newline, whatever
/// follows it, gives the line back and takes exactly the frame.
pub proof fn lemma_info_round_trip(s: Seq<char>, rest: Seq<u8>)
    requires
        !s.contains('\n'),
    ensures
        decode_info(response_bytes(ResponseEventView::Info(s)) + rest) == Some(
            (
                Ok::<Seq<char>, CodecError>(s),
                response_bytes(ResponseEventView::Info(s)).len() as int,
            ),
        ),
{
    lemma_text_without_line_feed(s);
    lemma_frame_end(encode_utf8(s), rest);
}

} // verus!
