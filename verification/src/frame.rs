//! The transport framing: length-prefixed units on a byte stream.
//!
//! A frame on the wire is a header block of `key: value` lines, ended by one
//! blank line, followed by a body of exactly the declared number of bytes.
//! Exactly one header value — conventionally `Content-Length` — is the
//! decimal count of body bytes; other header lines are tolerated and
//! skipped. The reader is a pure function of the stream bytes and a cursor,
//! so that resynchronisation after a corrupt header is a provable property
//! of the model, not a hope about the loop.

use vstd::prelude::*;

verus! {

/// A line break.
pub const BYTE_NL: u8 = 10;

/// A carriage return, tolerated before a line break.
pub const BYTE_CR: u8 = 13;

/// The colon separating a header key from its value.
pub const BYTE_COLON: u8 = 58;

/// A space, trimmed around header values.
pub const BYTE_SP: u8 = 32;

/// A horizontal tab, trimmed around header values.
pub const BYTE_TAB: u8 = 9;

/// Blank bytes that trimming removes around a header value.
pub open spec fn is_ws(b: u8) -> bool {
    b == BYTE_SP || b == BYTE_TAB
}

/// An ASCII decimal digit.
pub open spec fn is_digit(b: u8) -> bool {
    48 <= b <= 57
}

/// The index of the first line break at or after `pos`, or the end of the
/// stream if the last line is unterminated.
pub open spec fn line_break(s: Seq<u8>, pos: int) -> int
    decreases s.len() - pos when 0 <= pos <= s.len()
{
    if pos >= s.len() {
        s.len() as int
    } else if s[pos] == BYTE_NL {
        pos
    } else {
        line_break(s, pos + 1)
    }
}

/// The end of the line's content: its line break, less a carriage return
/// standing right before it.
pub open spec fn content_end(s: Seq<u8>, pos: int) -> int {
    let brk = line_break(s, pos);
    if brk > pos && s[brk - 1] == BYTE_CR {
        brk - 1
    } else {
        brk
    }
}

/// Where the next line starts: just past the line break, or the end of the
/// stream for an unterminated line.
pub open spec fn next_line(s: Seq<u8>, pos: int) -> int {
    let brk = line_break(s, pos);
    if brk < s.len() {
        brk + 1
    } else {
        brk
    }
}

/// The last colon of `s[pos..end]`, if any.
pub open spec fn last_colon(s: Seq<u8>, pos: int, end: int) -> Option<int>
    decreases end - pos when pos <= end
{
    if end <= pos {
        None
    } else if s[end - 1] == BYTE_COLON {
        Some(end - 1)
    } else {
        last_colon(s, pos, end - 1)
    }
}

/// The start of `s[i..end]` once leading blanks are gone.
pub open spec fn trim_front(s: Seq<u8>, i: int, end: int) -> int
    decreases end - i when i <= end
{
    if i >= end {
        i
    } else if is_ws(s[i]) {
        trim_front(s, i + 1, end)
    } else {
        i
    }
}

/// The end of `s[i..end]` once trailing blanks are gone.
pub open spec fn trim_back(s: Seq<u8>, i: int, end: int) -> int
    decreases end - i when i <= end
{
    if end <= i {
        end
    } else if is_ws(s[end - 1]) {
        trim_back(s, i, end - 1)
    } else {
        end
    }
}

/// Every byte of `s[i..end]` is a decimal digit.
pub open spec fn all_digits(s: Seq<u8>, i: int, end: int) -> bool {
    forall|j: int| i <= j < end ==> is_digit(#[trigger] s[j])
}

/// The number written in decimal as `s[i..end]`.
pub open spec fn digits_value(s: Seq<u8>, i: int, end: int) -> nat
    decreases end - i when i <= end
{
    if end <= i {
        0
    } else {
        (digits_value(s, i, end - 1) * 10 + (s[end - 1] - 48)) as nat
    }
}

/// The unsigned number that `s[vstart..end]` spells once trimmed: it must be
/// non-empty, all digits, and small enough for a machine length.
pub open spec fn value_of(s: Seq<u8>, vstart: int, end: int) -> Option<nat> {
    let a = trim_front(s, vstart, end);
    let b = trim_back(s, a, end);
    if a < b && all_digits(s, a, b) && digits_value(s, a, b) <= usize::MAX as nat {
        Some(digits_value(s, a, b))
    } else {
        None
    }
}

/// The declared length carried by the header line starting at `pos`, if
/// any: the bytes after its last colon, trimmed, read as a decimal number.
pub open spec fn line_length_value(s: Seq<u8>, pos: int, ce: int) -> Option<nat> {
    match last_colon(s, pos, ce) {
        None => None,
        Some(c) => value_of(s, c + 1, ce),
    }
}

/// What kind of result one read attempt produced.
#[derive(Clone, Copy, Debug, PartialEq, Eq, Structural)]
pub enum FrameOutcomeKind {
    Frame,
    EndOfStream,
    InvalidHeader,
    TruncatedBody,
}

/// The model of one read attempt: what it produced, the body if a frame
/// came out, and where the cursor stands afterwards.
pub ghost struct FrameModel {
    pub kind: FrameOutcomeKind,
    pub body: Seq<u8>,
    pub next: int,
}

/// Reading a frame while inside a header block: `found` is the declared
/// length seen so far. A blank line closes the block and the body follows;
/// a line without a colon is corrupt and the reader stops just past it, so
/// a later well-formed frame is still reachable; a block that the stream
/// abandons midway is itself an invalid header.
pub open spec fn frame_read_from(s: Seq<u8>, pos: int, found: Option<nat>) -> FrameModel
    decreases s.len() - pos when 0 <= pos <= s.len()
{
    if pos >= s.len() {
        FrameModel { kind: FrameOutcomeKind::InvalidHeader, body: Seq::empty(), next: s.len() as int }
    } else {
        let ce = content_end(s, pos);
        let np0 = next_line(s, pos);
        // The next line always starts past `pos` and within the stream;
        // clamping lets the recursion stand without a separate bounds proof.
        let np1 = if np0 <= pos { pos + 1 } else { np0 };
        let np = if np1 > s.len() { s.len() as int } else { np1 };
        if ce == pos {
            match found {
                Some(n) => {
                    if np + n <= s.len() {
                        FrameModel { kind: FrameOutcomeKind::Frame, body: s.subrange(np, np + n), next: np + n }
                    } else {
                        FrameModel { kind: FrameOutcomeKind::TruncatedBody, body: Seq::empty(), next: s.len() as int }
                    }
                },
                None => FrameModel { kind: FrameOutcomeKind::InvalidHeader, body: Seq::empty(), next: np },
            }
        } else {
            match last_colon(s, pos, ce) {
                None => FrameModel { kind: FrameOutcomeKind::InvalidHeader, body: Seq::empty(), next: np },
                Some(_) => {
                    let f = if found is Some { found } else { line_length_value(s, pos, ce) };
                    frame_read_from(s, np, f)
                },
            }
        }
    }
}

/// The model of reading one frame at `pos`: the stream ending right there
/// is its orderly end, anything else enters a header block.
pub open spec fn frame_read(s: Seq<u8>, pos: int) -> FrameModel {
    if pos >= s.len() {
        FrameModel { kind: FrameOutcomeKind::EndOfStream, body: Seq::empty(), next: pos }
    } else {
        frame_read_from(s, pos, None)
    }
}

/// The decimal spelling of `n`, most significant digit first.
pub open spec fn length_digits(n: nat) -> Seq<u8>
    decreases n,
{
    if n < 10 {
        seq![(48 + n) as u8]
    } else {
        length_digits(n / 10).push((48 + (n % 10)) as u8)
    }
}

/// The conventional length header's name, `Content-Length`, as bytes.
pub open spec fn header_name() -> Seq<u8> {
    seq![67u8, 111u8, 110u8, 116u8, 101u8, 110u8, 116u8, 45u8, 76u8, 101u8, 110u8, 103u8, 116u8, 104u8]
}

/// A correctly framed body: one length header line, a blank line, then the
/// body itself.
pub open spec fn frame_encoding(body: Seq<u8>) -> Seq<u8> {
    header_name() + seq![BYTE_COLON, BYTE_SP] + length_digits(body.len()) + seq![
        BYTE_CR,
        BYTE_NL,
        BYTE_CR,
        BYTE_NL,
    ] + body
}

/// Every read that is not the orderly end of the stream moves the cursor
/// forward, and never past the end: the reader cannot get stuck.
pub proof fn lemma_frame_read_advances(s: Seq<u8>, pos: int)
    requires
        0 <= pos <= s.len(),
    ensures
        frame_read(s, pos).kind == FrameOutcomeKind::EndOfStream ==> frame_read(s, pos).next
            == pos,
        frame_read(s, pos).kind != FrameOutcomeKind::EndOfStream ==> pos < frame_read(
            s,
            pos,
        ).next <= s.len(),
{
    if pos < s.len() {
        lemma_frame_read_from_advances(s, pos, None);
    }
}

proof fn lemma_frame_read_from_advances(s: Seq<u8>, pos: int, found: Option<nat>)
    requires
        0 <= pos <= s.len(),
    ensures
        pos <= frame_read_from(s, pos, found).next <= s.len(),
        pos < s.len() ==> pos < frame_read_from(s, pos, found).next,
        frame_read_from(s, pos, found).kind != FrameOutcomeKind::EndOfStream,
    decreases s.len() - pos,
{
    if pos < s.len() {
        let ce = content_end(s, pos);
        let np0 = next_line(s, pos);
        let np1 = if np0 <= pos { pos + 1 } else { np0 };
        let np = if np1 > s.len() { s.len() as int } else { np1 };
        if ce != pos && last_colon(s, pos, ce) is Some {
            let f = if found is Some {
                found
            } else {
                line_length_value(s, pos, ce)
            };
            lemma_frame_read_from_advances(s, np, f);
        }
    }
}

/// Why a frame could not be read.
#[derive(Clone, Copy, Debug, PartialEq, Eq, Structural)]
pub enum FrameErrorKind {
    /// No usable declared length before the blank line, or a corrupt
    /// header line.
    InvalidHeader,
    /// The stream ended before the declared number of body bytes arrived.
    TruncatedBody,
}

/// One length-prefixed unit of the transport stream.
#[derive(Debug, Clone)]
pub struct Frame {
    pub declared_length: usize,
    pub body: Vec<u8>,
}

impl Frame {
    /// A frame's body always holds exactly the declared number of bytes.
    pub open spec fn wf(&self) -> bool {
        self.body@.len() == self.declared_length
    }
}

/// What one attempt to pull a frame off the stream produced.
#[derive(Debug)]
pub enum FrameRead {
    Frame(Frame),
    EndOfStream,
    FrameError(FrameErrorKind),
}

/// The reader's result and new cursor agree with the model.
pub open spec fn read_matches(r: FrameRead, next: int, m: FrameModel) -> bool {
    &&& next == m.next
    &&& match r {
        FrameRead::Frame(f) => m.kind == FrameOutcomeKind::Frame && f.wf() && f.body@ == m.body,
        FrameRead::EndOfStream => m.kind == FrameOutcomeKind::EndOfStream,
        FrameRead::FrameError(k) => match k {
            FrameErrorKind::InvalidHeader => m.kind == FrameOutcomeKind::InvalidHeader,
            FrameErrorKind::TruncatedBody => m.kind == FrameOutcomeKind::TruncatedBody,
        },
    }
}

/// The spec-level length seen so far, as the exec reader tracks it.
pub open spec fn as_nat_opt(o: Option<usize>) -> Option<nat> {
    match o {
        Some(n) => Some(n as nat),
        None => None,
    }
}

/// Find the current line's content end and the start of the next line.
fn find_line(input: &[u8], pos: usize) -> (r: (usize, usize))
    requires
        pos <= input@.len(),
    ensures
        r.0 == content_end(input@, pos as int),
        r.1 == next_line(input@, pos as int),
        pos <= r.0 <= input@.len(),
        r.1 <= input@.len(),
        pos < input@.len() ==> r.1 > pos,
        r.0 <= r.1,
{
    let ghost s = input@;
    let mut i: usize = pos;
    while i < input.len() && input[i] != BYTE_NL
        invariant
            pos <= i <= s.len(),
            input@ == s,
            line_break(s, pos as int) == line_break(s, i as int),
        decreases s.len() - i,
    {
        i = i + 1;
    }
    let brk: usize = i;
    assert(line_break(s, pos as int) == brk);
    let ce: usize = if brk > pos && input[brk - 1] == BYTE_CR {
        brk - 1
    } else {
        brk
    };
    let np: usize = if brk < input.len() {
        brk + 1
    } else {
        brk
    };
    (ce, np)
}

/// Find the last colon of `input[pos..end]`.
fn find_last_colon(input: &[u8], pos: usize, end: usize) -> (r: Option<usize>)
    requires
        pos <= end <= input@.len(),
    ensures
        match r {
            Some(c) => last_colon(input@, pos as int, end as int) == Some(c as int) && pos <= c
                < end,
            None => last_colon(input@, pos as int, end as int) is None,
        },
{
    let ghost s = input@;
    let mut e: usize = end;
    while e > pos
        invariant
            pos <= e <= end <= s.len(),
            input@ == s,
            last_colon(s, pos as int, end as int) == last_colon(s, pos as int, e as int),
        decreases e,
    {
        if input[e - 1] == BYTE_COLON {
            return Some(e - 1);
        }
        e = e - 1;
    }
    None
}

/// Whenever a decimal spelling grows by one digit its value does not
/// shrink, so a prefix that already overflows settles the whole value.
proof fn lemma_digits_value_grows(s: Seq<u8>, a: int, i: int, b: int)
    requires
        a <= i <= b,
        all_digits(s, i, b),
    ensures
        digits_value(s, a, b) >= digits_value(s, a, i),
    decreases b - i,
{
    if i < b {
        lemma_digits_value_grows(s, a, i, b - 1);
        assert(is_digit(s[b - 1]));
        assert(digits_value(s, a, b) == (digits_value(s, a, b - 1) * 10 + (s[b - 1] - 48)) as nat);
        assert(digits_value(s, a, b - 1) * 10 >= digits_value(s, a, b - 1)) by (nonlinear_arith);
    }
}

/// Read the trimmed decimal value of `input[vstart..end]`, if it has one.
fn parse_length_value(input: &[u8], vstart: usize, end: usize) -> (r: Option<usize>)
    requires
        vstart <= end <= input@.len(),
    ensures
        as_nat_opt(r) == value_of(input@, vstart as int, end as int),
{
    let ghost s = input@;
    let mut a: usize = vstart;
    while a < end && (input[a] == BYTE_SP || input[a] == BYTE_TAB)
        invariant
            vstart <= a <= end <= s.len(),
            input@ == s,
            trim_front(s, vstart as int, end as int) == trim_front(s, a as int, end as int),
        decreases end - a,
    {
        a = a + 1;
    }
    assert(trim_front(s, vstart as int, end as int) == a);
    let mut b: usize = end;
    while b > a && (input[b - 1] == BYTE_SP || input[b - 1] == BYTE_TAB)
        invariant
            a <= b <= end <= s.len(),
            input@ == s,
            trim_back(s, a as int, end as int) == trim_back(s, a as int, b as int),
        decreases b,
    {
        b = b - 1;
    }
    assert(trim_back(s, a as int, end as int) == b);
    if a >= b {
        return None;
    }
    let mut n: usize = 0;
    let mut i: usize = a;
    while i < b
        invariant
            vstart <= a <= i <= b <= end <= s.len(),
            input@ == s,
            trim_front(s, vstart as int, end as int) == a,
            trim_back(s, a as int, end as int) == b,
            all_digits(s, a as int, i as int),
            n == digits_value(s, a as int, i as int),
        decreases b - i,
    {
        let d: u8 = input[i];
        if d < 48 || d > 57 {
            assert(!is_digit(s[i as int]));
            return None;
        }
        let step: Option<usize> = n.checked_mul(10);
        match step {
            None => {
                proof {
                    if all_digits(s, a as int, b as int) {
                        lemma_digits_value_grows(s, a as int, i as int + 1, b as int);
                        assert(digits_value(s, a as int, i as int + 1) == (digits_value(
                            s,
                            a as int,
                            i as int,
                        ) * 10 + (s[i as int] - 48)) as nat);
                    }
                }
                return None;
            },
            Some(n10) => {
                let step2: Option<usize> = n10.checked_add((d - 48) as usize);
                match step2 {
                    None => {
                        proof {
                            if all_digits(s, a as int, b as int) {
                                lemma_digits_value_grows(s, a as int, i as int + 1, b as int);
                                assert(digits_value(s, a as int, i as int + 1) == (digits_value(
                                    s,
                                    a as int,
                                    i as int,
                                ) * 10 + (s[i as int] - 48)) as nat);
                            }
                        }
                        return None;
                    },
                    Some(n2) => {
                        n = n2;
                        i = i + 1;
                    },
                }
            },
        }
    }
    Some(n)
}

/// Copy `input[a..b]` into an owned buffer.
fn copy_range(input: &[u8], a: usize, b: usize) -> (v: Vec<u8>)
    requires
        a <= b <= input@.len(),
    ensures
        v@ =~= input@.subrange(a as int, b as int),
{
    let mut v: Vec<u8> = Vec::new();
    let mut i: usize = a;
    while i < b
        invariant
            a <= i <= b <= input@.len(),
            v@ =~= input@.subrange(a as int, i as int),
        decreases b - i,
    {
        v.push(input[i]);
        i = i + 1;
    }
    v
}

/// Pull one frame off the stream bytes, starting at `pos`.
///
/// The cursor it hands back is where the next read must start: past the
/// frame on success, past the offending line on an invalid header — never
/// stuck — and at the end of the stream when the body was cut short.
pub fn read_frame(input: &[u8], pos: usize) -> (r: (FrameRead, usize))
    ensures
        read_matches(r.0, r.1 as int, frame_read(input@, pos as int)),
{
    let ghost s = input@;
    if pos >= input.len() {
        return (FrameRead::EndOfStream, pos);
    }
    let mut cur: usize = pos;
    let mut found: Option<usize> = None;
    loop
        invariant
            pos <= cur <= s.len(),
            input@ == s,
            frame_read_from(s, cur as int, as_nat_opt(found)) == frame_read_from(
                s,
                pos as int,
                None,
            ),
            pos < s.len(),
        decreases s.len() - cur,
    {
        if cur >= input.len() {
            return (FrameRead::FrameError(FrameErrorKind::InvalidHeader), input.len());
        }
        let (ce, np) = find_line(input, cur);
        if ce == cur {
            match found {
                Some(n) => {
                    if n <= input.len() - np {
                        let body = copy_range(input, np, np + n);
                        return (FrameRead::Frame(Frame { declared_length: n, body }), np + n);
                    } else {
                        return (FrameRead::FrameError(FrameErrorKind::TruncatedBody), input.len());
                    }
                },
                None => {
                    return (FrameRead::FrameError(FrameErrorKind::InvalidHeader), np);
                },
            }
        } else {
            match find_last_colon(input, cur, ce) {
                None => {
                    return (FrameRead::FrameError(FrameErrorKind::InvalidHeader), np);
                },
                Some(c) => {
                    if found.is_none() {
                        found = parse_length_value(input, c + 1, ce);
                    }
                    cur = np;
                },
            }
        }
    }
}

/// Append the decimal spelling of `n`.
fn push_decimal(out: &mut Vec<u8>, n: usize)
    ensures
        final(out)@ =~= old(out)@ + length_digits(n as nat),
    decreases n,
{
    if n >= 10 {
        push_decimal(out, n / 10);
        out.push(48 + (n % 10) as u8);
    } else {
        out.push(48 + n as u8);
    }
}

/// Frame a body for the wire: prefix a correct length header and a blank
/// line. The round-trip law proves the reader hands exactly the body back.
pub fn encode_frame(body: &[u8]) -> (out: Vec<u8>)
    ensures
        out@ =~= frame_encoding(body@),
{
    let mut out: Vec<u8> = Vec::new();
    out.push(67);
    out.push(111);
    out.push(110);
    out.push(116);
    out.push(101);
    out.push(110);
    out.push(116);
    out.push(45);
    out.push(76);
    out.push(101);
    out.push(110);
    out.push(103);
    out.push(116);
    out.push(104);
    out.push(BYTE_COLON);
    out.push(BYTE_SP);
    push_decimal(&mut out, body.len());
    out.push(BYTE_CR);
    out.push(BYTE_NL);
    out.push(BYTE_CR);
    out.push(BYTE_NL);
    let ghost head = out@;
    assert(head =~= header_name() + seq![BYTE_COLON, BYTE_SP] + length_digits(body@.len()) + seq![
        BYTE_CR,
        BYTE_NL,
        BYTE_CR,
        BYTE_NL,
    ]);
    let mut i: usize = 0;
    while i < body.len()
        invariant
            i <= body@.len(),
            out@ =~= head + body@.subrange(0, i as int),
        decreases body@.len() - i,
    {
        out.push(body[i]);
        i = i + 1;
    }
    assert(out@ =~= frame_encoding(body@));
    out
}

} // verus!
