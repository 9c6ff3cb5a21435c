//! Laws of the framing model.
//!
//! Two properties make the frame reader trustworthy: a correctly framed
//! body always reads back as exactly that body, and a corrupt header line
//! costs exactly one report and one line of the stream, after which the
//! next well-formed frame is read intact.

use vstd::prelude::*;

use crate::frame::all_digits;
use crate::frame::content_end;
use crate::frame::digits_value;
use crate::frame::frame_encoding;
use crate::frame::frame_read;
use crate::frame::frame_read_from;
use crate::frame::header_name;
use crate::frame::is_ws;
use crate::frame::is_digit;
use crate::frame::last_colon;
use crate::frame::length_digits;
use crate::frame::line_break;
use crate::frame::line_length_value;
use crate::frame::next_line;
use crate::frame::trim_back;
use crate::frame::trim_front;
use crate::frame::value_of;
use crate::frame::FrameModel;
use crate::frame::FrameOutcomeKind;
use crate::frame::BYTE_COLON;
use crate::frame::BYTE_CR;
use crate::frame::BYTE_NL;
use crate::frame::BYTE_SP;

verus! {

/// `line_break` finds exactly the first line break.
proof fn lemma_line_break_at(s: Seq<u8>, pos: int, brk: int)
    requires
        0 <= pos <= brk <= s.len(),
        forall|j: int| pos <= j < brk ==> s[j] != BYTE_NL,
        brk == s.len() || s[brk] == BYTE_NL,
    ensures
        line_break(s, pos) == brk,
    decreases brk - pos,
{
    if pos < brk {
        lemma_line_break_at(s, pos + 1, brk);
    }
}

/// `last_colon` finds exactly the last colon.
proof fn lemma_last_colon_at(s: Seq<u8>, pos: int, end: int, c: int)
    requires
        0 <= pos <= c < end <= s.len(),
        s[c] == BYTE_COLON,
        forall|j: int| c < j < end ==> s[j] != BYTE_COLON,
    ensures
        last_colon(s, pos, end) == Some(c),
    decreases end,
{
    if c < end - 1 {
        lemma_last_colon_at(s, pos, end - 1, c);
    }
}

/// A stretch without any colon has no last colon.
proof fn lemma_last_colon_none(s: Seq<u8>, pos: int, end: int)
    requires
        pos <= end,
        forall|j: int| pos <= j < end ==> s[j] != BYTE_COLON,
    ensures
        last_colon(s, pos, end) is None,
    decreases end - pos,
{
    if pos < end {
        lemma_last_colon_none(s, pos, end - 1);
    }
}

/// The decimal spelling is non-empty and made of digits only.
proof fn lemma_length_digits_are_digits(n: nat)
    ensures
        length_digits(n).len() >= 1,
        forall|j: int| 0 <= j < length_digits(n).len() ==> is_digit(#[trigger] length_digits(n)[j]),
    decreases n,
{
    if n >= 10 {
        lemma_length_digits_are_digits(n / 10);
    }
}

/// Reading the decimal spelling of `n` back gives `n` again.
proof fn lemma_digits_value_round(s: Seq<u8>, a: int, b: int, n: nat)
    requires
        0 <= a <= b <= s.len(),
        s.subrange(a, b) =~= length_digits(n),
    ensures
        digits_value(s, a, b) == n,
        all_digits(s, a, b),
    decreases b - a,
{
    lemma_length_digits_are_digits(n);
    let d = length_digits(n);
    assert(b - a == d.len());
    assert(forall|j: int| a <= j < b ==> s[j] == d[j - a]);
    if n < 10 {
        assert(s[a] == d[0]);
        assert(digits_value(s, a, b) == (digits_value(s, a, a) * 10 + (s[a] - 48)) as nat);
    } else {
        assert(s.subrange(a, b - 1) =~= length_digits(n / 10));
        lemma_digits_value_round(s, a, b - 1, n / 10);
        assert(s[b - 1] == d[d.len() - 1]);
        assert(digits_value(s, a, b) == ((n / 10) * 10 + (n % 10)) as nat);
        assert((n / 10) * 10 + (n % 10) == n) by (nonlinear_arith);
    }
}

/// Streams agreeing on a stretch have the same last colon there.
proof fn lemma_last_colon_congruent(s1: Seq<u8>, s2: Seq<u8>, pos: int, end: int)
    requires
        0 <= pos <= end,
        end <= s1.len(),
        end <= s2.len(),
        forall|j: int| pos <= j < end ==> s1[j] == s2[j],
    ensures
        last_colon(s1, pos, end) == last_colon(s2, pos, end),
    decreases end - pos,
{
    if pos < end {
        lemma_last_colon_congruent(s1, s2, pos, end - 1);
    }
}

/// Streams agreeing on a stretch trim it the same way.
proof fn lemma_trim_front_congruent(s1: Seq<u8>, s2: Seq<u8>, i: int, end: int)
    requires
        0 <= i <= end,
        end <= s1.len(),
        end <= s2.len(),
        forall|j: int| i <= j < end ==> s1[j] == s2[j],
    ensures
        trim_front(s1, i, end) == trim_front(s2, i, end),
    decreases end - i,
{
    if i < end && is_ws(s1[i]) {
        lemma_trim_front_congruent(s1, s2, i + 1, end);
    }
}

proof fn lemma_trim_back_congruent(s1: Seq<u8>, s2: Seq<u8>, i: int, end: int)
    requires
        0 <= i <= end,
        end <= s1.len(),
        end <= s2.len(),
        forall|j: int| i <= j < end ==> s1[j] == s2[j],
    ensures
        trim_back(s1, i, end) == trim_back(s2, i, end),
    decreases end - i,
{
    if i < end && is_ws(s1[end - 1]) {
        lemma_trim_back_congruent(s1, s2, i, end - 1);
    }
}

/// Streams agreeing on a stretch spell the same number there.
proof fn lemma_digits_value_congruent(s1: Seq<u8>, s2: Seq<u8>, i: int, end: int)
    requires
        0 <= i <= end,
        end <= s1.len(),
        end <= s2.len(),
        forall|j: int| i <= j < end ==> s1[j] == s2[j],
    ensures
        digits_value(s1, i, end) == digits_value(s2, i, end),
    decreases end - i,
{
    if i < end {
        lemma_digits_value_congruent(s1, s2, i, end - 1);
    }
}

/// Streams agreeing on a stretch read the same header value off it.
proof fn lemma_value_of_congruent(s1: Seq<u8>, s2: Seq<u8>, vstart: int, end: int)
    requires
        0 <= vstart <= end,
        end <= s1.len(),
        end <= s2.len(),
        forall|j: int| vstart <= j < end ==> s1[j] == s2[j],
    ensures
        value_of(s1, vstart, end) == value_of(s2, vstart, end),
{
    lemma_trim_front_congruent(s1, s2, vstart, end);
    let a = trim_front(s1, vstart, end);
    assert(vstart <= a <= end) by {
        lemma_trim_front_bounds(s1, vstart, end);
    }
    lemma_trim_back_congruent(s1, s2, a, end);
    let b = trim_back(s1, a, end);
    assert(a <= b <= end) by {
        lemma_trim_back_bounds(s1, a, end);
    }
    assert(all_digits(s1, a, b) == all_digits(s2, a, b));
    lemma_digits_value_congruent(s1, s2, a, b);
}

/// Trimming stays inside its range.
proof fn lemma_trim_front_bounds(s: Seq<u8>, i: int, end: int)
    requires
        0 <= i <= end <= s.len(),
    ensures
        i <= trim_front(s, i, end) <= end,
    decreases end - i,
{
    if i < end && is_ws(s[i]) {
        lemma_trim_front_bounds(s, i + 1, end);
    }
}

proof fn lemma_trim_back_bounds(s: Seq<u8>, i: int, end: int)
    requires
        0 <= i <= end <= s.len(),
    ensures
        i <= trim_back(s, i, end) <= end,
    decreases end - i,
{
    if i < end && is_ws(s[end - 1]) {
        lemma_trim_back_bounds(s, i, end - 1);
    }
}

/// A correctly framed body lying at `pos` and reaching the end of the
/// stream reads back as exactly that body, with the cursor on the end.
pub proof fn lemma_read_encoded_frame(s: Seq<u8>, pos: int, body: Seq<u8>)
    requires
        0 <= pos,
        body.len() <= usize::MAX,
        s.len() == pos + frame_encoding(body).len(),
        s.subrange(pos, s.len() as int) =~= frame_encoding(body),
    ensures
        frame_read(s, pos) == (FrameModel {
            kind: FrameOutcomeKind::Frame,
            body: body,
            next: s.len() as int,
        }),
{
    let enc = frame_encoding(body);
    let n = body.len();
    let d = length_digits(n);
    let dl = d.len() as int;
    lemma_length_digits_are_digits(n);
    assert(enc.len() == 20 + dl + n);
    assert(forall|k: int| 0 <= k < enc.len() ==> s[pos + k] == enc[k]) by {
        assert(forall|k: int|
            0 <= k < enc.len() ==> s.subrange(pos, s.len() as int)[k] == #[trigger] s[pos + k]);
    }
    // How the encoding lays its bytes out.
    assert(forall|k: int| 0 <= k < 14 ==> enc[k] == header_name()[k]);
    assert(enc[14] == BYTE_COLON);
    assert(enc[15] == BYTE_SP);
    assert(forall|k: int| 16 <= k < 16 + dl ==> enc[k] == d[k - 16]);
    assert(enc[16 + dl] == BYTE_CR);
    assert(enc[17 + dl] == BYTE_NL);
    assert(enc[18 + dl] == BYTE_CR);
    assert(enc[19 + dl] == BYTE_NL);
    assert(forall|k: int| 20 + dl <= k < enc.len() ==> enc[k] == body[k - 20 - dl]);
    assert(forall|k: int| 0 <= k < 14 ==> header_name()[k] != BYTE_NL && header_name()[k]
        != BYTE_COLON);
    // The header line: its break, content end, and start of the next line.
    let brk1 = pos + 17 + dl;
    assert forall|j: int| pos <= j < brk1 implies s[j] != BYTE_NL by {
        let k = j - pos;
        assert(s[pos + k] == enc[k]);
        if 0 <= k < 14 {
            assert(enc[k] == header_name()[k]);
        } else if 16 <= k < 16 + dl {
            assert(enc[k] == d[k - 16]);
            assert(is_digit(d[k - 16]));
        }
    }
    lemma_line_break_at(s, pos, brk1);
    assert(content_end(s, pos) == pos + 16 + dl);
    assert(next_line(s, pos) == pos + 18 + dl);
    // Its last colon is the one the encoder wrote.
    assert forall|j: int| pos + 14 < j < pos + 16 + dl implies s[j] != BYTE_COLON by {
        let k = j - pos;
        assert(s[pos + k] == enc[k]);
        if 16 <= k < 16 + dl {
            assert(enc[k] == d[k - 16]);
            assert(is_digit(d[k - 16]));
        }
    }
    lemma_last_colon_at(s, pos, pos + 16 + dl, pos + 14);
    // The value after it trims to exactly the decimal spelling of the length.
    let ce1 = pos + 16 + dl;
    assert forall|k: int| 16 <= k < 16 + dl implies #[trigger] s[pos + k] == d[k - 16] by {
        assert(s[pos + k] == enc[k]);
        assert(enc[k] == d[k - 16]);
    }
    assert(is_digit(d[0]));
    assert(s[pos + 16] == d[0]);
    assert(trim_front(s, pos + 15, ce1) == trim_front(s, pos + 16, ce1));
    assert(trim_front(s, pos + 16, ce1) == pos + 16);
    assert(is_digit(d[dl - 1]));
    assert(s[pos + (16 + dl - 1)] == d[dl - 1]);
    assert(s[ce1 - 1] == d[dl - 1]);
    assert(trim_back(s, pos + 16, ce1) == ce1);
    assert forall|m: int| 0 <= m < dl implies s.subrange(pos + 16, ce1)[m] == d[m] by {
        assert(s[pos + (16 + m)] == d[(16 + m) - 16]);
    }
    assert(s.subrange(pos + 16, ce1) =~= d);
    lemma_digits_value_round(s, pos + 16, ce1, n);
    assert(value_of(s, pos + 15, ce1) == Some(n));
    assert(line_length_value(s, pos, ce1) == Some(n));
    // So the first line records the length and moves to the blank line.
    assert(pos < s.len());
    assert(frame_read_from(s, pos, None) == frame_read_from(s, pos + 18 + dl, Some(n)));
    // The blank line closes the header block.
    let q = pos + 18 + dl;
    assert(s[q] == BYTE_CR && s[q + 1] == BYTE_NL);
    lemma_line_break_at(s, q, q + 1);
    assert(content_end(s, q) == q);
    assert(next_line(s, q) == q + 2);
    // The body follows in full.
    assert(q + 2 + n == s.len());
    assert forall|m: int| 0 <= m < n implies s.subrange(q + 2, q + 2 + n as int)[m] == body[m] by {
        assert(s[pos + (20 + dl + m)] == enc[20 + dl + m]);
        assert(enc[20 + dl + m] == body[m]);
    }
    assert(s.subrange(q + 2, q + 2 + n as int) =~= body);
    assert(frame_read_from(s, q, Some(n)) == (FrameModel {
        kind: FrameOutcomeKind::Frame,
        body: s.subrange(q + 2, q + 2 + n as int),
        next: s.len() as int,
    }));
    assert(frame_read(s, pos) == frame_read_from(s, pos, None));
}

/// Framing round-trip: framing any body, then running the reader on the
/// result, yields a frame whose body is exactly the original bytes.
pub proof fn lemma_frame_round_trip(body: Seq<u8>)
    requires
        body.len() <= usize::MAX,
    ensures
        frame_read(frame_encoding(body), 0) == (FrameModel {
            kind: FrameOutcomeKind::Frame,
            body: body,
            next: frame_encoding(body).len() as int,
        }),
{
    let s = frame_encoding(body);
    assert(s.subrange(0, s.len() as int) =~= s);
    lemma_read_encoded_frame(s, 0, body);
}

/// Resynchronisation: a corrupt header line — one line with no usable
/// length, here one with no colon at all — costs exactly one invalid-header
/// result consuming exactly that line, and a well-formed frame right after
/// it is then read intact.
pub proof fn lemma_resynchronisation(junk: Seq<u8>, body: Seq<u8>)
    requires
        junk.len() >= 1,
        junk[junk.len() - 1] == BYTE_NL,
        forall|j: int| 0 <= j < junk.len() - 1 ==> junk[j] != BYTE_NL,
        forall|j: int| 0 <= j < junk.len() - 1 ==> junk[j] != BYTE_COLON,
        body.len() <= usize::MAX,
    ensures
        frame_read(junk + frame_encoding(body), 0) == (FrameModel {
            kind: FrameOutcomeKind::InvalidHeader,
            body: Seq::empty(),
            next: junk.len() as int,
        }),
        frame_read(junk + frame_encoding(body), junk.len() as int) == (FrameModel {
            kind: FrameOutcomeKind::Frame,
            body: body,
            next: (junk + frame_encoding(body)).len() as int,
        }),
{
    let s = junk + frame_encoding(body);
    let jl = junk.len() as int;
    assert(forall|j: int| 0 <= j < jl ==> s[j] == junk[j]);
    // The junk is one whole line: its break is its final byte.
    lemma_line_break_at(s, 0, jl - 1);
    assert(next_line(s, 0) == jl);
    let ce = content_end(s, 0);
    assert(0 < s.len());
    if ce == 0 {
        // A blank line with no length seen yet is itself an invalid header.
        assert(frame_read_from(s, 0, None) == (FrameModel {
            kind: FrameOutcomeKind::InvalidHeader,
            body: Seq::empty(),
            next: jl,
        }));
    } else {
        // A non-blank line without a colon is a corrupt header line.
        assert(ce <= jl - 1);
        lemma_last_colon_none(s, 0, ce);
        assert(frame_read_from(s, 0, None) == (FrameModel {
            kind: FrameOutcomeKind::InvalidHeader,
            body: Seq::empty(),
            next: jl,
        }));
    }
    // The next read starts exactly on the well-formed frame.
    assert(s.subrange(jl, s.len() as int) =~= frame_encoding(body));
    lemma_read_encoded_frame(s, jl, body);
}

/// Resynchronisation after a header block with no usable length: a
/// `key: value` line whose value is missing, empty or non-numeric is
/// tolerated as a skippable header, so the block fails at its blank
/// line — one invalid-header result, consuming exactly the block — and
/// the well-formed frame right after it is read intact.
pub proof fn lemma_resynchronisation_unusable_value(line: Seq<u8>, c: int, body: Seq<u8>)
    requires
        line.len() >= 2,
        line[line.len() - 1] == BYTE_NL,
        forall|j: int| 0 <= j < line.len() - 1 ==> line[j] != BYTE_NL,
        0 <= c < content_end(line, 0),
        line[c] == BYTE_COLON,
        forall|j: int| c < j < content_end(line, 0) ==> line[j] != BYTE_COLON,
        value_of(line, c + 1, content_end(line, 0)) is None,
        body.len() <= usize::MAX,
    ensures
        frame_read(line + seq![BYTE_CR, BYTE_NL] + frame_encoding(body), 0) == (FrameModel {
            kind: FrameOutcomeKind::InvalidHeader,
            body: Seq::empty(),
            next: line.len() + 2int,
        }),
        frame_read(line + seq![BYTE_CR, BYTE_NL] + frame_encoding(body), line.len() + 2int) == (
        FrameModel {
            kind: FrameOutcomeKind::Frame,
            body: body,
            next: (line + seq![BYTE_CR, BYTE_NL] + frame_encoding(body)).len() as int,
        }),
{
    let s = line + seq![BYTE_CR, BYTE_NL] + frame_encoding(body);
    let ll = line.len() as int;
    assert(forall|j: int| 0 <= j < ll ==> s[j] == line[j]);
    assert(s[ll] == BYTE_CR && s[ll + 1] == BYTE_NL);
    // The bad line: same break, content end, colon and value as alone.
    lemma_line_break_at(line, 0, ll - 1);
    lemma_line_break_at(s, 0, ll - 1);
    let ce = content_end(line, 0);
    assert(content_end(s, 0) == ce);
    assert(next_line(s, 0) == ll);
    lemma_last_colon_at(s, 0, ce, c);
    lemma_value_of_congruent(s, line, c + 1, ce);
    assert(line_length_value(s, 0, ce) is None);
    // So it is skipped with nothing recorded.
    assert(frame_read_from(s, 0, None) == frame_read_from(s, ll, None));
    // The blank line closes the block with no length seen: invalid.
    lemma_line_break_at(s, ll, ll + 1);
    assert(content_end(s, ll) == ll);
    assert(next_line(s, ll) == ll + 2);
    assert(frame_read_from(s, ll, None) == (FrameModel {
        kind: FrameOutcomeKind::InvalidHeader,
        body: Seq::empty(),
        next: ll + 2,
    }));
    // The next read starts exactly on the well-formed frame.
    assert(s.subrange(ll + 2, s.len() as int) =~= frame_encoding(body));
    lemma_read_encoded_frame(s, ll + 2, body);
}

} // verus!
