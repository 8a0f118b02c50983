//! Wire codec: length-prefixed framing for backend connections.
//!
//! A frame is a header line `Content-Length: <n>`, a blank line, and exactly
//! `n` bytes of payload. Decoding is driven line by line by `FrameReader`,
//! which tolerates stray non-header lines and up to five consecutive blank
//! lines of keep-alive noise.

use vstd::prelude::*;

verus! {

/// Decimal digits of `n`, most significant first.
pub open spec fn dec_of(n: nat) -> Seq<u8>
    decreases n,
{
    if n < 10 {
        seq![(48 + n) as u8]
    } else {
        dec_of(n / 10).push((48 + n % 10) as u8)
    }
}

/// Append the decimal digits of `n` to `out`.
pub fn push_dec(out: &mut Vec<u8>, n: u64)
    ensures
        final(out)@ == old(out)@ + dec_of(n as nat),
    decreases n,
{
    if n < 10 {
        out.push(48 + n as u8);
        assert(out@ =~= old(out)@ + dec_of(n as nat));
    } else {
        push_dec(out, n / 10);
        out.push(48 + (n % 10) as u8);
        assert(out@ =~= old(out)@ + dec_of(n as nat));
    }
}

pub open spec fn is_digit(b: u8) -> bool {
    48 <= b <= 57
}

pub open spec fn all_digits(s: Seq<u8>) -> bool {
    forall|i: int| 0 <= i < s.len() ==> is_digit(#[trigger] s[i])
}

/// Value of a decimal digit string, read from the left.
pub open spec fn dec_val(s: Seq<u8>) -> nat
    decreases s.len(),
{
    if s.len() == 0 {
        0
    } else {
        dec_val(s.drop_last()) * 10 + (s.last() - 48) as nat
    }
}

/// The digits emitted for `n` read back as `n`.
pub proof fn lemma_dec_round_trip(n: nat)
    ensures
        all_digits(dec_of(n)),
        dec_val(dec_of(n)) == n,
        dec_of(n).len() >= 1,
    decreases n,
{
    if n < 10 {
        assert(dec_of(n) =~= seq![(48 + n) as u8]);
        assert(dec_of(n).drop_last() =~= Seq::<u8>::empty());
        assert(dec_of(n).last() == (48 + n) as u8);
        assert(((48 + n) as u8 - 48) as nat == n);
        assert(dec_val(dec_of(n)) == dec_val(dec_of(n).drop_last()) * 10 + (dec_of(n).last()
            - 48) as nat);
        assert(dec_val(dec_of(n)) == n);
    } else {
        lemma_dec_round_trip(n / 10);
        let d = (48 + n % 10) as u8;
        assert(dec_of(n) == dec_of(n / 10).push(d));
        assert(dec_of(n).drop_last() =~= dec_of(n / 10));
        assert(dec_of(n).last() == d);
        assert(dec_val(dec_of(n)) == dec_val(dec_of(n / 10)) * 10 + (d - 48) as nat);
        assert((d - 48) as nat == n % 10);
        assert(n / 10 * 10 + n % 10 == n) by (nonlinear_arith);
        assert(forall|i: int| 0 <= i < dec_of(n).len() ==> is_digit(#[trigger] dec_of(n)[i]))
            by {
            assert(forall|i: int|
                0 <= i < dec_of(n / 10).len() ==> is_digit(#[trigger] dec_of(n / 10)[i]));
        }
    }
}

/// A longer digit string never has a smaller value.
pub proof fn lemma_dec_val_prefix_le(s: Seq<u8>, j: int)
    requires
        0 <= j <= s.len(),
    ensures
        dec_val(s.take(j)) <= dec_val(s),
    decreases s.len() - j,
{
    if j == s.len() {
        assert(s.take(j) =~= s);
    } else {
        lemma_dec_val_prefix_le(s, j + 1);
        assert(s.take(j + 1).drop_last() =~= s.take(j));
        assert(dec_val(s.take(j + 1)) == dec_val(s.take(j)) * 10 + (s.take(j + 1).last()
            - 48) as nat);
    }
}

/// Parse an unsigned decimal number; `None` on an empty string, a non-digit,
/// or a value that does not fit in `u64`.
pub fn parse_dec(s: &[u8]) -> (r: Option<u64>)
    ensures
        match r {
            Some(v) => s@.len() > 0 && all_digits(s@) && dec_val(s@) == v as nat,
            None => s@.len() == 0 || !all_digits(s@) || dec_val(s@) > u64::MAX,
        },
{
    if s.len() == 0 {
        return None;
    }
    let mut n: u64 = 0;
    let mut i: usize = 0;
    while i < s.len()
        invariant
            0 <= i <= s@.len(),
            all_digits(s@.take(i as int)),
            dec_val(s@.take(i as int)) == n as nat,
        decreases s@.len() - i,
    {
        let b = s[i];
        if b < 48 || b > 57 {
            assert(!is_digit(s@[i as int]));
            return None;
        }
        let d = (b - 48) as u64;
        if n > (u64::MAX - d) / 10 {
            proof {
                assert(s@.take(i as int + 1).drop_last() =~= s@.take(i as int));
                assert(dec_val(s@.take(i as int + 1)) == n as nat * 10 + d as nat);
                lemma_dec_val_prefix_le(s@, i as int + 1);
            }
            return None;
        }
        n = n * 10 + d;
        proof {
            assert(s@.take(i as int + 1).drop_last() =~= s@.take(i as int));
        }
        i = i + 1;
    }
    proof {
        assert(s@.take(i as int) =~= s@);
    }
    Some(n)
}

/// Bytes of the header prefix `Content-Length: ` followed by the decimal
/// length and the header/blank-line terminators.
pub open spec fn header_prefix() -> Seq<u8> {
    seq![67u8, 111u8, 110u8, 116u8, 101u8, 110u8, 116u8, 45u8, 76u8, 101u8, 110u8, 103u8, 116u8, 104u8]
}

pub open spec fn header_of(n: nat) -> Seq<u8> {
    header_prefix() + seq![58u8, 32u8] + dec_of(n) + seq![13u8, 10u8, 13u8, 10u8]
}

/// Append `s` to `out`.
pub fn push_bytes(out: &mut Vec<u8>, s: &[u8])
    ensures
        final(out)@ == old(out)@ + s@,
{
    let mut i: usize = 0;
    while i < s.len()
        invariant
            0 <= i <= s@.len(),
            out@ == old(out)@ + s@.take(i as int),
        decreases s@.len() - i,
    {
        out.push(s[i]);
        proof {
            assert(old(out)@ + s@.take(i as int + 1) =~= (old(out)@ + s@.take(i as int)).push(
                s@[i as int]));
        }
        i = i + 1;
    }
    proof {
        assert(s@.take(i as int) =~= s@);
    }
}

/// Wrap a payload in the length-prefixed framing. The emitted length is the
/// exact byte count of the payload, whatever characters it encodes.
pub fn encode_frame(payload: &[u8]) -> (r: Vec<u8>)
    ensures
        r@ == header_of(payload@.len()) + payload@,
        r@.len() == header_of(payload@.len()).len() + payload@.len(),
{
    let mut out: Vec<u8> = Vec::new();
    out.push(67u8);
    out.push(111u8);
    out.push(110u8);
    out.push(116u8);
    out.push(101u8);
    out.push(110u8);
    out.push(116u8);
    out.push(45u8);
    out.push(76u8);
    out.push(101u8);
    out.push(110u8);
    out.push(103u8);
    out.push(116u8);
    out.push(104u8);
    out.push(58u8);
    out.push(32u8);
    assert(out@ =~= header_prefix() + seq![58u8, 32u8]);
    push_dec(&mut out, payload.len() as u64);
    out.push(13u8);
    out.push(10u8);
    out.push(13u8);
    out.push(10u8);
    push_bytes(&mut out, payload);
    proof {
        assert(out@ =~= header_of(payload@.len()) + payload@);
    }
    out
}

pub open spec fn is_ws(b: u8) -> bool {
    b == 32 || b == 9 || b == 13 || b == 10
}

pub open spec fn trim_start_of(s: Seq<u8>) -> Seq<u8>
    decreases s.len(),
{
    if s.len() > 0 && is_ws(s[0]) {
        trim_start_of(s.drop_first())
    } else {
        s
    }
}

pub open spec fn trim_end_of(s: Seq<u8>) -> Seq<u8>
    decreases s.len(),
{
    if s.len() > 0 && is_ws(s.last()) {
        trim_end_of(s.drop_last())
    } else {
        s
    }
}

/// `s` with leading and trailing whitespace removed.
pub open spec fn trim_of(s: Seq<u8>) -> Seq<u8> {
    trim_end_of(trim_start_of(s))
}

/// Copy of `s` with leading and trailing whitespace removed.
pub fn trim(s: &[u8]) -> (r: Vec<u8>)
    ensures
        r@ == trim_of(s@),
{
    proof {
        assert(s@.skip(0) =~= s@);
    }
    let mut lo: usize = 0;
    while lo < s.len() && (s[lo] == 32 || s[lo] == 9 || s[lo] == 13 || s[lo] == 10)
        invariant
            0 <= lo <= s@.len(),
            trim_start_of(s@) == trim_start_of(s@.skip(lo as int)),
        decreases s@.len() - lo,
    {
        proof {
            assert(s@.skip(lo as int)[0] == s@[lo as int]);
            assert(s@.skip(lo as int).drop_first() =~= s@.skip(lo as int + 1));
        }
        lo = lo + 1;
    }
    proof {
        if lo < s@.len() {
            assert(s@.skip(lo as int)[0] == s@[lo as int]);
        }
        assert(trim_start_of(s@.skip(lo as int)) == s@.skip(lo as int));
    }
    let mut hi: usize = s.len();
    proof {
        assert(s@.skip(lo as int) =~= s@.subrange(lo as int, hi as int));
    }
    while hi > lo && (s[hi - 1] == 32 || s[hi - 1] == 9 || s[hi - 1] == 13 || s[hi - 1] == 10)
        invariant
            lo <= hi <= s@.len(),
            trim_end_of(s@.skip(lo as int)) == trim_end_of(s@.subrange(lo as int, hi as int)),
        decreases hi,
    {
        proof {
            assert(s@.subrange(lo as int, hi as int).last() == s@[hi as int - 1]);
            assert(s@.subrange(lo as int, hi as int).drop_last() =~= s@.subrange(
                lo as int,
                hi as int - 1,
            ));
        }
        hi = hi - 1;
    }
    proof {
        if hi > lo {
            assert(s@.subrange(lo as int, hi as int).last() == s@[hi as int - 1]);
        }
        assert(trim_end_of(s@.subrange(lo as int, hi as int)) == s@.subrange(
            lo as int,
            hi as int,
        ));
    }
    let mut out: Vec<u8> = Vec::new();
    let mut i: usize = lo;
    while i < hi
        invariant
            lo <= i <= hi <= s@.len(),
            out@ == s@.subrange(lo as int, i as int),
        decreases hi - i,
    {
        out.push(s[i]);
        proof {
            assert(s@.subrange(lo as int, i as int + 1) =~= s@.subrange(lo as int, i as int).push(
                s@[i as int]));
        }
        i = i + 1;
    }
    out
}

/// Does `s` begin with the header prefix `Content-Length`?
pub open spec fn has_length_prefix(s: Seq<u8>) -> bool {
    s.len() >= 14 && (forall|i: int| 0 <= i < 14 ==> s[i] == #[trigger] header_prefix()[i])
}

fn check_length_prefix(s: &[u8]) -> (r: bool)
    ensures
        r == has_length_prefix(s@),
{
    if s.len() < 14 {
        return false;
    }
    proof {
        assert(header_prefix()[0] == 67);
        assert(header_prefix()[1] == 111);
        assert(header_prefix()[2] == 110);
        assert(header_prefix()[3] == 116);
        assert(header_prefix()[4] == 101);
        assert(header_prefix()[5] == 110);
        assert(header_prefix()[6] == 116);
        assert(header_prefix()[7] == 45);
        assert(header_prefix()[8] == 76);
        assert(header_prefix()[9] == 101);
        assert(header_prefix()[10] == 110);
        assert(header_prefix()[11] == 103);
        assert(header_prefix()[12] == 116);
        assert(header_prefix()[13] == 104);
    }
    let r = s[0] == 67 && s[1] == 111 && s[2] == 110 && s[3] == 116 && s[4] == 101 && s[5] == 110
        && s[6] == 116 && s[7] == 45 && s[8] == 76 && s[9] == 101 && s[10] == 110 && s[11] == 103
        && s[12] == 116 && s[13] == 104;
    if r {
        assert forall|i: int| 0 <= i < 14 implies s@[i] == #[trigger] header_prefix()[i] by {
        }
    } else {
        assert(!has_length_prefix(s@));
    }
    r
}

/// Index of the first occurrence of `b` in `s`, if any.
pub open spec fn find_byte(s: Seq<u8>, b: u8) -> Option<int>
    decreases s.len(),
{
    if s.len() == 0 {
        None
    } else if s[0] == b {
        Some(0int)
    } else {
        match find_byte(s.drop_first(), b) {
            Some(i) => Some(i + 1),
            None => None,
        }
    }
}

pub proof fn lemma_find_byte(s: Seq<u8>, b: u8)
    ensures
        match find_byte(s, b) {
            Some(i) => 0 <= i < s.len() && s[i] == b && (forall|j: int|
                0 <= j < i ==> #[trigger] s[j] != b),
            None => forall|j: int| 0 <= j < s.len() ==> #[trigger] s[j] != b,
        },
    decreases s.len(),
{
    if s.len() == 0 {
    } else if s[0] == b {
    } else {
        lemma_find_byte(s.drop_first(), b);
        let d = s.drop_first();
        assert(forall|j: int| 0 <= j < d.len() ==> #[trigger] d[j] == s[j + 1]);
        match find_byte(d, b) {
            Some(i) => {
                assert(find_byte(s, b) == Some(i + 1));
                assert(s[i + 1] == d[i]);
                assert forall|j: int| 0 <= j < i + 1 implies #[trigger] s[j] != b by {
                    if j > 0 {
                        assert(d[j - 1] == s[j]);
                        assert(d[j - 1] != b);
                    }
                }
            },
            None => {
                assert forall|j: int| 0 <= j < s.len() implies #[trigger] s[j] != b by {
                    if j > 0 {
                        assert(d[j - 1] == s[j]);
                    }
                }
            },
        }
    }
}

/// First occurrence of `b` in `s`.
pub fn find_byte_at(s: &[u8], b: u8) -> (r: Option<usize>)
    ensures
        match r {
            Some(i) => find_byte(s@, b) == Some(i as int),
            None => find_byte(s@, b) is None,
        },
{
    proof {
        lemma_find_byte(s@, b);
    }
    let mut i: usize = 0;
    while i < s.len()
        invariant
            0 <= i <= s@.len(),
            forall|j: int| 0 <= j < i ==> #[trigger] s@[j] != b,
        decreases s@.len() - i,
    {
        if s[i] == b {
            proof {
                lemma_find_byte(s@, b);
                if let Some(k) = find_byte(s@, b) {
                    assert(k == i as int);
                } else {
                    assert(false);
                }
            }
            return Some(i);
        }
        i = i + 1;
    }
    None
}

/// What one line of the backend stream is, once trimmed.
#[derive(Debug, PartialEq, Eq, Structural)]
pub enum HeaderLine {
    /// An empty line: keep-alive noise, or the separator before a payload.
    Blank,
    /// Stray protocol chatter; ignored.
    Other,
    /// A well-formed `Content-Length` header carrying this byte count.
    Length(usize),
    /// A `Content-Length` header whose value cannot be read.
    Malformed,
}

pub open spec fn spec_parse_header(line: Seq<u8>) -> HeaderLine {
    let t = trim_of(line);
    if t.len() == 0 {
        HeaderLine::Blank
    } else if !has_length_prefix(t) {
        HeaderLine::Other
    } else {
        match find_byte(t, 58) {
            None => HeaderLine::Malformed,
            Some(i) => {
                let v = trim_of(t.skip(i + 1));
                if v.len() > 0 && all_digits(v) && dec_val(v) <= usize::MAX {
                    HeaderLine::Length(dec_val(v) as usize)
                } else {
                    HeaderLine::Malformed
                }
            },
        }
    }
}

/// Classify one line of the backend stream.
pub fn parse_header(line: &[u8]) -> (r: HeaderLine)
    ensures
        r == spec_parse_header(line@),
{
    let t = trim(line);
    if t.len() == 0 {
        return HeaderLine::Blank;
    }
    if !check_length_prefix(t.as_slice()) {
        return HeaderLine::Other;
    }
    match find_byte_at(t.as_slice(), 58) {
        None => HeaderLine::Malformed,
        Some(i) => {
            proof {
                lemma_find_byte(t@, 58);
            }
            assert(i < t.len());
            let rest = vstd::slice::slice_subrange(t.as_slice(), i + 1, t.len());
            proof {
                assert(rest@ =~= t@.skip(i as int + 1));
            }
            let v = trim(rest);
            match parse_dec(v.as_slice()) {
                None => {
                    proof {
                        assert(usize::MAX <= u64::MAX);
                    }
                    HeaderLine::Malformed
                },
                Some(n) => {
                    if n <= usize::MAX as u64 {
                        HeaderLine::Length(n as usize)
                    } else {
                        HeaderLine::Malformed
                    }
                },
            }
        },
    }
}


/// Framing round trip: the header line that `encode_frame` emits for a
/// payload of `n` bytes parses back as a well-formed length header carrying
/// exactly `n`, so a reader facing our own frames always reads the right
/// byte count.
pub proof fn lemma_header_round_trip(n: nat)
    requires
        n <= usize::MAX,
    ensures
        spec_parse_header(header_prefix() + seq![58u8, 32u8] + dec_of(n) + seq![13u8, 10u8])
            == HeaderLine::Length(n as usize),
{
    lemma_dec_round_trip(n);
    let d = dec_of(n);
    let line = header_prefix() + seq![58u8, 32u8] + d + seq![13u8, 10u8];
    let body = header_prefix() + seq![58u8, 32u8] + d;
    assert(header_prefix()[0] == 67);
    assert(line.len() == 16 + d.len() + 2);
    assert(line[0] == 67);
    assert(!is_ws(line[0]));
    assert(trim_start_of(line) == line);

    assert(line.last() == 10);
    assert(line.drop_last() =~= body + seq![13u8]);
    assert((body + seq![13u8]).last() == 13);
    assert((body + seq![13u8]).drop_last() =~= body);
    assert(body.last() == d.last());
    assert(is_digit(d.last()));
    assert(!is_ws(body.last()));
    assert(trim_end_of(line) == trim_end_of(body + seq![13u8]));
    assert(trim_end_of(body + seq![13u8]) == trim_end_of(body));
    assert(trim_end_of(body) == body);
    assert(trim_of(line) == body);

    assert(body.len() >= 16);
    assert(forall|i: int| 0 <= i < 14 ==> body[i] == #[trigger] header_prefix()[i]);
    assert(has_length_prefix(body));

    assert(header_prefix()[0] == 67);
    assert(header_prefix()[1] == 111);
    assert(header_prefix()[2] == 110);
    assert(header_prefix()[3] == 116);
    assert(header_prefix()[4] == 101);
    assert(header_prefix()[5] == 110);
    assert(header_prefix()[6] == 116);
    assert(header_prefix()[7] == 45);
    assert(header_prefix()[8] == 76);
    assert(header_prefix()[9] == 101);
    assert(header_prefix()[10] == 110);
    assert(header_prefix()[11] == 103);
    assert(header_prefix()[12] == 116);
    assert(header_prefix()[13] == 104);
    assert(body[14] == 58);
    lemma_find_byte(body, 58);
    match find_byte(body, 58) {
        None => {
            assert(false);
        },
        Some(i) => {
            if i < 14 {
                assert(body[i] == header_prefix()[i]);
                assert(false);
            }
            if i > 14 {
                assert(body[14] != 58);
                assert(false);
            }
            assert(i == 14);
            let rest = body.skip(15);
            assert(rest =~= seq![32u8] + d);
            assert(rest[0] == 32);
            assert(is_ws(rest[0]));
            assert(rest.drop_first() =~= d);
            assert(d.len() > 0);
            assert(!is_ws(d[0]));
            assert(trim_start_of(rest) == trim_start_of(d));
            assert(trim_start_of(d) == d);
            assert(!is_ws(d.last()));
            assert(trim_end_of(d) == d);
            assert(trim_of(rest) == d);
            assert(dec_val(d) == n);
            assert(spec_parse_header(line) == HeaderLine::Length(n as usize));
        },
    }
}

/// What the reader must do after seeing one line.
#[derive(Debug, PartialEq, Eq, Structural)]
pub enum LineStep {
    /// Keep reading lines.
    Skip,
    /// Read exactly this many payload bytes next.
    NeedPayload(usize),
    /// Fatal framing error: tear the connection down.
    Fatal,
}

/// Line-by-line framing state of one backend connection's reader.
pub struct FrameReader {
    /// Consecutive blank lines seen while no length was pending.
    pub blanks: u64,
    /// The byte count announced by the last header, not yet consumed.
    pub pending: Option<usize>,
}

pub open spec fn spec_step_line(st: FrameReader, line: Seq<u8>) -> (FrameReader, LineStep) {
    match spec_parse_header(line) {
        HeaderLine::Blank => match st.pending {
            Some(n) => (FrameReader { blanks: 0, pending: None }, LineStep::NeedPayload(n)),
            None => if st.blanks >= 5 {
                (st, LineStep::Fatal)
            } else {
                (FrameReader { blanks: (st.blanks + 1) as u64, pending: None }, LineStep::Skip)
            },
        },
        HeaderLine::Other => (FrameReader { blanks: 0, pending: st.pending }, LineStep::Skip),
        HeaderLine::Length(n) => (FrameReader { blanks: 0, pending: Some(n) }, LineStep::Skip),
        HeaderLine::Malformed => (st, LineStep::Fatal),
    }
}

impl FrameReader {
    pub open spec fn wf(self) -> bool {
        self.blanks <= 5
    }

    pub fn new() -> (r: FrameReader)
        ensures
            r == (FrameReader { blanks: 0, pending: None::<usize> }),
            r.wf(),
    {
        FrameReader { blanks: 0, pending: None }
    }

    /// Feed one line of the stream; blank lines either hand over a pending
    /// payload length or count toward the keep-alive tolerance, headers set
    /// the pending length, chatter is ignored, and a malformed header or a
    /// sixth consecutive blank line is fatal.
    pub fn step_line(&mut self, line: &[u8]) -> (r: LineStep)
        requires
            old(self).wf(),
        ensures
            *final(self) == spec_step_line(*old(self), line@).0,
            r == spec_step_line(*old(self), line@).1,
            final(self).wf(),
    {
        match parse_header(line) {
            HeaderLine::Blank => {
                match self.pending {
                    Some(n) => {
                        self.pending = None;
                        self.blanks = 0;
                        LineStep::NeedPayload(n)
                    },
                    None => {
                        if self.blanks >= 5 {
                            LineStep::Fatal
                        } else {
                            self.blanks = self.blanks + 1;
                            LineStep::Skip
                        }
                    },
                }
            },
            HeaderLine::Other => {
                self.blanks = 0;
                LineStep::Skip
            },
            HeaderLine::Length(n) => {
                self.blanks = 0;
                self.pending = Some(n);
                LineStep::Skip
            },
            HeaderLine::Malformed => LineStep::Fatal,
        }
    }
}

/// The framing state after feeding `k` copies of `line` to `st`.
pub open spec fn feed_blanks(st: FrameReader, line: Seq<u8>, k: nat) -> FrameReader
    decreases k,
{
    if k == 0 {
        st
    } else {
        spec_step_line(feed_blanks(st, line, (k - 1) as nat), line).0
    }
}

/// Blank-line tolerance: starting from a fresh reader with no pending length,
/// each of the first five consecutive blank lines is skipped, and the sixth
/// is a fatal framing error.
pub proof fn lemma_blank_line_tolerance(line: Seq<u8>, k: nat)
    requires
        spec_parse_header(line) == HeaderLine::Blank,
        k <= 5,
    ensures
        feed_blanks(FrameReader { blanks: 0, pending: None }, line, k) == (FrameReader {
            blanks: k as u64,
            pending: None::<usize>,
        }),
        k < 5 ==> spec_step_line(
            feed_blanks(FrameReader { blanks: 0, pending: None }, line, k),
            line,
        ).1 == LineStep::Skip,
        k == 5 ==> spec_step_line(
            feed_blanks(FrameReader { blanks: 0, pending: None }, line, k),
            line,
        ).1 == LineStep::Fatal,
    decreases k,
{
    if k > 0 {
        lemma_blank_line_tolerance(line, (k - 1) as nat);
    }
}

/// Codec round trip at the framing layer: a fresh reader fed the very
/// header line and blank line that `encode_frame` emits for an `n`-byte
/// payload skips the header and then asks for exactly `n` payload bytes.
pub proof fn lemma_frame_reader_round_trip(n: nat)
    requires
        n <= usize::MAX,
    ensures
        ({
            let line = header_prefix() + seq![58u8, 32u8] + dec_of(n) + seq![13u8, 10u8];
            let blank = seq![13u8, 10u8];
            let start = FrameReader { blanks: 0, pending: None };
            let (afterheader, first) = spec_step_line(start, line);
            let (_done, second) = spec_step_line(afterheader, blank);
            first == LineStep::Skip && second == LineStep::NeedPayload(n as usize)
        }),
{
    lemma_header_round_trip(n);
    let blank = seq![13u8, 10u8];
    assert(blank[0] == 13 && is_ws(blank[0]));
    assert(blank.drop_first() =~= seq![10u8]);
    assert(trim_start_of(blank) == trim_start_of(seq![10u8]));
    assert(seq![10u8][0] == 10 && is_ws(seq![10u8][0]));
    assert(seq![10u8].drop_first() =~= Seq::<u8>::empty());
    assert(trim_start_of(seq![10u8]) == trim_start_of(Seq::<u8>::empty()));
    assert(trim_start_of(Seq::<u8>::empty()) == Seq::<u8>::empty());
    assert(trim_end_of(Seq::<u8>::empty()) == Seq::<u8>::empty());
    assert(trim_of(blank).len() == 0);
    assert(spec_parse_header(blank) == HeaderLine::Blank);
}

} // verus!
