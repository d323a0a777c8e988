//! Base-protocol framing: `Content-Length: <n>\r\n\r\n` followed by `n` bytes.
use vstd::prelude::*;

verus! {

/// Bytes that count as whitespace around a header value.
pub open spec fn is_ws(b: u8) -> bool {
    b == 32 || b == 9 || b == 10 || b == 11 || b == 12 || b == 13
}

pub open spec fn is_digit(b: u8) -> bool {
    48 <= b && b <= 57
}

/// `Content-Length:`
pub open spec fn length_tag() -> Seq<u8> {
    seq![67u8, 111, 110, 116, 101, 110, 116, 45, 76, 101, 110, 103, 116, 104, 58]
}

pub open spec fn crlf() -> Seq<u8> {
    seq![13u8, 10]
}

/// Decimal text of `n`, most significant digit first, no leading zeros.
pub open spec fn decimal(n: nat) -> Seq<u8>
    decreases n,
{
    if n < 10 {
        seq![(48 + n) as u8]
    } else {
        decimal(n / 10).push((48 + n % 10) as u8)
    }
}

/// The value of a string of decimal digits.
pub open spec fn digits_value(s: Seq<u8>) -> nat
    decreases s.len(),
{
    if s.len() == 0 {
        0
    } else {
        digits_value(s.drop_last()) * 10 + (s.last() - 48) as nat
    }
}

pub open spec fn all_digits(s: Seq<u8>) -> bool {
    s.len() > 0 && forall|i: int| 0 <= i < s.len() ==> is_digit(#[trigger] s[i])
}

pub open spec fn ltrim(s: Seq<u8>) -> Seq<u8>
    decreases s.len(),
{
    if s.len() > 0 && is_ws(s[0]) {
        ltrim(s.drop_first())
    } else {
        s
    }
}

pub open spec fn rtrim(s: Seq<u8>) -> Seq<u8>
    decreases s.len(),
{
    if s.len() > 0 && is_ws(s.last()) {
        rtrim(s.drop_last())
    } else {
        s
    }
}

/// The length that the text after `Content-Length:` declares, if it is a
/// whitespace-trimmed run of decimal digits whose value fits in `usize`.
pub open spec fn length_value(field: Seq<u8>) -> Option<nat> {
    number_value(rtrim(ltrim(field)), usize::MAX as nat)
}

/// The value of a run of decimal digits that fits in `max`.
pub open spec fn digits_number(t: Seq<u8>, max: nat) -> Option<nat> {
    if all_digits(t) && digits_value(t) <= max {
        Some(digits_value(t))
    } else {
        None
    }
}

/// The value of a decimal number, with an optional leading `+`, that fits
/// in `max`.
pub open spec fn number_value(t: Seq<u8>, max: nat) -> Option<nat> {
    if t.len() > 0 && t[0] == 43 {
        digits_number(t.drop_first(), max)
    } else {
        digits_number(t, max)
    }
}

/// The header block that precedes a payload of `n` bytes.
pub open spec fn header(n: nat) -> Seq<u8> {
    length_tag() + seq![32u8] + decimal(n) + crlf() + crlf()
}

/// The frame that carries `payload`.
pub open spec fn encoded(payload: Seq<u8>) -> Seq<u8> {
    header(payload.len()) + payload
}

/// How far reading a header block gets.
pub enum HeaderScan {
    /// No complete header block yet.
    Incomplete,
    /// A `Content-Length` line whose value is not a decimal `usize`.
    BadLength,
    /// The block ended without a `Content-Length` line.
    MissingLength,
    /// The block ends before `start`, and declares `len` payload bytes.
    Body { start: nat, len: nat },
}

/// Reads the header block of `s` from position `i`, where the current line
/// began at `line_start`. `len` is the last declared length seen and `seen`
/// whether any header line came yet. A bare CRLF line before the first header
/// line is skipped; after one, it ends the block. Lines end with LF; other
/// lines are ignored.
pub open spec fn scan(s: Seq<u8>, i: nat, line_start: nat, len: Option<nat>, seen: bool) -> HeaderScan
    decreases s.len() - i,
{
    if i >= s.len() {
        HeaderScan::Incomplete
    } else if s[i as int] != 10 {
        scan(s, i + 1, line_start, len, seen)
    } else {
        let line = s.subrange(line_start as int, i + 1 as int);
        if line.len() >= 15 && line.subrange(0, 15) == length_tag() {
            match length_value(line.subrange(15, line.len() as int)) {
                None => HeaderScan::BadLength,
                Some(n) => scan(s, i + 1, i + 1, Some(n), true),
            }
        } else if line == crlf() {
            if !seen {
                scan(s, i + 1, i + 1, len, seen)
            } else {
                match len {
                    None => HeaderScan::MissingLength,
                    Some(n) => HeaderScan::Body { start: i + 1, len: n },
                }
            }
        } else {
            scan(s, i + 1, i + 1, len, true)
        }
    }
}

/// Why a header block is refused.
#[derive(PartialEq, Eq, Structural, Clone, Copy, Debug)]
pub enum FrameError {
    /// The `Content-Length` value is not a decimal number that fits in `usize`.
    BadLength,
    /// The header block ended without a `Content-Length` line.
    MissingLength,
}

/// What a buffer holds at its front.
pub enum Decoded {
    /// A whole frame: its payload, and how many bytes it takes up.
    Frame { payload: Seq<u8>, consumed: nat },
    /// A prefix of a frame, maybe empty.
    NeedMore,
    Malformed(FrameError),
}

pub open spec fn decoded(s: Seq<u8>) -> Decoded {
    match scan(s, 0, 0, None, false) {
        HeaderScan::Incomplete => Decoded::NeedMore,
        HeaderScan::BadLength => Decoded::Malformed(FrameError::BadLength),
        HeaderScan::MissingLength => Decoded::Malformed(FrameError::MissingLength),
        HeaderScan::Body { start, len } => if start + len <= s.len() {
            Decoded::Frame { payload: s.subrange(start as int, (start + len) as int), consumed: start + len }
        } else {
            Decoded::NeedMore
        },
    }
}

/// A frame taken off the front of a buffer.
pub struct Frame {
    pub payload: Vec<u8>,
    /// Header and payload bytes together.
    pub consumed: usize,
}

pub(crate) fn push_slice(out: &mut Vec<u8>, b: &[u8])
    ensures
        final(out)@ == old(out)@ + b@,
{
    let mut i: usize = 0;
    while i < b.len()
        invariant
            i <= b@.len(),
            out@ == old(out)@ + b@.subrange(0, i as int),
        decreases b@.len() - i,
    {
        out.push(b[i]);
        i = i + 1;
        assert(b@.subrange(0, i as int) =~= b@.subrange(0, i - 1) + seq![b@[i - 1]]);
    }
    assert(b@.subrange(0, i as int) =~= b@);
}

/// Appends the decimal text of `n`.
pub fn push_decimal(out: &mut Vec<u8>, n: u128)
    ensures
        final(out)@ == old(out)@ + decimal(n as nat),
    decreases n,
{
    if n >= 10 {
        push_decimal(out, n / 10);
    }
    out.push((48 + n % 10) as u8);
    assert(final(out)@ =~= old(out)@ + decimal(n as nat));
}

/// Frames `payload`: the header with its byte length, then the payload itself.
pub fn encode(payload: &[u8]) -> (r: Vec<u8>)
    ensures
        r@ == encoded(payload@),
{
    let mut out: Vec<u8> = Vec::new();
    push_slice(&mut out, &[67u8, 111, 110, 116, 101, 110, 116, 45, 76, 101, 110, 103, 116, 104, 58]);
    out.push(32u8);
    push_decimal(&mut out, payload.len() as u128);
    out.push(13u8);
    out.push(10u8);
    out.push(13u8);
    out.push(10u8);
    push_slice(&mut out, payload);
    assert(out@ =~= encoded(payload@));
    out
}


pub open spec fn opt_nat(o: Option<usize>) -> Option<nat> {
    match o {
        Some(n) => Some(n as nat),
        None => None,
    }
}

proof fn lemma_digits_monotone(s: Seq<u8>, m: int, n: int)
    requires
        0 <= m <= n <= s.len(),
        forall|i: int| 0 <= i < n ==> is_digit(#[trigger] s[i]),
    ensures
        digits_value(s.subrange(0, m)) <= digits_value(s.subrange(0, n)),
    decreases n - m,
{
    if m < n {
        lemma_digits_monotone(s, m, n - 1);
        assert(s.subrange(0, n).drop_last() =~= s.subrange(0, n - 1));
    }
}

/// The declared length in `buf[a..b]`, the text after `Content-Length:`.
fn parse_length(buf: &[u8], a: usize, b: usize) -> (r: Option<usize>)
    requires
        a <= b <= buf@.len(),
    ensures
        opt_nat(r) == length_value(buf@.subrange(a as int, b as int)),
{
    let ghost s = buf@;
    let mut lo: usize = a;
    while lo < b && (buf[lo] == 32 || buf[lo] == 9 || buf[lo] == 10 || buf[lo] == 11 || buf[lo] == 12 || buf[lo] == 13)
        invariant
            a <= lo <= b <= s.len(),
            s == buf@,
            ltrim(s.subrange(a as int, b as int)) == ltrim(s.subrange(lo as int, b as int)),
        decreases b - lo,
    {
        assert(s.subrange(lo as int, b as int).drop_first() =~= s.subrange(lo + 1, b as int));
        lo = lo + 1;
    }
    assert(ltrim(s.subrange(lo as int, b as int)) == s.subrange(lo as int, b as int));
    let mut hi: usize = b;
    while hi > lo && (buf[hi - 1] == 32 || buf[hi - 1] == 9 || buf[hi - 1] == 10 || buf[hi - 1] == 11 || buf[hi - 1] == 12 || buf[hi - 1] == 13)
        invariant
            a <= lo <= hi <= b <= s.len(),
            s == buf@,
            rtrim(ltrim(s.subrange(a as int, b as int))) == rtrim(s.subrange(lo as int, hi as int)),
        decreases hi - lo,
    {
        assert(s.subrange(lo as int, hi as int).drop_last() =~= s.subrange(lo as int, hi - 1));
        hi = hi - 1;
    }
    assert(rtrim(s.subrange(lo as int, hi as int)) == s.subrange(lo as int, hi as int));
    parse_number(buf, lo, hi, usize::MAX)
}

/// The decimal number in `buf[lo..hi]`, which may open with `+`, if it is
/// one and fits in `max`.
pub fn parse_number(buf: &[u8], lo: usize, hi: usize, max: usize) -> (r: Option<usize>)
    requires
        lo <= hi <= buf@.len(),
    ensures
        opt_nat(r) == number_value(buf@.subrange(lo as int, hi as int), max as nat),
{
    if lo < hi && buf[lo] == 43 {
        assert(buf@.subrange(lo as int, hi as int).drop_first() =~= buf@.subrange(lo + 1, hi as int));
        parse_digits(buf, lo + 1, hi, max)
    } else {
        parse_digits(buf, lo, hi, max)
    }
}

fn parse_digits(buf: &[u8], lo: usize, hi: usize, max: usize) -> (r: Option<usize>)
    requires
        lo <= hi <= buf@.len(),
    ensures
        opt_nat(r) == digits_number(buf@.subrange(lo as int, hi as int), max as nat),
{
    let ghost s = buf@;
    let ghost t = s.subrange(lo as int, hi as int);
    if lo == hi {
        return None;
    }
    let mut v: usize = 0;
    let mut k: usize = lo;
    while k < hi
        invariant
            lo <= k <= hi <= s.len(),
            s == buf@,
            t == s.subrange(lo as int, hi as int),
            v <= max,
            v as nat == digits_value(t.subrange(0, k - lo)),
            forall|j: int| 0 <= j < k - lo ==> is_digit(#[trigger] t[j]),
        decreases hi - k,
    {
        let d = buf[k];
        if d < 48 || d > 57 {
            assert(!is_digit(t[k - lo]));
            return None;
        }
        assert(t.subrange(0, k + 1 - lo).drop_last() =~= t.subrange(0, k - lo));
        let dd = (d - 48) as usize;
        if dd > max || v > (max - dd) / 10 {
            proof {
                if dd <= max {
                    assert(v * 10 + dd > max) by (nonlinear_arith)
                        requires v > (max - dd) / 10, dd <= 9, dd <= max;
                }
                assert(t[k - lo] == d);
                if all_digits(t) {
                    lemma_digits_monotone(t, k + 1 - lo, t.len() as int);
                    assert(t.subrange(0, t.len() as int) =~= t);
                }
            }
            return None;
        }
        assert(v * 10 + dd <= max) by (nonlinear_arith)
            requires v <= (max - dd) / 10, dd <= max;
        v = v * 10 + dd;
        k = k + 1;
    }
    assert(t.subrange(0, k - lo) =~= t);
    Some(v)
}

/// Whether `buf[ls..end]` begins with `Content-Length:`.
fn has_length_tag(buf: &[u8], ls: usize, end: usize) -> (r: bool)
    requires
        ls <= end <= buf@.len(),
    ensures
        r == (end - ls >= 15 && buf@.subrange(ls as int, end as int).subrange(0, 15) == length_tag()),
{
    if end - ls < 15 {
        return false;
    }
    let tag: [u8; 15] = [67u8, 111, 110, 116, 101, 110, 116, 45, 76, 101, 110, 103, 116, 104, 58];
    assert(tag@ =~= length_tag());
    let ghost line = buf@.subrange(ls as int, end as int).subrange(0, 15);
    let mut j: usize = 0;
    while j < 15
        invariant
            j <= 15,
            ls + 15 <= end <= buf@.len(),
            tag@ == length_tag(),
            line == buf@.subrange(ls as int, end as int).subrange(0, 15),
            forall|x: int| 0 <= x < j ==> line[x] == tag@[x],
        decreases 15 - j,
    {
        if buf[ls + j] != tag[j] {
            assert(line[j as int] != length_tag()[j as int]);
            return false;
        }
        j = j + 1;
    }
    assert(line =~= length_tag());
    true
}

/// Takes the first frame off the front of `buf`: `Ok(Some)` with the payload
/// and the bytes it took up, `Ok(None)` while `buf` holds only part of a
/// frame, or the reason the header block is refused.
pub fn decode(buf: &[u8]) -> (r: Result<Option<Frame>, FrameError>)
    ensures
        match decoded(buf@) {
            Decoded::Frame { payload, consumed } => r matches Ok(Some(f)) && f.payload@ == payload
                && f.consumed == consumed,
            Decoded::NeedMore => r matches Ok(None),
            Decoded::Malformed(e) => r == Err::<Option<Frame>, FrameError>(e),
        },
{
    let ghost s = buf@;
    let mut i: usize = 0;
    let mut ls: usize = 0;
    let mut len: Option<usize> = None;
    let mut seen = false;
    while i < buf.len()
        invariant
            ls <= i <= s.len(),
            s == buf@,
            scan(s, 0, 0, None, false) == scan(s, i as nat, ls as nat, opt_nat(len), seen),
        decreases s.len() - i,
    {
        if buf[i] == 10 {
            let ghost line = s.subrange(ls as int, i + 1);
            if has_length_tag(buf, ls, i + 1) {
                assert(line.subrange(15, line.len() as int) =~= s.subrange(ls + 15, i + 1));
                match parse_length(buf, ls + 15, i + 1) {
                    None => {
                        return Err(FrameError::BadLength);
                    },
                    Some(n) => {
                        len = Some(n);
                        seen = true;
                    },
                }
            } else if i + 1 - ls == 2 && buf[ls] == 13 {
                assert(line =~= crlf());
                if seen {
                    match len {
                        None => {
                            return Err(FrameError::MissingLength);
                        },
                        Some(n) => {
                            let start = i + 1;
                            if n <= buf.len() - start {
                                let mut payload: Vec<u8> = Vec::new();
                                push_slice(&mut payload, &buf[start..start + n]);
                                return Ok(Some(Frame { payload, consumed: start + n }));
                            }
                            return Ok(None);
                        },
                    }
                }
            } else {
                assert(line != crlf()) by {
                    if line.len() == 2 {
                        assert(line[0] != 13);
                    }
                }
                seen = true;
            }
            ls = i + 1;
        }
        i = i + 1;
    }
    Ok(None)
}


proof fn lemma_decimal(n: nat)
    ensures
        all_digits(decimal(n)),
        digits_value(decimal(n)) == n,
    decreases n,
{
    if n >= 10 {
        lemma_decimal(n / 10);
        assert(decimal(n).drop_last() =~= decimal(n / 10));
        assert(decimal(n).last() == (48 + n % 10) as u8);
        assert((n / 10) * 10 + n % 10 == n);
        assert(digits_value(decimal(n)) == digits_value(decimal(n / 10)) * 10 + ((48 + n % 10) as u8 - 48) as nat);
    } else {
        assert(decimal(n).drop_last() =~= Seq::<u8>::empty());
        assert(digits_value(Seq::<u8>::empty()) == 0);
    }
}

/// Bytes other than LF do not end a line, so scanning passes over them.
proof fn lemma_scan_skip(s: Seq<u8>, i: nat, j: nat, ls: nat, len: Option<nat>, seen: bool)
    requires
        i <= j < s.len(),
        forall|x: int| i <= x < j ==> s[x] != 10,
    ensures
        scan(s, i, ls, len, seen) == scan(s, j, ls, len, seen),
    decreases j - i,
{
    if i < j {
        lemma_scan_skip(s, i + 1, j, ls, len, seen);
    }
}

/// Bytes after a decided header block do not change what it says.
proof fn lemma_scan_extend(s: Seq<u8>, t: Seq<u8>, i: nat, ls: nat, len: Option<nat>, seen: bool)
    requires
        ls <= i,
        !(scan(s, i, ls, len, seen) is Incomplete),
    ensures
        scan(s + t, i, ls, len, seen) == scan(s, i, ls, len, seen),
    decreases s.len() - i,
{
    let u = s + t;
    assert(u[i as int] == s[i as int]);
    if s[i as int] != 10 {
        lemma_scan_extend(s, t, i + 1, ls, len, seen);
    } else {
        assert(u.subrange(ls as int, i + 1 as int) =~= s.subrange(ls as int, i + 1 as int));
        let line = s.subrange(ls as int, i + 1 as int);
        if line.len() >= 15 && line.subrange(0, 15) == length_tag() {
            match length_value(line.subrange(15, line.len() as int)) {
                None => {},
                Some(n) => lemma_scan_extend(s, t, i + 1, i + 1, Some(n), true),
            }
        } else if line == crlf() {
            if !seen {
                lemma_scan_extend(s, t, i + 1, i + 1, len, seen);
            }
        } else {
            lemma_scan_extend(s, t, i + 1, i + 1, len, true);
        }
    }
}

proof fn lemma_length_field(n: nat)
    requires
        n <= usize::MAX,
    ensures
        length_value(seq![32u8] + decimal(n) + crlf()) == Some(n),
{
    let d = decimal(n);
    lemma_decimal(n);
    let field = seq![32u8] + d + crlf();
    assert(field.drop_first() =~= d + crlf());
    assert(is_digit(d[0]));
    assert((d + crlf())[0] == d[0]);
    assert(ltrim(d + crlf()) == d + crlf());
    assert(ltrim(field) == d + crlf());
    assert((d + crlf()).drop_last() =~= d.push(13u8));
    assert(d.push(13u8).drop_last() =~= d);
    assert(is_digit(d.last()));
    assert(rtrim(d) == d);
    assert(rtrim(d.push(13u8)) == d);
    assert((d + crlf()).last() == 10);
    assert(rtrim(d + crlf()) == d);
}

/// Decoding undoes encoding, whatever bytes follow the frame: the payload
/// comes back whole, and exactly the frame's bytes are consumed.
pub proof fn lemma_decode_encoded(payload: Seq<u8>, rest: Seq<u8>)
    requires
        payload.len() <= usize::MAX,
    ensures
        decoded(encoded(payload) + rest) == (Decoded::Frame {
            payload,
            consumed: encoded(payload).len(),
        }),
{
    let n = payload.len();
    let d = decimal(n);
    lemma_decimal(n);
    lemma_length_field(n);
    let s = encoded(payload) + rest;
    let l1: int = 15 + 1 + d.len() as int + 2;
    let line = tag_line(d);
    assert(s.subrange(0, l1) =~= line);
    assert forall|x: int| 0 <= x < l1 - 1 implies s[x] != 10 by {
        if x >= 16 && x < 16 + d.len() {
            assert(is_digit(d[x - 16]));
        }
    }
    lemma_scan_skip(s, 0, (l1 - 1) as nat, 0, None, false);
    assert(line.subrange(0, 15) =~= length_tag());
    assert(line.subrange(15, line.len() as int) =~= seq![32u8] + d + crlf());
    assert(scan(s, 0, 0, None, false) == scan(s, l1 as nat, l1 as nat, Some(n), true));
    assert(s[l1] == 13 && s[l1 + 1] == 10);
    assert(s.subrange(l1, l1 + 2) =~= crlf());
    assert(scan(s, l1 as nat, l1 as nat, Some(n), true) == scan(s, (l1 + 1) as nat, l1 as nat, Some(n), true));
    assert(s.subrange(l1 + 2, l1 + 2 + n as int) =~= payload);
}

spec fn tag_line(d: Seq<u8>) -> Seq<u8> {
    length_tag() + seq![32u8] + d + crlf()
}

/// Once the front of a buffer decides a frame or a refusal, more bytes after
/// it change nothing: the outcome does not depend on how the stream was cut
/// into reads.
pub proof fn lemma_decode_prefix_stable(s: Seq<u8>, t: Seq<u8>)
    requires
        !(decoded(s) is NeedMore),
    ensures
        decoded(s + t) == decoded(s),
{
    lemma_scan_extend(s, t, 0, 0, None, false);
    if let HeaderScan::Body { start, len } = scan(s, 0, 0, None, false) {
        assert((s + t).subrange(start as int, (start + len) as int) =~= s.subrange(start as int, (start + len) as int));
    }
}


/// A `Content-Length` line whose value is not a decimal `usize` is refused,
/// whatever follows it.
pub proof fn lemma_bad_length_refused(field: Seq<u8>, rest: Seq<u8>)
    requires
        field.len() >= 1,
        field.last() == 10,
        forall|x: int| 0 <= x < field.len() - 1 ==> field[x] != 10,
        length_value(field) is None,
    ensures
        decoded(length_tag() + field + rest) == Decoded::Malformed(FrameError::BadLength),
{
    let s = length_tag() + field + rest;
    let e: int = 15 + field.len() - 1;
    assert forall|x: int| 0 <= x < e implies s[x] != 10 by {
        if x >= 15 {
            assert(s[x] == field[x - 15]);
        }
    }
    lemma_scan_skip(s, 0, e as nat, 0, None, false);
    let line = s.subrange(0, e + 1);
    assert(line.subrange(0, 15) =~= length_tag());
    assert(line.subrange(15, line.len() as int) =~= field);
}

/// A header block that ends before any `Content-Length` line is refused,
/// whatever follows it.
pub proof fn lemma_missing_length_refused(line: Seq<u8>, rest: Seq<u8>)
    requires
        line.len() >= 1,
        line.last() == 10,
        forall|x: int| 0 <= x < line.len() - 1 ==> line[x] != 10,
        line != crlf(),
        !(line.len() >= 15 && line.subrange(0, 15) == length_tag()),
    ensures
        decoded(line + crlf() + rest) == Decoded::Malformed(FrameError::MissingLength),
{
    let s = line + crlf() + rest;
    let e: int = line.len() - 1;
    assert forall|x: int| 0 <= x < e implies s[x] != 10 by {
        assert(s[x] == line[x]);
    }
    lemma_scan_skip(s, 0, e as nat, 0, None, false);
    assert(s.subrange(0, e + 1) =~= line);
    assert(s.subrange(e + 1, e + 3) =~= crlf());
    assert(scan(s, (e + 1) as nat, (e + 1) as nat, None, true) == scan(s, (e + 2) as nat, (e + 1) as nat, None, true));
}


proof fn lemma_scan_body_after(s: Seq<u8>, i: nat, ls: nat, len: Option<nat>, seen: bool)
    ensures
        scan(s, i, ls, len, seen) matches HeaderScan::Body { start, len } ==> i < start <= s.len(),
    decreases s.len() - i,
{
    if i < s.len() {
        let line = s.subrange(ls as int, i + 1 as int);
        lemma_scan_body_after(s, i + 1, ls, len, seen);
        lemma_scan_body_after(s, i + 1, i + 1, len, seen);
        lemma_scan_body_after(s, i + 1, i + 1, len, true);
        if line.len() >= 15 && line.subrange(0, 15) == length_tag() {
            if let Some(n) = length_value(line.subrange(15, line.len() as int)) {
                lemma_scan_body_after(s, i + 1, i + 1, Some(n), true);
            }
        }
    }
}

/// A frame takes up at least one byte of the buffer, and no more than it holds.
pub proof fn lemma_frame_consumes(s: Seq<u8>)
    ensures
        decoded(s) matches Decoded::Frame { consumed, .. } ==> 1 <= consumed <= s.len(),
{
    lemma_scan_body_after(s, 0, 0, None, false);
}

} // verus!
