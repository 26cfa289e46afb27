//! The wire framing: each message is a `Content-Length` header, a blank
//! line, and exactly that many bytes of payload. The decoder recovers the
//! payload of every encoded frame, whatever bytes follow it.

use vstd::prelude::*;

verus! {

/// The decimal digits of `n`, as ASCII bytes.
pub open spec fn dec_bytes(n: nat) -> Seq<u8>
    decreases n,
{
    if n < 10 {
        seq![(48 + n) as u8]
    } else {
        dec_bytes(n / 10).push((48 + n % 10) as u8)
    }
}

/// The bytes of `Content-Length: `.
pub open spec fn header_label() -> Seq<u8> {
    seq![67u8, 111u8, 110u8, 116u8, 101u8, 110u8, 116u8, 45u8, 76u8, 101u8, 110u8, 103u8, 116u8,
        104u8, 58u8, 32u8]
}

/// A complete frame: header, blank line, payload.
pub open spec fn frame_bytes(body: Seq<u8>) -> Seq<u8> {
    header_label() + dec_bytes(body.len()) + seq![13u8, 10u8, 13u8, 10u8] + body
}

/// What one decoding step yields.
pub enum FrameStep {
    /// More bytes are needed before a whole frame is present.
    Incomplete,
    /// The bytes at the cursor cannot begin a frame.
    Malformed,
    /// A payload, and the cursor just past its frame.
    Frame(Vec<u8>, usize),
}

pub open spec fn is_digit_byte(b: u8) -> bool {
    48 <= b <= 57
}

/// The value of a digit-byte string, most significant first.
pub open spec fn bytes_val(s: Seq<u8>) -> int
    decreases s,
{
    if s.len() == 0 {
        0
    } else {
        bytes_val(s.drop_last()) * 10 + (s.last() - 48)
    }
}

pub proof fn lemma_dec_bytes(n: nat)
    ensures
        dec_bytes(n).len() > 0,
        forall|k: int| 0 <= k < dec_bytes(n).len() ==> is_digit_byte(#[trigger] dec_bytes(n)[k]),
        bytes_val(dec_bytes(n)) == n,
    decreases n,
{
    if n < 10 {
        let d = dec_bytes(n);
        assert(d.drop_last() =~= Seq::<u8>::empty());
        assert(bytes_val(d) == bytes_val(Seq::<u8>::empty()) * 10 + (d.last() - 48));
    } else {
        lemma_dec_bytes(n / 10);
        let d = dec_bytes(n);
        assert(d == dec_bytes(n / 10).push((48 + n % 10) as u8));
        assert(d.drop_last() =~= dec_bytes(n / 10));
        assert(d.last() == (48 + n % 10) as u8);
        assert(n / 10 * 10 + n % 10 == n) by {
            vstd::arithmetic::div_mod::lemma_fundamental_div_mod(n as int, 10);
        }
    }
}

pub proof fn lemma_bytes_val_nonneg(s: Seq<u8>)
    requires
        forall|k: int| 0 <= k < s.len() ==> is_digit_byte(#[trigger] s[k]),
    ensures
        bytes_val(s) >= 0,
    decreases s,
{
    if s.len() > 0 {
        assert(s.drop_last() =~= s.take(s.len() - 1));
        assert(forall|k: int|
            0 <= k < s.drop_last().len() ==> is_digit_byte(#[trigger] s.drop_last()[k]));
        lemma_bytes_val_nonneg(s.drop_last());
    }
}

pub proof fn lemma_bytes_val_prefix(s: Seq<u8>, j: int)
    requires
        0 <= j <= s.len(),
        forall|k: int| 0 <= k < s.len() ==> is_digit_byte(#[trigger] s[k]),
    ensures
        0 <= bytes_val(s.take(j)),
        bytes_val(s.take(j)) <= bytes_val(s),
    decreases s.len() - j,
{
    if j == s.len() {
        assert(s.take(j) =~= s);
        lemma_bytes_val_nonneg(s);
    } else {
        lemma_bytes_val_prefix(s, j + 1);
        assert(s.take(j + 1).drop_last() =~= s.take(j));
        assert(s.take(j + 1).last() == s[j]);
        assert(bytes_val(s.take(j + 1)) == bytes_val(s.take(j)) * 10 + (s[j] - 48));
        assert(forall|k: int| 0 <= k < s.take(j).len() ==> is_digit_byte(#[trigger] s.take(j)[k]));
        lemma_bytes_val_nonneg(s.take(j));
    }
}

/// Writes the decimal digits of `m` after the current contents of `out`.
fn write_nat_bytes(m: u64, out: &mut Vec<u8>)
    ensures
        final(out)@ == old(out)@ + dec_bytes(m as nat),
    decreases m,
{
    if m < 10 {
        out.push(48 + (m as u8));
        proof {
            assert(final(out)@ =~= old(out)@ + dec_bytes(m as nat));
        }
    } else {
        write_nat_bytes(m / 10, out);
        out.push(48 + ((m % 10) as u8));
        proof {
            assert((m as nat) / 10 == (m / 10) as nat);
            assert((m as nat) % 10 == (m % 10) as nat);
            assert(final(out)@ =~= old(out)@ + dec_bytes(m as nat));
        }
    }
}

/// Frames a payload for the wire.
pub fn encode_frame(body: &Vec<u8>) -> (r: Vec<u8>)
    ensures
        r@ == frame_bytes(body@),
{
    let mut out: Vec<u8> = Vec::new();
    out.push(67);
    out.push(111);
    out.push(110);
    out.push(116);
    out.push(101);
    out.push(110);
    out.push(116);
    out.push(45);
    out.push(76);
    out.push(101);
    out.push(110);
    out.push(103);
    out.push(116);
    out.push(104);
    out.push(58);
    out.push(32);
    proof {
        assert(out@ =~= header_label());
    }
    write_nat_bytes(body.len() as u64, &mut out);
    out.push(13);
    out.push(10);
    out.push(13);
    out.push(10);
    let ghost mid = out@;
    let mut k: usize = 0;
    while k < body.len()
        invariant
            mid == header_label() + dec_bytes(body@.len()) + seq![13u8, 10u8, 13u8, 10u8],
            k <= body@.len(),
            out@ == mid + body@.subrange(0, k as int),
        decreases body@.len() - k,
    {
        out.push(body[k]);
        proof {
            assert(out@ =~= mid + body@.subrange(0, k + 1 as int));
        }
        k = k + 1;
    }
    proof {
        assert(body@.subrange(0, body@.len() as int) =~= body@);
        assert(out@ =~= frame_bytes(body@));
    }
    out
}


/// The bytes at `start` begin a complete frame of `body` followed by `junk`.
pub open spec fn frame_premise(bufv: Seq<u8>, start: int, body: Seq<u8>, junk: Seq<u8>) -> bool {
    bufv.subrange(start, bufv.len() as int) == frame_bytes(body) + junk
}

/// Where each byte of a frame at `start` stands in the buffer.
pub proof fn lemma_frame_layout(bufv: Seq<u8>, start: int, body: Seq<u8>, junk: Seq<u8>)
    requires
        0 <= start <= bufv.len(),
        frame_premise(bufv, start, body, junk),
    ensures
        start + frame_bytes(body).len() + junk.len() == bufv.len(),
        forall|m: int|
            0 <= m < frame_bytes(body).len() ==> bufv[start + m] == #[trigger] frame_bytes(body)[m],
{
    let region = bufv.subrange(start, bufv.len() as int);
    assert(region.len() == frame_bytes(body).len() + junk.len());
    assert forall|m: int|
        0 <= m < frame_bytes(body).len() implies bufv[start + m] == #[trigger] frame_bytes(
        body,
    )[m] by {
        assert(region[m] == (frame_bytes(body) + junk)[m]);
        assert(bufv[start + m] == region[m]);
    }
}

/// The header label contains neither line feeds nor carriage returns.
pub proof fn lemma_label_bytes()
    ensures
        header_label().len() == 16,
        forall|k: int|
            0 <= k < 16 ==> #[trigger] header_label()[k] != 10u8 && header_label()[k] != 13u8,
        header_label()[0] == 67u8,
{
}

/// The positions of the line breaks of a frame.
pub proof fn lemma_frame_positions(body: Seq<u8>)
    ensures
        ({
            let d = dec_bytes(body.len());
            let f = frame_bytes(body);
            &&& f.len() == 20 + d.len() + body.len()
            &&& forall|k: int| 0 <= k < 16 ==> #[trigger] f[k] == header_label()[k]
            &&& forall|k: int| 0 <= k < d.len() ==> #[trigger] f[16 + k] == d[k]
            &&& f[16 + d.len() as int] == 13u8
            &&& f[16 + d.len() as int + 1] == 10u8
            &&& f[16 + d.len() as int + 2] == 13u8
            &&& f[16 + d.len() as int + 3] == 10u8
            &&& forall|k: int| 0 <= k < body.len() ==> #[trigger] f[20 + d.len() as int + k] == body[k]
        }),
{
    let d = dec_bytes(body.len());
    let f = frame_bytes(body);
    lemma_dec_bytes(body.len());
    assert(f == ((header_label() + d) + seq![13u8, 10u8, 13u8, 10u8]) + body);
    assert forall|k: int| 0 <= k < body.len() implies #[trigger] f[20 + d.len() as int + k] == body[k] by {
        assert(f[16 + d.len() as int + 4 + k] == body[k]);
    }
}

/// No byte of the header line before its carriage return is a line feed.
pub proof fn lemma_frame_no_lf(body: Seq<u8>, m: int)
    requires
        0 <= m < 16 + dec_bytes(body.len()).len(),
    ensures
        frame_bytes(body)[m] != 10u8,
        frame_bytes(body)[m] != 13u8,
{
    lemma_frame_positions(body);
    lemma_dec_bytes(body.len());
    if m < 16 {
        lemma_label_bytes();
        assert(frame_bytes(body)[m] == header_label()[m]);
    } else {
        assert(frame_bytes(body)[m] == dec_bytes(body.len())[m - 16]);
        assert(is_digit_byte(dec_bytes(body.len())[m - 16]));
    }
}

/// The first line-feed position at or after `from`.
fn find_byte(buf: &Vec<u8>, from: usize, target: u8) -> (j: usize)
    requires
        from <= buf@.len(),
    ensures
        from <= j <= buf@.len(),
        forall|m: int| from <= m < j ==> buf@[m] != target,
        j < buf@.len() ==> buf@[j as int] == target,
{
    let mut j = from;
    while j < buf.len()
        invariant
            from <= j <= buf@.len(),
            forall|m: int| from <= m < j ==> buf@[m] != target,
        decreases buf@.len() - j,
    {
        if buf[j] == target {
            return j;
        }
        j = j + 1;
    }
    j
}

/// Parses the decimal digits in `[from, to)`.
fn parse_digit_bytes(buf: &Vec<u8>, from: usize, to: usize) -> (r: Option<usize>)
    requires
        from <= to <= buf@.len(),
    ensures
        forall|len0: nat|
            (len0 <= usize::MAX && buf@.subrange(from as int, to as int) == #[trigger] dec_bytes(
                len0,
            )) ==> r == Some(len0 as usize),
{
    let ghost bv = buf@;
    if from == to {
        proof {
            assert forall|len0: nat|
                (len0 <= usize::MAX && bv.subrange(from as int, to as int) == #[trigger] dec_bytes(
                    len0,
                )) implies false by {
                lemma_dec_bytes(len0);
            }
        }
        return None;
    }
    let mut pos = from;
    let mut acc: u64 = 0;
    while pos < to
        invariant
            bv == buf@,
            from <= pos <= to <= bv.len(),
            forall|len0: nat|
                (len0 <= usize::MAX && bv.subrange(from as int, to as int) == #[trigger] dec_bytes(
                    len0,
                )) ==> acc == bytes_val(dec_bytes(len0).take(pos - from)),
        decreases to - pos,
    {
        let b = buf[pos];
        if !(48 <= b && b <= 57) {
            proof {
                assert forall|len0: nat|
                    (len0 <= usize::MAX && bv.subrange(from as int, to as int)
                        == #[trigger] dec_bytes(len0)) implies false by {
                    lemma_dec_bytes(len0);
                    assert(bv.subrange(from as int, to as int)[pos - from] == bv[pos as int]);
                    assert(is_digit_byte(dec_bytes(len0)[pos - from]));
                }
            }
            return None;
        }
        let d: u64 = (b - 48) as u64;
        if acc > (0xffff_ffff_ffff_ffffu64 - d) / 10 {
            proof {
                assert forall|len0: nat|
                    (len0 <= usize::MAX && bv.subrange(from as int, to as int)
                        == #[trigger] dec_bytes(len0)) implies false by {
                    lemma_dec_bytes(len0);
                    let digs = dec_bytes(len0);
                    let j = pos - from;
                    assert(bv.subrange(from as int, to as int)[j] == bv[pos as int]);
                    assert(digs[j] == bv[pos as int]);
                    assert(digs.take(j + 1).drop_last() =~= digs.take(j));
                    assert(digs.take(j + 1).last() == digs[j]);
                    lemma_bytes_val_prefix(digs, j + 1);
                    assert(bytes_val(digs.take(j + 1)) == acc * 10 + d);
                    assert(acc * 10 + d <= len0);
                    assert(acc <= (0xffff_ffff_ffff_ffffu64 - d) / 10) by (nonlinear_arith)
                        requires
                            acc * 10 + d <= 0xffff_ffff_ffff_ffffu64,
                            d <= 0xffff_ffff_ffff_ffffu64,
                    ;
                }
            }
            return None;
        }
        proof {
            assert(acc * 10 + d <= 0xffff_ffff_ffff_ffffu64) by (nonlinear_arith)
                requires
                    acc <= (0xffff_ffff_ffff_ffffu64 - d) / 10,
                    d <= 0xffff_ffff_ffff_ffffu64,
            ;
            assert forall|len0: nat|
                (len0 <= usize::MAX && bv.subrange(from as int, to as int) == #[trigger] dec_bytes(
                    len0,
                )) implies acc * 10 + d == bytes_val(dec_bytes(len0).take(pos + 1 - from)) by {
                lemma_dec_bytes(len0);
                let digs = dec_bytes(len0);
                let j = pos - from;
                assert(bv.subrange(from as int, to as int)[j] == bv[pos as int]);
                assert(digs[j] == bv[pos as int]);
                assert(digs.take(j + 1).drop_last() =~= digs.take(j));
                assert(digs.take(j + 1).last() == digs[j]);
            }
        }
        acc = acc * 10 + d;
        pos = pos + 1;
    }
    if acc > (usize::MAX as u64) {
        proof {
            assert forall|len0: nat|
                (len0 <= usize::MAX && bv.subrange(from as int, to as int) == #[trigger] dec_bytes(
                    len0,
                )) implies false by {
                lemma_dec_bytes(len0);
                assert(dec_bytes(len0).take(to - from) =~= dec_bytes(len0));
            }
        }
        return None;
    }
    proof {
        assert forall|len0: nat|
            (len0 <= usize::MAX && bv.subrange(from as int, to as int) == #[trigger] dec_bytes(
                len0,
            )) implies acc == len0 by {
            lemma_dec_bytes(len0);
            assert(dec_bytes(len0).take(to - from) =~= dec_bytes(len0));
        }
    }
    Some(acc as usize)
}

/// Copies the bytes in `[from, to)`.
fn copy_range(buf: &Vec<u8>, from: usize, to: usize) -> (r: Vec<u8>)
    requires
        from <= to <= buf@.len(),
    ensures
        r@ == buf@.subrange(from as int, to as int),
{
    let mut r: Vec<u8> = Vec::new();
    let mut k = from;
    while k < to
        invariant
            from <= k <= to <= buf@.len(),
            r@ == buf@.subrange(from as int, k as int),
        decreases to - k,
    {
        r.push(buf[k]);
        proof {
            assert(r@ =~= buf@.subrange(from as int, k + 1 as int));
        }
        k = k + 1;
    }
    r
}

/// The scan state of the frame decoder: either no header line has been
/// consumed, or the length header was read and the blank line is next.
pub open spec fn frame_scan_inv(
    bufv: Seq<u8>,
    start: int,
    p: int,
    cl: Option<usize>,
) -> bool {
    forall|body: Seq<u8>, junk: Seq<u8>|
        #[trigger] frame_premise(bufv, start, body, junk) ==> {
            ||| (cl is None && p == start)
            ||| (cl == Some(body.len() as usize) && p == start + 18 + dec_bytes(body.len()).len())
        }
}

/// Decodes one frame beginning at `start`: header lines up to a blank
/// line, then exactly `Content-Length` bytes of payload.
#[verifier::rlimit(60)]
pub fn take_frame(buf: &Vec<u8>, start: usize) -> (r: FrameStep)
    requires
        start <= buf@.len(),
    ensures
        r matches FrameStep::Frame(b, c) ==> start < c <= buf@.len(),
        forall|body: Seq<u8>, junk: Seq<u8>|
            #[trigger] frame_premise(buf@, start as int, body, junk) ==> (r matches
            FrameStep::Frame(b, c) && b@ == body && c == start + frame_bytes(body).len()),
{
    let ghost bv = buf@;
    let n = buf.len();
    let mut p = start;
    let mut cl: Option<usize> = None;
    loop
        invariant
            bv == buf@,
            n == bv.len(),
            start <= p <= n,
            frame_scan_inv(bv, start as int, p as int, cl),
        decreases n - p,
    {
        let j = find_byte(buf, p, 10);
        proof {
            assert forall|body: Seq<u8>, junk: Seq<u8>|
                #[trigger] frame_premise(bv, start as int, body, junk) implies {
                let d = dec_bytes(body.len());
                ||| (cl is None && p == start && j == start + 17 + d.len())
                ||| (cl == Some(body.len() as usize) && p == start + 18 + d.len() && j == p + 1)
            } by {
                let d = dec_bytes(body.len());
                lemma_frame_layout(bv, start as int, body, junk);
                lemma_frame_positions(body);
                lemma_dec_bytes(body.len());
                if cl is None && p == start {
                    assert(bv[start + 16 + d.len() + 1] == 10u8);
                    assert forall|m: int| start <= m < start + 17 + d.len() implies bv[m]
                        != 10u8 by {
                        if m < start + 16 + d.len() {
                            lemma_frame_no_lf(body, m - start);
                        } else {
                            assert(bv[m] == 13u8);
                        }
                    }
                    assert(j == start + 17 + d.len()) by {
                        if j < start + 17 + d.len() {
                            assert(bv[j as int] == 10u8);
                        }
                        if j > start + 17 + d.len() {
                            assert(bv[start + 17 + d.len()] != 10u8);
                        }
                    }
                } else {
                    assert(bv[p as int] == 13u8);
                    assert(bv[p + 1] == 10u8);
                    assert(j == p + 1) by {
                        if j == p {
                            assert(bv[j as int] == 10u8);
                        }
                        if j > p + 1 {
                            assert(bv[p + 1] != 10u8);
                        }
                    }
                }
            }
        }
        if j >= n {
            proof {
                assert forall|body: Seq<u8>, junk: Seq<u8>|
                    #[trigger] frame_premise(bv, start as int, body, junk) implies false by {
                    lemma_frame_layout(bv, start as int, body, junk);
                    lemma_frame_positions(body);
                }
            }
            return FrameStep::Incomplete;
        }
        let e = if j > p && buf[j - 1] == 13 {
            j - 1
        } else {
            j
        };
        if e == p {
            // blank line: headers are done
            match cl {
                None => {
                    proof {
                        assert forall|body: Seq<u8>, junk: Seq<u8>|
                            #[trigger] frame_premise(bv, start as int, body, junk) implies false by {
                            let d = dec_bytes(body.len());
                            lemma_frame_layout(bv, start as int, body, junk);
                            lemma_frame_positions(body);
                            lemma_label_bytes();
                            assert(bv[start as int] == 67u8);
                        }
                    }
                    return FrameStep::Malformed;
                },
                Some(len) => {
                    if n - (j + 1) < len {
                        proof {
                            assert forall|body: Seq<u8>, junk: Seq<u8>|
                                #[trigger] frame_premise(bv, start as int, body, junk) implies false by {
                                let d = dec_bytes(body.len());
                                lemma_frame_layout(bv, start as int, body, junk);
                                lemma_frame_positions(body);
                            }
                        }
                        return FrameStep::Incomplete;
                    }
                    let b = copy_range(buf, j + 1, j + 1 + len);
                    let out = FrameStep::Frame(b, j + 1 + len);
                    proof {
                        assert forall|body: Seq<u8>, junk: Seq<u8>|
                            #[trigger] frame_premise(bv, start as int, body, junk) implies b@
                            == body && j + 1 + len == start + frame_bytes(body).len() by {
                            let d = dec_bytes(body.len());
                            lemma_frame_layout(bv, start as int, body, junk);
                            lemma_frame_positions(body);
                            assert(len == body.len());
                            assert(j + 1 == start + 20 + d.len());
                            assert(b@ =~= body) by {
                                assert forall|k: int| 0 <= k < body.len() implies b@[k]
                                    == body[k] by {
                                    assert(bv[start + 20 + d.len() + k] == frame_bytes(body)[20
                                        + d.len() + k]);
                                    assert(b@[k] == bv[j + 1 + k]);
                                }
                            }
                        }
                    }
                    return out;
                },
            }
        }
        // a header line: use it when it carries the content length
        let has_label = e - p >= 16 && buf[p] == 67 && buf[p + 1] == 111 && buf[p + 2] == 110
            && buf[p + 3] == 116 && buf[p + 4] == 101 && buf[p + 5] == 110 && buf[p + 6] == 116
            && buf[p + 7] == 45 && buf[p + 8] == 76 && buf[p + 9] == 101 && buf[p + 10] == 110
            && buf[p + 11] == 103 && buf[p + 12] == 116 && buf[p + 13] == 104 && buf[p + 14] == 58
            && buf[p + 15] == 32;
        proof {
            assert forall|body: Seq<u8>, junk: Seq<u8>|
                #[trigger] frame_premise(bv, start as int, body, junk) implies {
                let d = dec_bytes(body.len());
                &&& cl is None
                &&& p == start
                &&& e == start + 16 + d.len()
                &&& has_label
                &&& bv.subrange(p + 16, e as int) == d
                &&& body.len() <= usize::MAX
            } by {
                let d = dec_bytes(body.len());
                lemma_frame_layout(bv, start as int, body, junk);
                lemma_frame_positions(body);
                lemma_label_bytes();
                lemma_dec_bytes(body.len());
                if !(cl is None && p == start) {
                    assert(e == p);
                    assert(false);
                }
                assert(j == start + 17 + d.len());
                assert(bv[j - 1] == 13u8);
                assert(e == start + 16 + d.len());
                assert forall|k: int| 0 <= k < 16 implies bv[start + k] == header_label()[k] by {
                    assert(bv[start + k] == frame_bytes(body)[k]);
                }
                assert(bv.subrange(p + 16, e as int) =~= d) by {
                    assert forall|k: int| 0 <= k < d.len() implies bv.subrange(p + 16, e as int)[k]
                        == d[k] by {
                        assert(bv[start + 16 + k] == frame_bytes(body)[16 + k]);
                    }
                }
            }
        }
        if has_label {
            match parse_digit_bytes(buf, p + 16, e) {
                Some(len) => {
                    proof {
                        assert forall|body: Seq<u8>, junk: Seq<u8>|
                            #[trigger] frame_premise(bv, start as int, body, junk) implies len
                            == body.len() && j + 1 == start + 18 + dec_bytes(body.len()).len() by {
                            lemma_dec_bytes(body.len());
                        }
                    }
                    cl = Some(len);
                },
                None => {
                    proof {
                        assert forall|body: Seq<u8>, junk: Seq<u8>|
                            #[trigger] frame_premise(bv, start as int, body, junk) implies false by {
                            lemma_dec_bytes(body.len());
                        }
                    }
                    return FrameStep::Malformed;
                },
            }
        } else {
            proof {
                assert forall|body: Seq<u8>, junk: Seq<u8>|
                    #[trigger] frame_premise(bv, start as int, body, junk) implies false by {
                }
            }
        }
        p = j + 1;
    }
}

} // verus!
