//! Incremental decoding of request frames: `*<n>\r\n` followed by `n` bulk
//! strings `$<len>\r\n<bytes>\r\n`.
//!
//! A buffer that holds only the start of a frame is reported as incomplete,
//! distinctly from a buffer that can never become a frame.
use vstd::prelude::*;
use crate::resp::{array_spec, bulk_spec, bulks_spec, crlf, dec, digit_byte};

verus! {

/// The longest run of digits accepted in a length or count field.
pub const MAX_DIGITS: usize = 9;

/// The outcome of reading one piece of a frame in the spec model: more bytes
/// are needed, the bytes can never form the piece, or the piece was found
/// together with the position just past it.
pub enum Decoded<T> {
    Need,
    Bad,
    Found(T, int),
}

pub open spec fn is_digit(b: u8) -> bool {
    48 <= b && b <= 57
}

/// The value of a string of ASCII digits.
pub open spec fn digits_value(s: Seq<u8>) -> nat
    decreases s.len(),
{
    if s.len() == 0 {
        0
    } else {
        digits_value(s.drop_last()) * 10 + (s.last() - 48) as nat
    }
}

/// The position of the first non-digit at or after `i`, or the end of `buf`.
pub open spec fn digit_run_end(buf: Seq<u8>, i: int) -> int
    decreases buf.len() - i,
{
    if 0 <= i < buf.len() && is_digit(buf[i]) {
        digit_run_end(buf, i + 1)
    } else {
        i
    }
}

/// A decimal number terminated by `\r\n`, starting at `p`.
pub open spec fn number_at(buf: Seq<u8>, p: int) -> Decoded<nat> {
    let d = digit_run_end(buf, p);
    if d - p > MAX_DIGITS {
        Decoded::Bad
    } else if d == buf.len() {
        Decoded::Need
    } else if d == p || buf[d] != 13 {
        Decoded::Bad
    } else if d + 1 == buf.len() {
        Decoded::Need
    } else if buf[d + 1] != 10 {
        Decoded::Bad
    } else {
        Decoded::Found(digits_value(buf.subrange(p, d)), d + 2)
    }
}

/// A bulk string `$<len>\r\n<bytes>\r\n` starting at `p`.
pub open spec fn bulk_at(buf: Seq<u8>, p: int) -> Decoded<Seq<u8>> {
    if p >= buf.len() {
        Decoded::Need
    } else if buf[p] != 36 {
        Decoded::Bad
    } else {
        match number_at(buf, p + 1) {
            Decoded::Need => Decoded::Need,
            Decoded::Bad => Decoded::Bad,
            Decoded::Found(n, q) => {
                if q + n + 2 > buf.len() {
                    Decoded::Need
                } else if buf[q + n] != 13 || buf[q + n + 1] != 10 {
                    Decoded::Bad
                } else {
                    Decoded::Found(buf.subrange(q, q + n), q + n + 2)
                }
            },
        }
    }
}

/// `n` bulk strings one after the other, starting at `p`.
pub open spec fn bulks_at(buf: Seq<u8>, p: int, n: nat) -> Decoded<Seq<Seq<u8>>>
    decreases n,
{
    if n == 0 {
        Decoded::Found(Seq::empty(), p)
    } else {
        match bulks_at(buf, p, (n - 1) as nat) {
            Decoded::Found(items, q) => match bulk_at(buf, q) {
                Decoded::Found(item, e) => Decoded::Found(items.push(item), e),
                Decoded::Need => Decoded::Need,
                Decoded::Bad => Decoded::Bad,
            },
            Decoded::Need => Decoded::Need,
            Decoded::Bad => Decoded::Bad,
        }
    }
}

/// The frame at the start of `buf`: an array header and its bulk strings.
pub open spec fn frame_at(buf: Seq<u8>) -> Decoded<Seq<Seq<u8>>> {
    if buf.len() == 0 {
        Decoded::Need
    } else if buf[0] != 42 {
        Decoded::Bad
    } else {
        match number_at(buf, 1) {
            Decoded::Need => Decoded::Need,
            Decoded::Bad => Decoded::Bad,
            Decoded::Found(n, q) => bulks_at(buf, q, n),
        }
    }
}

/// The result of decoding the start of a buffer.
pub enum Frame {
    /// The buffer holds only the start of a frame: read more bytes.
    Incomplete,
    /// The buffer can never start with a frame.
    Malformed,
    /// One frame, its bulk strings and the number of bytes it takes.
    Complete { items: Vec<Vec<u8>>, consumed: usize },
}

/// Whether an exec result agrees with a spec outcome.
pub open spec fn frame_matches(f: Frame, d: Decoded<Seq<Seq<u8>>>) -> bool {
    match f {
        Frame::Incomplete => d is Need,
        Frame::Malformed => d is Bad,
        Frame::Complete { items, consumed } => d == Decoded::Found(
            items@.map_values(|v: Vec<u8>| v@),
            consumed as int,
        ),
    }
}

enum Piece<T> {
    Need,
    Bad,
    Found(T, usize),
}

/// Ten to the power `n`.
pub open spec fn pow10(n: nat) -> nat
    decreases n,
{
    if n == 0 {
        1
    } else {
        10 * pow10((n - 1) as nat)
    }
}

proof fn lemma_run_end_ge(buf: Seq<u8>, i: int)
    ensures
        digit_run_end(buf, i) >= i,
        0 <= i <= buf.len() ==> digit_run_end(buf, i) <= buf.len(),
    decreases buf.len() - i,
{
    if 0 <= i < buf.len() && is_digit(buf[i]) {
        lemma_run_end_ge(buf, i + 1);
    }
}

fn read_number(buf: &[u8], p: usize) -> (r: Piece<usize>)
    requires
        p <= buf@.len(),
    ensures
        match (r, number_at(buf@, p as int)) {
            (Piece::Need, Decoded::Need) => true,
            (Piece::Bad, Decoded::Bad) => true,
            (Piece::Found(v, e), Decoded::Found(w, f)) => v == w && e == f && e <= buf@.len()
                && v < 1000000000,
            _ => false,
        },
{
    let mut i: usize = p;
    let mut v: usize = 0;
    proof {
        reveal_with_fuel(pow10, 10);
    }
    while i < buf.len() && 48 <= buf[i] && buf[i] <= 57 && i - p < MAX_DIGITS
        invariant
            p <= i <= buf@.len(),
            i - p <= MAX_DIGITS,
            digit_run_end(buf@, p as int) == digit_run_end(buf@, i as int),
            v == digits_value(buf@.subrange(p as int, i as int)),
            v < pow10((i - p) as nat),
            pow10(MAX_DIGITS as nat) == 1000000000,
        decreases buf@.len() - i,
    {
        assert(buf@.subrange(p as int, i as int + 1).drop_last() =~= buf@.subrange(
            p as int,
            i as int,
        ));
        let d = (buf[i] - 48) as usize;
        proof {
            let k = (i - p) as nat;
            assert(pow10(k + 1) == 10 * pow10(k));
            assert(v < pow10(k) && d <= 9 ==> v * 10 + d < 10 * pow10(k)) by (nonlinear_arith);
            assert(pow10(k + 1) <= pow10(MAX_DIGITS as nat)) by {
                lemma_pow10_mono(k + 1, MAX_DIGITS as nat);
            }
        }
        v = v * 10 + d;
        i = i + 1;
    }
    proof {
        lemma_run_end_ge(buf@, i as int);
        lemma_pow10_mono((i - p) as nat, MAX_DIGITS as nat);
    }
    if i < buf.len() && 48 <= buf[i] && buf[i] <= 57 {
        proof {
            lemma_run_end_ge(buf@, i as int + 1);
        }
        return Piece::Bad;
    }
    if i == buf.len() {
        return Piece::Need;
    }
    if i == p || buf[i] != 13 {
        return Piece::Bad;
    }
    if i + 1 == buf.len() {
        return Piece::Need;
    }
    if buf[i + 1] != 10 {
        return Piece::Bad;
    }
    Piece::Found(v, i + 2)
}

fn read_bulk(buf: &[u8], p: usize) -> (r: Piece<Vec<u8>>)
    requires
        p <= buf@.len(),
    ensures
        match (r, bulk_at(buf@, p as int)) {
            (Piece::Need, Decoded::Need) => true,
            (Piece::Bad, Decoded::Bad) => true,
            (Piece::Found(v, e), Decoded::Found(w, f)) => v@ == w && e == f,
            _ => false,
        },
{
    if p >= buf.len() {
        return Piece::Need;
    }
    if buf[p] != 36 {
        return Piece::Bad;
    }
    match read_number(buf, p + 1) {
        Piece::Need => Piece::Need,
        Piece::Bad => Piece::Bad,
        Piece::Found(n, q) => {
            if n + 2 > buf.len() - q {
                Piece::Need
            } else if buf[q + n] != 13 || buf[q + n + 1] != 10 {
                Piece::Bad
            } else {
                let mut item: Vec<u8> = Vec::new();
                let end = q + n;
                let mut i: usize = q;
                while i < end
                    invariant
                        q <= i <= end,
                        end == q + n,
                        end + 2 <= buf@.len(),
                        item@ == buf@.subrange(q as int, i as int),
                    decreases end - i,
                {
                    item.push(buf[i]);
                    i = i + 1;
                    assert(item@ =~= buf@.subrange(q as int, i as int));
                }
                Piece::Found(item, q + n + 2)
            }
        },
    }
}

/// Decodes the frame at the start of `buf`, if the buffer holds a whole one.
pub fn decode_frame(buf: &[u8]) -> (r: Frame)
    ensures
        frame_matches(r, frame_at(buf@)),
{
    if buf.len() == 0 {
        return Frame::Incomplete;
    }
    if buf[0] != 42 {
        return Frame::Malformed;
    }
    match read_number(buf, 1) {
        Piece::Need => Frame::Incomplete,
        Piece::Bad => Frame::Malformed,
        Piece::Found(n, q) => {
            let mut items: Vec<Vec<u8>> = Vec::new();
            let mut pos: usize = q;
            let mut i: usize = 0;
            assert(items@.map_values(|v: Vec<u8>| v@) =~= Seq::<Seq<u8>>::empty());
            while i < n
                invariant
                    i <= n,
                    pos <= buf@.len(),
                    buf@.len() > 0 && buf@[0] == 42,
                    number_at(buf@, 1) == Decoded::<nat>::Found(n as nat, q as int),
                    bulks_at(buf@, q as int, i as nat) == Decoded::Found(
                        items@.map_values(|v: Vec<u8>| v@),
                        pos as int,
                    ),
                decreases n - i,
            {
                match read_bulk(buf, pos) {
                    Piece::Need => {
                        assert(bulks_at(buf@, q as int, (i + 1) as nat) is Need);
                        proof {
                            lemma_bulks_stuck(buf@, q as int, (i + 1) as nat, n as nat);
                            assert(bulks_at(buf@, q as int, n as nat) is Need);
                        }
                        return Frame::Incomplete;
                    },
                    Piece::Bad => {
                        assert(bulks_at(buf@, q as int, (i + 1) as nat) is Bad);
                        proof {
                            lemma_bulks_stuck(buf@, q as int, (i + 1) as nat, n as nat);
                        }
                        return Frame::Malformed;
                    },
                    Piece::Found(item, e) => {
                        let ghost before = items@.map_values(|v: Vec<u8>| v@);
                        items.push(item);
                        assert(items@.map_values(|v: Vec<u8>| v@) =~= before.push(item@));
                        pos = e;
                        i = i + 1;
                    },
                }
            }
            Frame::Complete { items, consumed: pos }
        },
    }
}

proof fn lemma_pow10_mono(a: nat, b: nat)
    requires
        a <= b,
    ensures
        pow10(a) <= pow10(b),
    decreases b - a,
{
    if a < b {
        lemma_pow10_mono(a, (b - 1) as nat);
    }
}

/// Once `n` bulk strings cannot be read, more of them cannot be read either.
proof fn lemma_bulks_stuck(buf: Seq<u8>, p: int, n: nat, m: nat)
    requires
        n <= m,
        !(bulks_at(buf, p, n) is Found),
    ensures
        bulks_at(buf, p, m) == bulks_at(buf, p, n),
    decreases m - n,
{
    if n < m {
        lemma_bulks_stuck(buf, p, n, (m - 1) as nat);
    }
}


proof fn lemma_number_end(buf: Seq<u8>, p: int)
    requires
        0 <= p <= buf.len(),
    ensures
        number_at(buf, p) matches Decoded::Found(_, e) ==> p < e <= buf.len(),
{
    lemma_run_end_ge(buf, p);
}

proof fn lemma_bulks_end(buf: Seq<u8>, p: int, n: nat)
    requires
        0 <= p <= buf.len(),
    ensures
        bulks_at(buf, p, n) matches Decoded::Found(_, e) ==> p <= e <= buf.len(),
    decreases n,
{
    if n > 0 {
        lemma_bulks_end(buf, p, (n - 1) as nat);
        if let Decoded::Found(_, q) = bulks_at(buf, p, (n - 1) as nat) {
            if q < buf.len() {
                lemma_number_end(buf, q + 1);
            }
        }
    }
}

/// A frame found at the start of a buffer ends within it.
pub proof fn lemma_frame_end_in_buffer(buf: Seq<u8>)
    ensures
        frame_at(buf) matches Decoded::Found(_, e) ==> 0 < e <= buf.len(),
{
    if buf.len() > 0 {
        lemma_number_end(buf, 1);
        if let Decoded::Found(_, q) = number_at(buf, 1) {
            lemma_bulks_end(buf, q, (digits_value(buf.subrange(1, digit_run_end(buf, 1)))));
        }
    }
}


/// `a` and `b` hold the same first `m` bytes.
pub open spec fn agree(a: Seq<u8>, b: Seq<u8>, m: int) -> bool {
    &&& 0 <= m <= a.len()
    &&& m <= b.len()
    &&& forall|i: int| 0 <= i < m ==> a[i] == b[i]
}

proof fn lemma_run_agree(a: Seq<u8>, b: Seq<u8>, m: int, i: int)
    requires
        agree(a, b, m),
        0 <= i <= m,
    ensures
        digit_run_end(a, i) < m ==> digit_run_end(b, i) == digit_run_end(a, i),
        digit_run_end(a, i) >= m ==> digit_run_end(b, i) >= m,
        m == b.len() ==> digit_run_end(b, i) == if digit_run_end(a, i) < m {
            digit_run_end(a, i)
        } else {
            m
        },
    decreases m - i,
{
    lemma_run_end_ge(a, i);
    lemma_run_end_ge(b, i);
    if i < m {
        assert(a[i] == b[i]);
        lemma_run_agree(a, b, m, i + 1);
    }
}

proof fn lemma_number_agree(a: Seq<u8>, b: Seq<u8>, p: int)
    requires
        0 <= p <= b.len(),
        number_at(a, p) matches Decoded::Found(_, e) && agree(
            a,
            b,
            if b.len() < e {
                b.len() as int
            } else {
                e
            },
        ),
    ensures
        number_at(a, p) matches Decoded::Found(_, e) && if b.len() < e {
            number_at(b, p) is Need
        } else {
            number_at(b, p) == number_at(a, p)
        },
{
    lemma_run_end_ge(a, p);
    let e = number_at(a, p)->Found_1;
    let d = digit_run_end(a, p);
    assert(e == d + 2);
    if b.len() < e {
        lemma_run_agree(a, b, b.len() as int, p);
    } else {
        lemma_run_agree(a, b, e, p);
        assert(b.subrange(p, d) =~= a.subrange(p, d));
    }
}

proof fn lemma_bulk_agree(a: Seq<u8>, b: Seq<u8>, p: int)
    requires
        0 <= p <= b.len(),
        p <= a.len(),
        bulk_at(a, p) matches Decoded::Found(_, e) && agree(
            a,
            b,
            if b.len() < e {
                b.len() as int
            } else {
                e
            },
        ),
    ensures
        bulk_at(a, p) matches Decoded::Found(_, e) && if b.len() < e {
            bulk_at(b, p) is Need
        } else {
            bulk_at(b, p) == bulk_at(a, p)
        },
{
    let e = bulk_at(a, p)->Found_1;
    lemma_number_end(a, p + 1);
    if b.len() > p {
        assert(a[p] == b[p]);
        let q = number_at(a, p + 1)->Found_1;
        let n = number_at(a, p + 1)->Found_0;
        assert(e == q + n + 2);
        lemma_number_agree(a, b, p + 1);
        if b.len() >= e {
            assert(b.subrange(q, q + n) =~= a.subrange(q, q + n));
        }
    }
}

proof fn lemma_bulks_agree(a: Seq<u8>, b: Seq<u8>, p: int, n: nat)
    requires
        0 <= p <= b.len(),
        p <= a.len(),
        bulks_at(a, p, n) matches Decoded::Found(_, e) && agree(
            a,
            b,
            if b.len() < e {
                b.len() as int
            } else {
                e
            },
        ),
    ensures
        bulks_at(a, p, n) matches Decoded::Found(_, e) && if b.len() < e {
            bulks_at(b, p, n) is Need
        } else {
            bulks_at(b, p, n) == bulks_at(a, p, n)
        },
    decreases n,
{
    if n > 0 {
        let e = bulks_at(a, p, n)->Found_1;
        let q = bulks_at(a, p, (n - 1) as nat)->Found_1;
        lemma_bulks_end(a, p, (n - 1) as nat);
        lemma_run_end_ge(a, q + 1);
        if q < a.len() {
            lemma_number_end(a, q + 1);
        }
        assert(q <= e);
        if b.len() < q {
            lemma_bulks_agree(a, b, p, (n - 1) as nat);
        } else {
            lemma_bulks_agree(a, b, p, (n - 1) as nat);
            lemma_bulk_agree(a, b, q);
        }
    }
}

/// Decoding depends only on the bytes up to the end of the first frame: a
/// buffer that agrees with one holding a frame, and stops before the frame's
/// end, is incomplete; one that holds at least the whole frame decodes to the
/// same frame.
pub proof fn lemma_frame_agree(a: Seq<u8>, b: Seq<u8>)
    requires
        frame_at(a) matches Decoded::Found(_, e) && agree(
            a,
            b,
            if b.len() < e {
                b.len() as int
            } else {
                e
            },
        ),
    ensures
        frame_at(a) matches Decoded::Found(_, e) && if b.len() < e {
            frame_at(b) is Need
        } else {
            frame_at(b) == frame_at(a)
        },
{
    let e = frame_at(a)->Found_1;
    lemma_frame_end_in_buffer(a);
    if b.len() > 0 {
        lemma_number_end(a, 1);
        let q = number_at(a, 1)->Found_1;
        let n = number_at(a, 1)->Found_0;
        lemma_bulks_end(a, q, n);
        lemma_number_agree(a, b, 1);
        if b.len() >= q {
            lemma_bulks_agree(a, b, q, n);
        }
    }
}


/// `x` stands in `buf` from position `p` on.
pub open spec fn holds_at(buf: Seq<u8>, p: int, x: Seq<u8>) -> bool {
    &&& 0 <= p
    &&& p + x.len() <= buf.len()
    &&& forall|i: int| 0 <= i < x.len() ==> buf[p + i] == x[i]
}

proof fn lemma_holds_split(buf: Seq<u8>, p: int, x: Seq<u8>, y: Seq<u8>)
    requires
        holds_at(buf, p, x + y),
    ensures
        holds_at(buf, p, x),
        holds_at(buf, p + x.len(), y),
{
    assert forall|i: int| 0 <= i < x.len() implies buf[p + i] == x[i] by {
        assert((x + y)[i] == x[i]);
    }
    assert forall|i: int| 0 <= i < y.len() implies buf[p + x.len() + i] == y[i] by {
        assert((x + y)[x.len() + i] == y[i]);
    }
}

proof fn lemma_dec_digits(n: nat)
    ensures
        dec(n).len() >= 1,
        forall|i: int| 0 <= i < dec(n).len() ==> is_digit(#[trigger] dec(n)[i]),
        digits_value(dec(n)) == n,
    decreases n,
{
    if n >= 10 {
        lemma_dec_digits(n / 10);
        assert(dec(n).drop_last() =~= dec(n / 10));
        assert(dec(n).last() == digit_byte(n % 10));
        assert(digit_byte(n % 10) as int == 48 + n % 10);
        assert(n == (n / 10) * 10 + n % 10);
        assert(digits_value(dec(n)) == digits_value(dec(n / 10)) * 10 + (n % 10));
    } else {
        assert(dec(n).drop_last() =~= Seq::<u8>::empty());
        assert(digit_byte(n) as int == 48 + n);
        assert(digits_value(dec(n)) == digits_value(Seq::<u8>::empty()) * 10 + n);
    }
}

proof fn lemma_dec_len(n: nat, k: nat)
    requires
        k >= 1,
        n < pow10(k),
    ensures
        dec(n).len() <= k,
    decreases k,
{
    if n >= 10 {
        assert(pow10(k) == 10 * pow10((k - 1) as nat));
        if k == 1 {
            assert(pow10(0) == 1);
        } else {
            lemma_dec_len(n / 10, (k - 1) as nat);
        }
    }
}

proof fn lemma_run_over(buf: Seq<u8>, i: int, end: int)
    requires
        0 <= i <= end < buf.len(),
        forall|j: int| i <= j < end ==> is_digit(#[trigger] buf[j]),
        !is_digit(buf[end]),
    ensures
        digit_run_end(buf, i) == end,
    decreases end - i,
{
    if i < end {
        lemma_run_over(buf, i + 1, end);
    }
}

proof fn lemma_number_encoded(buf: Seq<u8>, p: int, n: nat)
    requires
        n < pow10(MAX_DIGITS as nat),
        holds_at(buf, p, dec(n) + crlf()),
    ensures
        number_at(buf, p) == Decoded::Found(n, p + dec(n).len() + 2),
{
    lemma_dec_digits(n);
    lemma_dec_len(n, MAX_DIGITS as nat);
    lemma_holds_split(buf, p, dec(n), crlf());
    let end = p + dec(n).len();
    assert forall|j: int| p <= j < end implies is_digit(#[trigger] buf[j]) by {
        assert(buf[p + (j - p)] == dec(n)[j - p]);
    }
    assert(buf[end] == crlf()[0]);
    assert(buf[end + 1] == crlf()[1]);
    lemma_run_over(buf, p, end);
    assert(buf.subrange(p, end) =~= dec(n));
}

proof fn lemma_bulk_encoded(buf: Seq<u8>, p: int, d: Seq<u8>)
    requires
        d.len() < pow10(MAX_DIGITS as nat),
        holds_at(buf, p, bulk_spec(d)),
    ensures
        bulk_at(buf, p) == Decoded::Found(d, p + bulk_spec(d).len()),
{
    let head = seq![36u8];
    let num = dec(d.len()) + crlf();
    assert(bulk_spec(d) =~= head + (num + (d + crlf())));
    lemma_holds_split(buf, p, head, num + (d + crlf()));
    lemma_holds_split(buf, p + 1, num, d + crlf());
    lemma_holds_split(buf, p + 1 + num.len(), d, crlf());
    assert(buf[p] == head[0]);
    lemma_number_encoded(buf, p + 1, d.len());
    let q = p + 1 + num.len();
    assert(buf[q + d.len()] == crlf()[0]);
    assert(buf[q + d.len() + 1] == crlf()[1]);
    assert(buf.subrange(q, q + d.len()) =~= d);
}

proof fn lemma_bulks_encoded(buf: Seq<u8>, p: int, items: Seq<Seq<u8>>)
    requires
        forall|i: int| 0 <= i < items.len() ==> (#[trigger] items[i]).len() < pow10(MAX_DIGITS as nat),
        holds_at(buf, p, bulks_spec(items)),
    ensures
        bulks_at(buf, p, items.len()) == Decoded::Found(items, p + bulks_spec(items).len()),
    decreases items.len(),
{
    if items.len() == 0 {
        assert(Seq::<Seq<u8>>::empty() =~= items);
    } else {
        let init = items.drop_last();
        lemma_holds_split(buf, p, bulks_spec(init), bulk_spec(items.last()));
        lemma_bulks_encoded(buf, p, init);
        assert(init.len() == (items.len() - 1) as nat);
        lemma_bulk_encoded(buf, p + bulks_spec(init).len(), items.last());
        assert(init.push(items.last()) =~= items);
    }
}

/// An encoded array of bulk strings decodes to the same strings, taking the
/// whole encoding, when the count and each length have at most nine digits.
pub proof fn lemma_frame_encoded(items: Seq<Seq<u8>>)
    requires
        items.len() < pow10(MAX_DIGITS as nat),
        forall|i: int| 0 <= i < items.len() ==> (#[trigger] items[i]).len() < pow10(MAX_DIGITS as nat),
    ensures
        frame_at(array_spec(items)) == Decoded::Found(items, array_spec(items).len() as int),
{
    let buf = array_spec(items);
    let head = seq![42u8];
    let num = dec(items.len()) + crlf();
    assert(buf =~= head + (num + bulks_spec(items)));
    assert(holds_at(buf, 0, buf));
    lemma_holds_split(buf, 0, head, num + bulks_spec(items));
    lemma_holds_split(buf, 1, num, bulks_spec(items));
    lemma_number_encoded(buf, 1, items.len());
    lemma_bulks_encoded(buf, 1 + num.len() as int, items);
}

} // verus!
