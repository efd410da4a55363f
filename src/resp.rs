//! Encoding of protocol values: simple strings, bulk strings, the null bulk
//! string, error replies and arrays of bulk strings.
use vstd::prelude::*;

verus! {

/// Carriage return followed by line feed, the separator of the protocol.
pub open spec fn crlf() -> Seq<u8> {
    seq![13u8, 10u8]
}

/// The ASCII digit for a value below ten.
pub open spec fn digit_byte(d: nat) -> u8 {
    (48 + d) as u8
}

/// The shortest base-10 representation of `n`, as ASCII digits.
pub open spec fn dec(n: nat) -> Seq<u8>
    decreases n,
{
    if n < 10 {
        seq![digit_byte(n)]
    } else {
        dec(n / 10).push(digit_byte(n % 10))
    }
}

/// `+<text>\r\n`
pub open spec fn simple_spec(text: Seq<u8>) -> Seq<u8> {
    seq![43u8] + text + crlf()
}

/// `-<text>\r\n`
pub open spec fn error_spec(text: Seq<u8>) -> Seq<u8> {
    seq![45u8] + text + crlf()
}

/// `$<len>\r\n<data>\r\n`
pub open spec fn bulk_spec(data: Seq<u8>) -> Seq<u8> {
    seq![36u8] + dec(data.len()) + crlf() + data + crlf()
}

/// `$-1\r\n`
pub open spec fn null_bulk_spec() -> Seq<u8> {
    seq![36u8, 45u8, 49u8] + crlf()
}

/// The bulk strings of `items`, one after the other.
pub open spec fn bulks_spec(items: Seq<Seq<u8>>) -> Seq<u8>
    decreases items.len(),
{
    if items.len() == 0 {
        Seq::empty()
    } else {
        bulks_spec(items.drop_last()) + bulk_spec(items.last())
    }
}

/// `*<n>\r\n` followed by the `n` bulk strings.
pub open spec fn array_spec(items: Seq<Seq<u8>>) -> Seq<u8> {
    seq![42u8] + dec(items.len()) + crlf() + bulks_spec(items)
}

/// Appends the decimal digits of `n` to `out`.
pub fn push_decimal(out: &mut Vec<u8>, n: usize)
    ensures
        final(out)@ == old(out)@ + dec(n as nat),
    decreases n,
{
    if n >= 10 {
        push_decimal(out, n / 10);
    }
    out.push(48u8 + (n % 10) as u8);
}

/// Appends every byte of `data` to `out`.
pub fn push_all(out: &mut Vec<u8>, data: &[u8])
    ensures
        final(out)@ == old(out)@ + data@,
{
    let ghost start = out@;
    let mut i: usize = 0;
    while i < data.len()
        invariant
            i <= data@.len(),
            out@ == start + data@.subrange(0, i as int),
        decreases data@.len() - i,
    {
        out.push(data[i]);
        i = i + 1;
        assert(out@ =~= start + data@.subrange(0, i as int));
    }
    assert(data@.subrange(0, i as int) =~= data@);
}

fn push_crlf(out: &mut Vec<u8>)
    ensures
        final(out)@ == old(out)@ + crlf(),
{
    out.push(13u8);
    out.push(10u8);
    assert(final(out)@ =~= old(out)@ + crlf());
}

/// Appends the bulk string of `data` to `out`.
pub fn push_bulk(out: &mut Vec<u8>, data: &[u8])
    ensures
        final(out)@ == old(out)@ + bulk_spec(data@),
{
    let ghost start = out@;
    out.push(36u8);
    push_decimal(out, data.len());
    push_crlf(out);
    push_all(out, data);
    push_crlf(out);
    assert(out@ =~= start + bulk_spec(data@));
}

/// The simple string reply `+<text>\r\n`.
pub fn simple_string(text: &[u8]) -> (r: Vec<u8>)
    ensures
        r@ == simple_spec(text@),
{
    let mut out: Vec<u8> = Vec::new();
    out.push(43u8);
    push_all(&mut out, text);
    push_crlf(&mut out);
    assert(out@ =~= simple_spec(text@));
    out
}

/// The error reply `-<text>\r\n`.
pub fn error_reply(text: &[u8]) -> (r: Vec<u8>)
    ensures
        r@ == error_spec(text@),
{
    let mut out: Vec<u8> = Vec::new();
    out.push(45u8);
    push_all(&mut out, text);
    push_crlf(&mut out);
    assert(out@ =~= error_spec(text@));
    out
}

/// The bulk string reply `$<len>\r\n<data>\r\n`.
pub fn bulk_string(data: &[u8]) -> (r: Vec<u8>)
    ensures
        r@ == bulk_spec(data@),
{
    let mut out: Vec<u8> = Vec::new();
    push_bulk(&mut out, data);
    assert(out@ =~= bulk_spec(data@));
    out
}

/// The null bulk reply `$-1\r\n`, sent for an absent value.
pub fn null_bulk() -> (r: Vec<u8>)
    ensures
        r@ == null_bulk_spec(),
{
    let mut out: Vec<u8> = Vec::new();
    out.push(36u8);
    out.push(45u8);
    out.push(49u8);
    push_crlf(&mut out);
    assert(out@ =~= null_bulk_spec());
    out
}

/// An array of bulk strings, the shape of every request.
pub fn encode_array(items: &Vec<Vec<u8>>) -> (r: Vec<u8>)
    ensures
        r@ == array_spec(items@.map_values(|v: Vec<u8>| v@)),
{
    let ghost views = items@.map_values(|v: Vec<u8>| v@);
    let mut out: Vec<u8> = Vec::new();
    out.push(42u8);
    push_decimal(&mut out, items.len());
    push_crlf(&mut out);
    let ghost head = out@;
    let mut i: usize = 0;
    while i < items.len()
        invariant
            i <= items@.len(),
            views == items@.map_values(|v: Vec<u8>| v@),
            out@ == head + bulks_spec(views.subrange(0, i as int)),
        decreases items@.len() - i,
    {
        push_bulk(&mut out, items[i].as_slice());
        proof {
            let s = views.subrange(0, i as int + 1);
            assert(s.drop_last() =~= views.subrange(0, i as int));
            assert(s.last() == items@[i as int]@);
        }
        i = i + 1;
        assert(out@ =~= head + bulks_spec(views.subrange(0, i as int)));
    }
    assert(views.subrange(0, i as int) =~= views);
    assert(out@ =~= array_spec(views));
    out
}

} // verus!
