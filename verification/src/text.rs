//! Text helpers: UTF-8 conversion between strings and bytes, and the
//! decimal rendering of numbers used in error messages.
use std::string::FromUtf8Error;
use vstd::prelude::*;
use vstd::utf8::*;

verus! {

#[verifier::external_type_specification]
#[verifier::external_body]
pub struct ExFromUtf8Error(FromUtf8Error);



/// Decodes UTF-8 bytes into a `String`.
///
/// Calls `String::from_utf8`, which, as std documents, succeeds exactly when
/// the bytes are valid UTF-8 and then holds the characters they encode.
#[verifier::external_body]
pub fn string_from_utf8(bytes: Vec<u8>) -> (r: Result<String, FromUtf8Error>)
    ensures
        r is Ok <==> valid_utf8(bytes@),
        r matches Ok(s) ==> s@ == decode_utf8(bytes@),
{
    String::from_utf8(bytes)
}

/// The UTF-8 bytes of a string.
pub open spec fn utf8_bytes(s: Seq<char>) -> Seq<u8> {
    encode_utf8(s)
}

/// The UTF-8 bytes of `s`, copied into a new vector.
pub fn string_bytes(s: &String) -> (b: Vec<u8>)
    ensures
        b@ == utf8_bytes(s@),
{
    let bytes: &[u8] = s.as_str().as_bytes();
    let mut out: Vec<u8> = Vec::with_capacity(bytes.len());
    let mut i: usize = 0;
    while i < bytes.len()
        invariant
            i <= bytes@.len(),
            out@ == bytes@.subrange(0, i as int),
        decreases bytes@.len() - i,
    {
        out.push(bytes[i]);
        i = i + 1;
        assert(out@ =~= bytes@.subrange(0, i as int));
    }
    assert(bytes@.subrange(0, bytes@.len() as int) =~= bytes@);
    out
}

/// The byte length of the UTF-8 encoding of `s`.
pub fn string_byte_len(s: &String) -> (n: usize)
    ensures
        n == utf8_bytes(s@).len(),
{
    s.as_str().as_bytes().len()
}

/// Decoding the UTF-8 bytes of a string gives the string back.
pub proof fn lemma_utf8_roundtrip(s: Seq<char>)
    ensures
        valid_utf8(utf8_bytes(s)),
        decode_utf8(utf8_bytes(s)) == s,
{
    encode_utf8_valid_utf8(s);
    encode_utf8_decode_utf8(s);
}

/// A character takes at most four bytes in UTF-8.
pub proof fn lemma_utf8_len_bound(s: Seq<char>)
    ensures
        utf8_bytes(s).len() <= 4 * s.len(),
    decreases s.len(),
{
    if s.len() > 0 {
        lemma_utf8_len_bound(s.drop_first());
    }
}

/// The lower-case hex digit of `d`, below sixteen.
pub open spec fn hex_digit(d: u8) -> u8 {
    if d < 10 {
        (0x30 + d) as u8
    } else {
        (0x61 + d - 10) as u8
    }
}

/// How a byte appears inside a byte string literal: named escapes for
/// newline, carriage return, tab, backslash, quote and zero, printable ASCII
/// as itself, anything else as `\x` and two hex digits.
pub open spec fn byte_escape(x: u8) -> Seq<u8> {
    if x == 0x0a {
        seq![0x5cu8, 0x6eu8]
    } else if x == 0x0d {
        seq![0x5cu8, 0x72u8]
    } else if x == 0x09 {
        seq![0x5cu8, 0x74u8]
    } else if x == 0x5c || x == 0x22 {
        seq![0x5cu8, x]
    } else if x == 0x00 {
        seq![0x5cu8, 0x30u8]
    } else if 0x20 <= x < 0x7f {
        seq![x]
    } else {
        seq![0x5cu8, 0x78u8, hex_digit(x / 16), hex_digit(x % 16)]
    }
}

/// The escapes of all bytes, in order.
pub open spec fn escapes(b: Seq<u8>) -> Seq<u8>
    decreases b.len(),
{
    if b.len() == 0 {
        Seq::empty()
    } else {
        escapes(b.drop_last()) + byte_escape(b.last())
    }
}

/// The debug rendering of bytes as the `bytes` crate writes it: a byte
/// string literal `b"..."` (its ASCII bytes, read as text).
pub open spec fn bytes_debug(b: Seq<u8>) -> Seq<char> {
    decode_utf8(seq![0x62u8, 0x22u8] + escapes(b) + seq![0x22u8])
}

/// Whether all bytes are ASCII.
pub open spec fn is_ascii_bytes(b: Seq<u8>) -> bool {
    forall|k: int| 0 <= k < b.len() ==> #[trigger] b[k] < 0x80
}

/// ASCII bytes are valid UTF-8.
pub proof fn lemma_ascii_valid(b: Seq<u8>)
    requires
        is_ascii_bytes(b),
    ensures
        valid_utf8(b),
    decreases b.len(),
{
    if b.len() > 0 {
        let x = b[0];
        assert(x < 0x80);
        assert((x & 0x7f) <= 0x7f) by (bit_vector);
        let t = b.subrange(1, b.len() as int);
        assert(pop_first_scalar(b) == t);
        assert(is_ascii_bytes(t)) by {
            assert forall|k: int| 0 <= k < t.len() implies #[trigger] t[k] < 0x80 by {
                assert(t[k] == b[k + 1]);
            }
        }
        lemma_ascii_valid(t);
    }
}

fn hex_digit_of(d: u8) -> (r: u8)
    requires
        d < 16,
    ensures
        r == hex_digit(d),
        r < 0x80,
{
    if d < 10 {
        0x30 + d
    } else {
        0x61 + d - 10
    }
}

fn push_escape(out: &mut Vec<u8>, x: u8)
    ensures
        final(out)@ == old(out)@ + byte_escape(x),
        is_ascii_bytes(old(out)@) ==> is_ascii_bytes(final(out)@),
{
    let ghost before = out@;
    if x == 0x0a {
        out.push(0x5c);
        out.push(0x6e);
    } else if x == 0x0d {
        out.push(0x5c);
        out.push(0x72);
    } else if x == 0x09 {
        out.push(0x5c);
        out.push(0x74);
    } else if x == 0x5c || x == 0x22 {
        out.push(0x5c);
        out.push(x);
    } else if x == 0x00 {
        out.push(0x5c);
        out.push(0x30);
    } else if 0x20 <= x && x < 0x7f {
        out.push(x);
    } else {
        out.push(0x5c);
        out.push(0x78);
        out.push(hex_digit_of(x / 16));
        out.push(hex_digit_of(x % 16));
    }
    assert(out@ =~= before + byte_escape(x));
    assert(is_ascii_bytes(before) ==> is_ascii_bytes(out@)) by {
        if is_ascii_bytes(before) {
            assert forall|k: int| 0 <= k < out@.len() implies #[trigger] out@[k] < 0x80 by {
                if k >= before.len() {
                    assert(out@[k] == byte_escape(x)[k - before.len()]);
                }
            }
        }
    }
}

/// Renders bytes as the `bytes` crate's `Debug` does: a byte string
/// literal with escapes.
pub fn bytes_debug_text(b: &Vec<u8>) -> (s: String)
    ensures
        s@ == bytes_debug(b@),
{
    let mut out: Vec<u8> = Vec::new();
    out.push(0x62);
    out.push(0x22);
    let ghost head = seq![0x62u8, 0x22u8];
    assert(out@ =~= head + escapes(b@.take(0)));
    let mut i: usize = 0;
    while i < b.len()
        invariant
            i <= b@.len(),
            out@ == head + escapes(b@.take(i as int)),
            is_ascii_bytes(out@),
        decreases b@.len() - i,
    {
        push_escape(&mut out, b[i]);
        assert(b@.take(i + 1).drop_last() =~= b@.take(i as int));
        i = i + 1;
    }
    out.push(0x22);
    assert(b@.take(b@.len() as int) =~= b@);
    assert(out@ =~= head + escapes(b@) + seq![0x22u8]);
    assert(is_ascii_bytes(out@)) by {
        assert forall|k: int| 0 <= k < out@.len() implies #[trigger] out@[k] < 0x80 by {
            if k < out@.len() - 1 {
                assert(out@[k] == out@.drop_last()[k]);
            }
        }
    }
    proof {
        lemma_ascii_valid(out@);
    }
    match string_from_utf8(out) {
        Ok(s) => s,
        Err(_) => {
            assert(false);
            String::new()
        },
    }
}

/// The ASCII decimal digits of `n`, most significant first, without
/// leading zeros.
pub open spec fn decimal_digits(n: u64) -> Seq<u8>
    decreases n,
{
    if n < 10 {
        seq![(0x30 + n) as u8]
    } else {
        decimal_digits(n / 10) + seq![(0x30 + n % 10) as u8]
    }
}

/// The decimal rendering of `n`, as `u64::to_string` gives it.
pub open spec fn decimal(n: u64) -> Seq<char> {
    decode_utf8(decimal_digits(n))
}

/// Renders `n` in decimal.
pub fn decimal_text(n: u64) -> (s: String)
    ensures
        s@ == decimal(n),
{
    let mut m: u64 = n;
    let mut acc: Vec<u8> = Vec::new();
    assert(decimal_digits(n) =~= decimal_digits(m) + acc@);
    while m >= 10
        invariant
            decimal_digits(n) == decimal_digits(m) + acc@,
            is_ascii_bytes(acc@),
        decreases m,
    {
        let d: u8 = (m % 10) as u8;
        let ghost before = acc@;
        acc.insert(0, 0x30 + d);
        assert(acc@ =~= seq![(0x30 + d) as u8] + before);
        assert(decimal_digits(m) == decimal_digits(m / 10) + seq![(0x30 + m % 10) as u8]);
        m = m / 10;
        assert(decimal_digits(n) =~= decimal_digits(m) + acc@);
        assert(is_ascii_bytes(acc@)) by {
            assert forall|k: int| 0 <= k < acc@.len() implies #[trigger] acc@[k] < 0x80 by {
                if k > 0 {
                    assert(acc@[k] == before[k - 1]);
                }
            }
        }
    }
    let ghost before = acc@;
    acc.insert(0, 0x30 + m as u8);
    assert(acc@ =~= decimal_digits(n));
    assert(is_ascii_bytes(acc@)) by {
        assert forall|k: int| 0 <= k < acc@.len() implies #[trigger] acc@[k] < 0x80 by {
            if k > 0 {
                assert(acc@[k] == before[k - 1]);
            }
        }
    }
    proof {
        lemma_ascii_valid(acc@);
    }
    match string_from_utf8(acc) {
        Ok(s) => s,
        Err(_) => {
            assert(false);
            String::new()
        },
    }
}

/// `a` followed by `b`.
pub fn concat2(a: &str, b: &str) -> (s: String)
    ensures
        s@ == a@ + b@,
{
    let mut s: String = String::from_str(a);
    s.append(b);
    s
}

/// `a`, then `b`, then `c`.
pub fn concat3(a: &str, b: &str, c: &str) -> (s: String)
    ensures
        s@ == a@ + b@ + c@,
{
    let mut s: String = String::from_str(a);
    s.append(b);
    s.append(c);
    s
}

/// `a`, `b`, `c`, then `d`.
pub fn concat4(a: &str, b: &str, c: &str, d: &str) -> (s: String)
    ensures
        s@ == a@ + b@ + c@ + d@,
{
    let mut s: String = String::from_str(a);
    s.append(b);
    s.append(c);
    s.append(d);
    s
}

/// A copy of `s`.
pub fn owned(s: &str) -> (r: String)
    ensures
        r@ == s@,
{
    String::from_str(s)
}

} // verus!
