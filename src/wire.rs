//! Primitive encodings shared by every message: little-endian integers,
//! one-byte booleans and length-prefixed UTF-8 strings.

use vstd::bytes::*;
use vstd::prelude::*;
use vstd::slice::slice_subrange;
use vstd::utf8::*;

verus! {

broadcast use vstd::seq::group_seq_axioms;

/// Four bytes, least significant first.
pub open spec fn enc_u32(x: u32) -> Seq<u8> {
    spec_u32_to_le_bytes(x)
}

/// Eight bytes, least significant first.
pub open spec fn enc_u64(x: u64) -> Seq<u8> {
    spec_u64_to_le_bytes(x)
}

/// A signed integer travels as its two's-complement bit pattern.
pub open spec fn enc_i32(x: i32) -> Seq<u8> {
    enc_u32(x as u32)
}

/// One byte, 1 for true and 0 for false.
pub open spec fn enc_bool(b: bool) -> Seq<u8> {
    seq![if b { 1u8 } else { 0u8 }]
}

/// A string: its UTF-8 length as eight bytes, then its UTF-8 bytes.
pub open spec fn enc_str(s: Seq<char>) -> Seq<u8> {
    enc_u64(encode_utf8(s).len() as u64) + encode_utf8(s)
}

/// A string whose UTF-8 form has a length that the prefix can hold.
pub open spec fn str_fits(s: Seq<char>) -> bool {
    encode_utf8(s).len() <= u64::MAX
}

/// What reading an unsigned 32-bit integer from the front of `s` gives,
/// with the number of bytes it takes.
pub open spec fn parse_u32(s: Seq<u8>) -> Option<(u32, int)> {
    if s.len() >= 4 {
        Some((spec_u32_from_le_bytes(s.take(4)), 4))
    } else {
        None
    }
}

pub open spec fn parse_u64(s: Seq<u8>) -> Option<(u64, int)> {
    if s.len() >= 8 {
        Some((spec_u64_from_le_bytes(s.take(8)), 8))
    } else {
        None
    }
}

pub open spec fn parse_i32(s: Seq<u8>) -> Option<(i32, int)> {
    match parse_u32(s) {
        Some((v, n)) => Some((v as i32, n)),
        None => None,
    }
}

pub open spec fn parse_bool(s: Seq<u8>) -> Option<(bool, int)> {
    if s.len() >= 1 && s[0] == 0 {
        Some((false, 1))
    } else if s.len() >= 1 && s[0] == 1 {
        Some((true, 1))
    } else {
        None
    }
}

pub open spec fn parse_str(s: Seq<u8>) -> Option<(Seq<char>, int)> {
    match parse_u64(s) {
        Some((n, k)) => {
            if s.len() - k >= n && valid_utf8(s.subrange(k, k + n)) {
                Some((decode_utf8(s.subrange(k, k + n)), k + n))
            } else {
                None
            }
        },
        None => None,
    }
}

pub proof fn lemma_u32(x: u32, rest: Seq<u8>)
    ensures
        parse_u32(enc_u32(x) + rest) == Some((x, 4int)),
        enc_u32(x).len() == 4,
{
    lemma_auto_spec_u32_to_from_le_bytes();
    assert((enc_u32(x) + rest).take(4) =~= enc_u32(x));
}

pub proof fn lemma_u64(x: u64, rest: Seq<u8>)
    ensures
        parse_u64(enc_u64(x) + rest) == Some((x, 8int)),
        enc_u64(x).len() == 8,
{
    lemma_auto_spec_u64_to_from_le_bytes();
    assert((enc_u64(x) + rest).take(8) =~= enc_u64(x));
}

pub proof fn lemma_i32(x: i32, rest: Seq<u8>)
    ensures
        parse_i32(enc_i32(x) + rest) == Some((x, 4int)),
        enc_i32(x).len() == 4,
{
    lemma_u32(x as u32, rest);
    assert((x as u32) as i32 == x) by (bit_vector);
}

pub proof fn lemma_bool(b: bool, rest: Seq<u8>)
    ensures
        parse_bool(enc_bool(b) + rest) == Some((b, 1int)),
        enc_bool(b).len() == 1,
{
}

pub proof fn lemma_str(s: Seq<char>, rest: Seq<u8>)
    requires
        str_fits(s),
    ensures
        parse_str(enc_str(s) + rest) == Some((s, enc_str(s).len() as int)),
        enc_str(s).len() == 8 + encode_utf8(s).len(),
{
    let u = encode_utf8(s);
    let n = u.len() as u64;
    lemma_u64(n, u + rest);
    assert(enc_str(s) + rest =~= enc_u64(n) + (u + rest));
    let all = enc_str(s) + rest;
    assert(all.subrange(8, 8 + n) =~= u);
    encode_utf8_valid_utf8(s);
    encode_utf8_decode_utf8(s);
}

/// A successful read of an integer took exactly its encoding.
pub proof fn lemma_u32_sound(s: Seq<u8>)
    requires
        parse_u32(s) is Some,
    ensures
        s.take(4) == enc_u32(parse_u32(s).unwrap().0),
{
    lemma_auto_spec_u32_to_from_le_bytes();
}

pub proof fn lemma_u64_sound(s: Seq<u8>)
    requires
        parse_u64(s) is Some,
    ensures
        s.take(8) == enc_u64(parse_u64(s).unwrap().0),
{
    lemma_auto_spec_u64_to_from_le_bytes();
}

pub proof fn lemma_i32_sound(s: Seq<u8>)
    requires
        parse_i32(s) is Some,
    ensures
        s.take(4) == enc_i32(parse_i32(s).unwrap().0),
{
    lemma_u32_sound(s);
    let v = parse_u32(s).unwrap().0;
    assert((v as i32) as u32 == v) by (bit_vector);
}

pub proof fn lemma_bool_sound(s: Seq<u8>)
    requires
        parse_bool(s) is Some,
    ensures
        s.take(1) =~= enc_bool(parse_bool(s).unwrap().0),
{
}

pub proof fn lemma_str_sound(s: Seq<u8>)
    requires
        parse_str(s) is Some,
    ensures
        s.take(parse_str(s).unwrap().1) == enc_str(parse_str(s).unwrap().0),
        str_fits(parse_str(s).unwrap().0),
        8 <= parse_str(s).unwrap().1 <= s.len(),
{
    lemma_u64_sound(s);
    let n = parse_u64(s).unwrap().0;
    let body = s.subrange(8, 8 + n);
    decode_utf8_encode_utf8(body);
    assert(s.take(8 + n) =~= s.take(8) + body);
}

/// Appends `bytes` at the end of `buf`.
pub fn put_bytes(buf: &mut Vec<u8>, bytes: &[u8])
    ensures
        final(buf)@ == old(buf)@ + bytes@,
{
    let mut i: usize = 0;
    while i < bytes.len()
        invariant
            i <= bytes@.len(),
            buf@ == old(buf)@ + bytes@.take(i as int),
        decreases bytes@.len() - i,
    {
        buf.push(bytes[i]);
        i = i + 1;
        assert(bytes@.take(i as int) =~= bytes@.take(i - 1) + seq![bytes@[i - 1]]);
    }
    assert(bytes@.take(i as int) =~= bytes@);
}

pub fn put_u32(buf: &mut Vec<u8>, x: u32)
    ensures
        final(buf)@ == old(buf)@ + enc_u32(x),
{
    let b = u32_to_le_bytes(x);
    put_bytes(buf, b.as_slice());
}

pub fn put_u64(buf: &mut Vec<u8>, x: u64)
    ensures
        final(buf)@ == old(buf)@ + enc_u64(x),
{
    let b = u64_to_le_bytes(x);
    put_bytes(buf, b.as_slice());
}

pub fn put_i32(buf: &mut Vec<u8>, x: i32)
    ensures
        final(buf)@ == old(buf)@ + enc_i32(x),
{
    put_u32(buf, x as u32);
}

pub fn put_bool(buf: &mut Vec<u8>, b: bool)
    ensures
        final(buf)@ == old(buf)@ + enc_bool(b),
{
    buf.push(if b { 1u8 } else { 0u8 });
}

pub fn put_str(buf: &mut Vec<u8>, s: &str)
    ensures
        final(buf)@ == old(buf)@ + enc_str(s@),
        str_fits(s@),
{
    let b = s.as_bytes();
    put_u64(buf, b.len() as u64);
    put_bytes(buf, b);
    assert(final(buf)@ =~= old(buf)@ + enc_str(s@));
}

/// Relies on std::str::from_utf8: it fails exactly on byte strings that
/// are not UTF-8 and otherwise yields the characters those bytes encode.
#[verifier::external_body]
fn utf8_string(b: &[u8]) -> (r: Option<String>)
    ensures
        r is Some <==> valid_utf8(b@),
        r matches Some(s) ==> s@ == decode_utf8(b@),
{
    std::str::from_utf8(b).ok().map(|s| s.to_string())
}

/// Reads an unsigned 32-bit integer at `pos`; gives it with the position
/// after it.
pub fn get_u32(b: &[u8], pos: usize) -> (r: Option<(u32, usize)>)
    requires
        pos <= b@.len(),
    ensures
        r matches Some((_, q)) ==> pos <= q <= b@.len(),
        match parse_u32(b@.skip(pos as int)) {
            Some((v, n)) => r matches Some((w, q)) && w == v && q == pos + n,
            None => r is None,
        },
{
    if b.len() - pos < 4 {
        return None;
    }
    let piece = slice_subrange(b, pos, pos + 4);
    assert(piece@ =~= b@.skip(pos as int).take(4));
    Some((u32_from_le_bytes(piece), pos + 4))
}

pub fn get_u64(b: &[u8], pos: usize) -> (r: Option<(u64, usize)>)
    requires
        pos <= b@.len(),
    ensures
        r matches Some((_, q)) ==> pos <= q <= b@.len(),
        match parse_u64(b@.skip(pos as int)) {
            Some((v, n)) => r matches Some((w, q)) && w == v && q == pos + n,
            None => r is None,
        },
{
    if b.len() - pos < 8 {
        return None;
    }
    let piece = slice_subrange(b, pos, pos + 8);
    assert(piece@ =~= b@.skip(pos as int).take(8));
    Some((u64_from_le_bytes(piece), pos + 8))
}

pub fn get_i32(b: &[u8], pos: usize) -> (r: Option<(i32, usize)>)
    requires
        pos <= b@.len(),
    ensures
        r matches Some((_, q)) ==> pos <= q <= b@.len(),
        match parse_i32(b@.skip(pos as int)) {
            Some((v, n)) => r matches Some((w, q)) && w == v && q == pos + n,
            None => r is None,
        },
{
    match get_u32(b, pos) {
        Some((v, p)) => Some((v as i32, p)),
        None => None,
    }
}

pub fn get_bool(b: &[u8], pos: usize) -> (r: Option<(bool, usize)>)
    requires
        pos <= b@.len(),
    ensures
        r matches Some((_, q)) ==> pos <= q <= b@.len(),
        match parse_bool(b@.skip(pos as int)) {
            Some((v, n)) => r matches Some((w, q)) && w == v && q == pos + n,
            None => r is None,
        },
{
    if pos < b.len() && b[pos] == 0 {
        Some((false, pos + 1))
    } else if pos < b.len() && b[pos] == 1 {
        Some((true, pos + 1))
    } else {
        None
    }
}

pub fn get_str(b: &[u8], pos: usize) -> (r: Option<(String, usize)>)
    requires
        pos <= b@.len(),
    ensures
        r matches Some((_, q)) ==> pos <= q <= b@.len(),
        match parse_str(b@.skip(pos as int)) {
            Some((v, n)) => r matches Some((s, p)) && s@ == v && p == pos + n,
            None => r is None,
        },
{
    let (n, p) = match get_u64(b, pos) {
        Some(x) => x,
        None => return None,
    };
    if ((b.len() - p) as u64) < n {
        return None;
    }
    let end = p + n as usize;
    let piece = slice_subrange(b, p, end);
    let ghost s = b@.skip(pos as int);
    assert(piece@ =~= s.subrange(8, 8 + n));
    match utf8_string(piece) {
        Some(text) => Some((text, end)),
        None => None,
    }
}

pub proof fn lemma_assoc(a: Seq<u8>, b: Seq<u8>, c: Seq<u8>)
    ensures
        (a + b) + c == a + (b + c),
{
    assert((a + b) + c =~= a + (b + c));
}

/// Skipping past a prefix that was read leaves what follows it.
pub proof fn lemma_advance(s: Seq<u8>, o: int, a: Seq<u8>, t: Seq<u8>)
    requires
        0 <= o <= s.len(),
        s.skip(o) == a + t,
    ensures
        s.skip(o + a.len()) == t,
{
    assert((a + t).skip(a.len() as int) =~= t);
    assert(s.skip(o + a.len()) =~= s.skip(o).skip(a.len() as int));
}

/// Two adjacent pieces taken one after the other make the piece that
/// spans both.
pub proof fn lemma_take_cons(s: Seq<u8>, o: int, m: int, k: int)
    requires
        0 <= o,
        0 <= m,
        0 <= k,
        o + m + k <= s.len(),
    ensures
        s.skip(o).take(m + k) == s.skip(o).take(m) + s.skip(o + m).take(k),
{
    assert(s.skip(o).take(m + k) =~= s.skip(o).take(m) + s.skip(o + m).take(k));
}

} // verus!
