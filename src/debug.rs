//! Helpers for logging: bytes shown as an escaped byte-string literal, and
//! an option shown as its content or as nothing.

use vstd::prelude::*;

verus! {

/// How one byte appears inside a byte-string literal.
pub open spec fn escape_byte(c: u8) -> Seq<u8> {
    if c == 10 {
        seq![92u8, 110u8]
    } else if c == 13 {
        seq![92u8, 114u8]
    } else if c == 9 {
        seq![92u8, 116u8]
    } else if c == 92 || c == 34 {
        seq![92u8, c]
    } else if c == 0 {
        seq![92u8, 48u8]
    } else if 0x20 <= c < 0x7f {
        seq![c]
    } else {
        seq![92u8, 120u8, hex_digit(c / 16), hex_digit(c % 16)]
    }
}

/// A lower-case hexadecimal digit.
pub open spec fn hex_digit(d: u8) -> u8 {
    if d < 10 {
        (48 + d) as u8
    } else {
        (87 + d) as u8
    }
}

pub open spec fn escape_all(b: Seq<u8>) -> Seq<u8>
    decreases b.len(),
{
    if b.len() == 0 {
        Seq::empty()
    } else {
        escape_all(b.drop_last()) + escape_byte(b.last())
    }
}

/// The literal: `b"`, the escaped bytes, `"`.
pub open spec fn literal(b: Seq<u8>) -> Seq<u8> {
    seq![98u8, 34u8] + escape_all(b) + seq![34u8]
}

/// Bytes to be shown as a byte-string literal.
pub struct BytesDebug<'a>(pub &'a [u8]);

pub fn bytes<'a>(val: &'a [u8]) -> (r: BytesDebug<'a>)
    ensures
        r.0@ == val@,
{
    BytesDebug(val)
}

fn push_hex(out: &mut Vec<u8>, d: u8)
    requires
        d < 16,
    ensures
        final(out)@ == old(out)@.push(hex_digit(d)),
{
    if d < 10 {
        out.push(48 + d);
    } else {
        out.push(87 + d);
    }
}

fn escape_into(out: &mut Vec<u8>, c: u8)
    ensures
        final(out)@ == old(out)@ + escape_byte(c),
{
    let ghost start = out@;
    if c == 10 {
        out.push(92);
        out.push(110);
    } else if c == 13 {
        out.push(92);
        out.push(114);
    } else if c == 9 {
        out.push(92);
        out.push(116);
    } else if c == 92 || c == 34 {
        out.push(92);
        out.push(c);
    } else if c == 0 {
        out.push(92);
        out.push(48);
    } else if 0x20 <= c && c < 0x7f {
        out.push(c);
    } else {
        out.push(92);
        out.push(120);
        push_hex(out, c / 16);
        push_hex(out, c % 16);
    }
    assert(out@ =~= start + escape_byte(c));
}

impl<'a> BytesDebug<'a> {
    /// The text of the literal, in ASCII.
    pub fn render(&self) -> (r: Vec<u8>)
        ensures
            r@ == literal(self.0@),
    {
        let mut out: Vec<u8> = Vec::new();
        out.push(98);
        out.push(34);
        let mut i: usize = 0;
        while i < self.0.len()
            invariant
                i <= self.0@.len(),
                out@ == seq![98u8, 34u8] + escape_all(self.0@.take(i as int)),
            decreases self.0@.len() - i,
        {
            escape_into(&mut out, self.0[i]);
            proof {
                let t = self.0@.take(i + 1);
                assert(t.drop_last() =~= self.0@.take(i as int));
                assert(t.last() == self.0@[i as int]);
            }
            i = i + 1;
            assert(out@ =~= seq![98u8, 34u8] + escape_all(self.0@.take(i as int)));
        }
        out.push(34);
        assert(self.0@.take(i as int) =~= self.0@);
        out
    }
}

/// An option to be shown as its content, or as nothing when empty.
pub struct OptionDebug<'a, T>(pub &'a Option<T>);

pub fn opt<'a, T>(val: &'a Option<T>) -> (r: OptionDebug<'a, T>)
    ensures
        *r.0 == *val,
{
    OptionDebug(val)
}

impl<'a, T> OptionDebug<'a, T> {
    /// What is shown: the content, if any.
    pub fn shown(&self) -> (r: Option<&'a T>)
        ensures
            match *self.0 {
                Some(v) => r == Some(&v),
                None => r is None,
            },
    {
        match self.0 {
            Some(v) => Some(v),
            None => None,
        }
    }
}

} // verus!
