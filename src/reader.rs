use vstd::prelude::*;
use vstd::utf8::{decode_utf8, valid_utf8};
use crate::error::ErrorType;

verus! {

/// A read position `pos` inside the window `[pos, end)` of a byte buffer.
/// Reads never go past `end`, and a cursor only moves forward.
#[derive(Debug, Clone, Copy, PartialEq, Eq, Structural)]
pub struct Cursor {
    pub pos: usize,
    pub end: usize,
}

/// `128` to the power `i`: the weight of the `i`-th group of seven bits.
pub open spec fn pow128(i: nat) -> nat
    decreases i,
{
    if i == 0 {
        1
    } else {
        128 * pow128((i - 1) as nat)
    }
}

/// The byte at `pos`, and the position after it.
pub open spec fn byte_at(d: Seq<u8>, pos: int, end: int) -> Result<(u8, int), ErrorType> {
    if pos < end {
        Ok((d[pos], pos + 1))
    } else {
        Err(ErrorType::UnexpectedEnd)
    }
}

/// Unsigned LEB128 decoding, continued at its `i`-th byte (at `pos + i`) with
/// `acc` the value of the bytes before it. A fifth byte that carries bits above
/// bit 31, or asks for a sixth byte, makes the integer malformed.
pub open spec fn leb_from(d: Seq<u8>, pos: int, end: int, i: nat, acc: nat) -> Result<(nat, int), ErrorType>
    decreases 4 - i,
{
    if pos + i >= end {
        Err(ErrorType::UnexpectedEnd)
    } else if i >= 4 {
        if d[pos + i] >= 16 {
            Err(ErrorType::MalformedVarint)
        } else {
            Ok(((acc + d[pos + i] * pow128(i)) as nat, pos + i + 1))
        }
    } else if d[pos + i] < 128 {
        Ok(((acc + d[pos + i] * pow128(i)) as nat, pos + i + 1))
    } else {
        leb_from(d, pos, end, i + 1, (acc + (d[pos + i] - 128) * pow128(i)) as nat)
    }
}

/// The 32-bit unsigned LEB128 integer at `pos`, and the position after it.
pub open spec fn leb_u32(d: Seq<u8>, pos: int, end: int) -> Result<(nat, int), ErrorType> {
    leb_from(d, pos, end, 0, 0)
}

/// The `n` bytes at `pos`, and the position after them.
pub open spec fn bytes_at(d: Seq<u8>, pos: int, end: int, n: nat) -> Result<(Seq<u8>, int), ErrorType> {
    if n <= end - pos {
        Ok((d.subrange(pos, pos + n), pos + n))
    } else {
        Err(ErrorType::UnexpectedEnd)
    }
}

/// A name: a LEB128 length followed by that many bytes of UTF-8 text.
pub open spec fn name_at(d: Seq<u8>, pos: int, end: int) -> Result<(Seq<char>, int), ErrorType> {
    match leb_u32(d, pos, end) {
        Err(e) => Err(e),
        Ok((n, p)) => match bytes_at(d, p, end, n) {
            Err(e) => Err(e),
            Ok((b, q)) => if valid_utf8(b) {
                Ok((decode_utf8(b), q))
            } else {
                Err(ErrorType::InvalidUtf8)
            },
        },
    }
}

/// A decoded LEB128 integer fits in 32 bits and lies inside the window.
pub proof fn lemma_leb_from_bounds(d: Seq<u8>, pos: int, end: int, i: nat, acc: nat)
    requires
        i <= 4,
        acc < pow128(i),
    ensures
        leb_from(d, pos, end, i, acc) matches Ok((v, q)) ==> v < 0x1_0000_0000 && pos + i < q <= end,
    decreases 4 - i,
{
    lemma_pow128_small(i);
    if pos + i < end {
        let b = d[pos + i];
        if i >= 4 {
            if b < 16 {
                assert(acc + b * pow128(i) < 0x1_0000_0000) by (nonlinear_arith)
                    requires
                        acc < pow128(i),
                        b < 16,
                        pow128(i) == 0x1000_0000,
                ;
            }
        } else if b < 128 {
            assert(acc + b * pow128(i) < 128 * pow128(i)) by (nonlinear_arith)
                requires
                    acc < pow128(i),
                    b < 128,
            ;
        } else {
            assert(acc + (b - 128) * pow128(i) < 128 * pow128(i)) by (nonlinear_arith)
                requires
                    acc < pow128(i),
                    b < 256,
                    b >= 128,
            ;
            lemma_leb_from_bounds(d, pos, end, i + 1, (acc + (b - 128) * pow128(i)) as nat);
        }
    }
}

/// The weights of the first five groups, written out.
pub proof fn lemma_pow128_small(i: nat)
    ensures
        i == 0 ==> pow128(i) == 1,
        i == 1 ==> pow128(i) == 0x80,
        i == 2 ==> pow128(i) == 0x4000,
        i == 3 ==> pow128(i) == 0x20_0000,
        i == 4 ==> pow128(i) == 0x1000_0000,
{
    reveal_with_fuel(pow128, 5);
}

impl Cursor {
    /// The cursor is a window of the buffer `d`.
    pub open spec fn wf(self, d: Seq<u8>) -> bool {
        self.pos <= self.end <= d.len()
    }

    /// A cursor over `[start, end)`.
    pub fn new(data: &[u8], start: usize, end: usize) -> (r: Cursor)
        requires
            start <= end <= data@.len(),
        ensures
            r.pos == start,
            r.end == end,
            r.wf(data@),
    {
        Cursor { pos: start, end }
    }

    /// True when no byte of the window is left.
    pub fn at_end(self) -> (r: bool)
        ensures
            r == (self.pos >= self.end),
    {
        self.pos >= self.end
    }

    /// Reads one byte.
    pub fn read_byte(self, data: &[u8]) -> (r: Result<(u8, Cursor), ErrorType>)
        requires
            self.wf(data@),
        ensures
            match r {
                Ok((b, c)) => byte_at(data@, self.pos as int, self.end as int) == Ok::<(u8, int), ErrorType>((b, c.pos as int))
                    && c.end == self.end && c.wf(data@),
                Err(e) => byte_at(data@, self.pos as int, self.end as int) == Err::<(u8, int), ErrorType>(e),
            },
    {
        if self.pos < self.end {
            Ok((data[self.pos], Cursor { pos: self.pos + 1, end: self.end }))
        } else {
            Err(ErrorType::UnexpectedEnd)
        }
    }

    /// Reads a 32-bit unsigned LEB128 integer.
    pub fn read_u32_leb128(self, data: &[u8]) -> (r: Result<(u32, Cursor), ErrorType>)
        requires
            self.wf(data@),
        ensures
            match r {
                Ok((v, c)) => leb_u32(data@, self.pos as int, self.end as int) == Ok::<(nat, int), ErrorType>((v as nat, c.pos as int))
                    && c.end == self.end && c.wf(data@),
                Err(e) => leb_u32(data@, self.pos as int, self.end as int) == Err::<(nat, int), ErrorType>(e),
            },
    {
        let d = Ghost(data@);
        let mut i: usize = 0;
        let mut acc: u32 = 0;
        let mut weight: u32 = 1;
        proof {
            lemma_pow128_small(0);
        }
        loop
            invariant
                self.wf(d@),
                d@ == data@,
                i <= 4,
                weight == pow128(i as nat),
                acc < pow128(i as nat),
                leb_u32(d@, self.pos as int, self.end as int)
                    == leb_from(d@, self.pos as int, self.end as int, i as nat, acc as nat),
            decreases 4 - i,
        {
            proof {
                lemma_pow128_small(i as nat);
                lemma_pow128_small((i + 1) as nat);
            }
            if i >= self.end - self.pos {
                return Err(ErrorType::UnexpectedEnd);
            }
            let b = data[self.pos + i];
            if i >= 4 {
                if b >= 16 {
                    return Err(ErrorType::MalformedVarint);
                }
                proof {
                    assert(acc + b * weight < 0x1_0000_0000) by (nonlinear_arith)
                        requires
                            acc < weight,
                            b < 16,
                            weight == 0x1000_0000,
                    ;
                }
                return Ok((acc + (b as u32) * weight, Cursor { pos: self.pos + i + 1, end: self.end }));
            }
            if b < 128 {
                proof {
                    assert(acc + b * weight < 128 * weight) by (nonlinear_arith)
                        requires
                            acc < weight,
                            b < 128,
                    ;
                }
                return Ok((acc + (b as u32) * weight, Cursor { pos: self.pos + i + 1, end: self.end }));
            }
            proof {
                assert(acc + (b - 128) * weight < 128 * weight) by (nonlinear_arith)
                    requires
                        acc < weight,
                        b < 256,
                        b >= 128,
                ;
            }
            acc = acc + ((b - 128) as u32) * weight;
            weight = weight * 128;
            i = i + 1;
        }
    }

    /// Reads the next `n` bytes as a copy.
    pub fn read_bytes(self, data: &[u8], n: u32) -> (r: Result<(Vec<u8>, Cursor), ErrorType>)
        requires
            self.wf(data@),
        ensures
            match r {
                Ok((b, c)) => bytes_at(data@, self.pos as int, self.end as int, n as nat)
                    == Ok::<(Seq<u8>, int), ErrorType>((b@, c.pos as int)) && c.end == self.end && c.wf(data@),
                Err(e) => bytes_at(data@, self.pos as int, self.end as int, n as nat)
                    == Err::<(Seq<u8>, int), ErrorType>(e),
            },
    {
        let n = n as usize;
        if n > self.end - self.pos {
            return Err(ErrorType::UnexpectedEnd);
        }
        let end = self.pos + n;
        let out = vstd::slice::slice_to_vec(vstd::slice::slice_subrange(data, self.pos, end));
        Ok((out, Cursor { pos: end, end: self.end }))
    }

    /// Reads a length-prefixed UTF-8 name.
    pub fn read_name(self, data: &[u8]) -> (r: Result<(String, Cursor), ErrorType>)
        requires
            self.wf(data@),
        ensures
            match r {
                Ok((s, c)) => name_at(data@, self.pos as int, self.end as int)
                    == Ok::<(Seq<char>, int), ErrorType>((s@, c.pos as int)) && c.end == self.end && c.wf(data@),
                Err(e) => name_at(data@, self.pos as int, self.end as int)
                    == Err::<(Seq<char>, int), ErrorType>(e),
            },
    {
        let (n, c) = match self.read_u32_leb128(data) {
            Ok(x) => x,
            Err(e) => return Err(e),
        };
        let (bytes, c) = match c.read_bytes(data, n) {
            Ok(x) => x,
            Err(e) => return Err(e),
        };
        match utf8_to_string(bytes) {
            Some(s) => Ok((s, c)),
            None => Err(ErrorType::InvalidUtf8),
        }
    }
}

/// Relies on `String::from_utf8`: it succeeds exactly on valid UTF-8, and the
/// string then holds the characters that the bytes encode.
#[verifier::external_body]
fn utf8_to_string(bytes: Vec<u8>) -> (r: Option<String>)
    ensures
        r is Some <==> valid_utf8(bytes@),
        r matches Some(s) ==> s@ == decode_utf8(bytes@),
{
    String::from_utf8(bytes).ok()
}

} // verus!
