//! The byte source and the primitive readers.
//!
//! A [`ByteReader`] owns the whole input and consumes a strictly growing
//! prefix of it; the running position doubles as the `bytes_read` counter
//! that annotates errors. On top of single bytes it offers the
//! little-endian fixed-width reads and the variable-length integer read
//! that the rest of the decoder is built from.

use vstd::prelude::*;

use crate::error::ErrorKind;
use crate::error::ParseError;

verus! {

/// `128^n`: the weight of the `n`-th 7-bit group of a varint.
pub open spec fn pow128(n: nat) -> nat
    decreases n,
{
    if n == 0 {
        1
    } else {
        128 * pow128((n - 1) as nat)
    }
}

/// Structural varint decoding of a prefix of `s`: the value carried by
/// the 7-bit groups up to and including the first byte without the
/// continuation flag, together with how many bytes that took. `None`
/// when the bytes run out first. The 32-bit cap is not applied here.
pub open spec fn varint_raw(s: Seq<u8>) -> Option<(nat, int)>
    decreases s.len(),
{
    if s.len() == 0 {
        None
    } else if s[0] < 128 {
        Some((s[0] as nat, 1))
    } else {
        match varint_raw(s.skip(1)) {
            Some(p) => Some((((s[0] as nat - 128) + 128 * p.0) as nat, p.1 + 1)),
            None => None,
        }
    }
}

/// The bytes at the front of `s` form a varint the decoder accepts: it
/// terminates within five bytes and its value fits in 32 bits.
pub open spec fn varint_ok(s: Seq<u8>) -> bool {
    match varint_raw(s) {
        Some(p) => p.1 <= 5 && p.0 < 0x1_0000_0000,
        None => false,
    }
}

/// The value of the varint at the front of `s`.
pub open spec fn varint_value(s: Seq<u8>) -> nat {
    match varint_raw(s) {
        Some(p) => p.0,
        None => 0,
    }
}

/// How many bytes the varint at the front of `s` occupies.
pub open spec fn varint_size(s: Seq<u8>) -> int {
    match varint_raw(s) {
        Some(p) => p.1,
        None => 0,
    }
}

/// The input ends inside a varint: every remaining byte carries the
/// continuation flag and the decoder's five-byte window is not yet full.
pub open spec fn varint_eof(s: Seq<u8>) -> bool {
    s.len() <= 4 && varint_raw(s) is None
}

/// The varint at the front of `s` does not fit: a fifth byte either
/// continues further or carries a group that pushes the value past 32
/// bits.
pub open spec fn varint_overflow(s: Seq<u8>) -> bool {
    !varint_eof(s) && !varint_ok(s)
}

/// The bytes a varint encoder would emit for `v`: 7-bit groups, least
/// significant first, the continuation flag on every byte but the last.
pub open spec fn varint_encode(v: nat) -> Seq<u8>
    decreases v,
{
    if v < 128 {
        seq![v as u8]
    } else {
        seq![(128 + v % 128) as u8].add(varint_encode(v / 128))
    }
}

/// A decoded varint occupies at least one byte.
proof fn lemma_varint_raw_size_pos(s: Seq<u8>)
    ensures
        varint_raw(s) matches Some(p) ==> p.1 >= 1,
    decreases s.len(),
{
    if s.len() > 0 && s[0] >= 128 {
        lemma_varint_raw_size_pos(s.skip(1));
    }
}

/// The first few powers of 128, unfolded.
proof fn lemma_pow128_values()
    ensures
        pow128(0) == 1,
        pow128(1) == 128,
        pow128(2) == 0x4000,
        pow128(3) == 0x20_0000,
        pow128(4) == 0x1000_0000,
        pow128(5) == 0x8_0000_0000,
{
    assert(pow128(0) == 1);
    assert(pow128(1) == 128);
    assert(pow128(2) == 0x4000);
    assert(pow128(3) == 0x20_0000);
    assert(pow128(4) == 0x1000_0000);
    assert(pow128(5) == 0x8_0000_0000);
}

/// An encoded value below `128^n` takes at most `n` bytes.
proof fn lemma_varint_encode_len(v: nat, n: nat)
    requires
        n >= 1,
        v < pow128(n),
    ensures
        varint_encode(v).len() <= n,
    decreases v,
{
    if v >= 128 {
        assert(n >= 2) by {
            if n == 1 {
                assert(pow128(1) == 128);
            }
        }
        assert(v / 128 < pow128((n - 1) as nat)) by {
            vstd::arithmetic::div_mod::lemma_fundamental_div_mod(v as int, 128);
            if v / 128 >= pow128((n - 1) as nat) {
                vstd::arithmetic::mul::lemma_mul_inequality(
                    pow128((n - 1) as nat) as int,
                    (v / 128) as int,
                    128,
                );
            }
        }
        assert(v / 128 < v);
        lemma_varint_encode_len(v / 128, (n - 1) as nat);
    }
}

/// Varint canonicality: the decoder, fed the bytes the encoder would
/// emit for any 32-bit value `v` (followed by anything at all), accepts
/// them and returns exactly `v`, consuming exactly the encoding.
pub proof fn lemma_varint_round_trip(v: nat, rest: Seq<u8>)
    requires
        v < 0x1_0000_0000,
    ensures
        varint_raw(varint_encode(v).add(rest)) == Some((v, varint_encode(v).len() as int)),
        varint_encode(v).len() <= 5,
        varint_ok(varint_encode(v).add(rest)),
        varint_value(varint_encode(v).add(rest)) == v,
        varint_size(varint_encode(v).add(rest)) == varint_encode(v).len() as int,
    decreases v,
{
    lemma_pow128_values();
    lemma_varint_encode_len(v, 5);
    let s = varint_encode(v).add(rest);
    if v < 128 {
        assert(s[0] == v as u8);
        assert(varint_raw(s) == Some((v, 1int)));
    } else {
        vstd::arithmetic::div_mod::lemma_fundamental_div_mod(v as int, 128);
        assert(v / 128 < v);
        lemma_varint_round_trip(v / 128, rest);
        let e_tail = varint_encode(v / 128);
        assert(s.skip(1) =~= e_tail.add(rest));
        assert(s[0] == (128 + v % 128) as u8);
        assert(s[0] >= 128);
        assert(varint_raw(s.skip(1)) == Some((v / 128, e_tail.len() as int)));
        assert((s[0] as nat - 128) + 128 * (v / 128) == v);
        assert(varint_encode(v).len() == 1 + e_tail.len());
    }
}

/// A read-only byte stream with sequential consumption. `pos` is both
/// the cursor and the count of bytes read so far.
pub struct ByteReader {
    /// The whole input.
    pub bytes: Vec<u8>,
    /// How many bytes have been consumed.
    pub pos: usize,
}

impl ByteReader {
    /// The cursor never passes the end of the input.
    pub open spec fn wf(self) -> bool {
        self.pos <= self.bytes@.len()
    }

    /// The whole input as a sequence.
    pub open spec fn data(self) -> Seq<u8> {
        self.bytes@
    }

    /// The bytes not yet consumed.
    pub open spec fn remaining(self) -> Seq<u8> {
        self.bytes@.skip(self.pos as int)
    }

    /// A reader positioned at the start of `bytes`.
    pub fn new(bytes: Vec<u8>) -> (r: ByteReader)
        ensures
            r.wf(),
            r.data() == bytes@,
            r.pos == 0,
    {
        ByteReader { bytes, pos: 0 }
    }

    /// How many bytes have been consumed so far.
    pub fn bytes_read(&self) -> (r: usize)
        ensures
            r == self.pos,
    {
        self.pos
    }

    /// How many bytes are left.
    pub fn remaining_len(&self) -> (r: usize)
        requires
            self.wf(),
        ensures
            r == self.remaining().len(),
    {
        self.bytes.len() - self.pos
    }

    /// Consume one byte.
    pub fn read_u8(&mut self) -> (r: Result<u8, ParseError>)
        requires
            old(self).wf(),
        ensures
            final(self).wf(),
            final(self).data() == old(self).data(),
            match r {
                Ok(b) => old(self).remaining().len() >= 1 && b == old(self).remaining()[0]
                    && final(self).pos == old(self).pos + 1,
                Err(e) => old(self).remaining().len() == 0 && e.kind == ErrorKind::UnexpectedEof
                    && e.offset == old(self).pos && final(self).pos == old(self).pos,
            },
    {
        if self.pos < self.bytes.len() {
            let b = self.bytes[self.pos];
            self.pos = self.pos + 1;
            Ok(b)
        } else {
            Err(ParseError { kind: ErrorKind::UnexpectedEof, offset: self.pos })
        }
    }

    /// Consume two bytes as a little-endian 16-bit integer.
    pub fn read_u16le(&mut self) -> (r: Result<u16, ParseError>)
        requires
            old(self).wf(),
        ensures
            final(self).wf(),
            final(self).data() == old(self).data(),
            match r {
                Ok(v) => old(self).remaining().len() >= 2 && v as int == old(self).remaining()[0]
                    + 256 * old(self).remaining()[1] && final(self).pos == old(self).pos + 2,
                Err(e) => old(self).remaining().len() < 2 && e.kind == ErrorKind::UnexpectedEof
                    && e.offset == old(self).pos && final(self).pos == old(self).pos,
            },
    {
        if self.remaining_len() < 2 {
            return Err(ParseError { kind: ErrorKind::UnexpectedEof, offset: self.pos });
        }
        let total = self.bytes.len();
        proof {
            assert(self.pos + 2 <= total);
        }
        let b0 = self.bytes[self.pos];
        let b1 = self.bytes[self.pos + 1];
        self.pos = self.pos + 2;
        Ok((b0 as u16) + 256 * (b1 as u16))
    }

    /// Consume four bytes as a little-endian 32-bit integer.
    pub fn read_u32le(&mut self) -> (r: Result<u32, ParseError>)
        requires
            old(self).wf(),
        ensures
            final(self).wf(),
            final(self).data() == old(self).data(),
            match r {
                Ok(v) => old(self).remaining().len() >= 4 && v as int == old(self).remaining()[0]
                    + 256 * old(self).remaining()[1] + 65536 * old(self).remaining()[2] + 16777216
                    * old(self).remaining()[3] && final(self).pos == old(self).pos + 4,
                Err(e) => old(self).remaining().len() < 4 && e.kind == ErrorKind::UnexpectedEof
                    && e.offset == old(self).pos && final(self).pos == old(self).pos,
            },
    {
        if self.remaining_len() < 4 {
            return Err(ParseError { kind: ErrorKind::UnexpectedEof, offset: self.pos });
        }
        let total = self.bytes.len();
        proof {
            assert(self.pos + 4 <= total);
        }
        let b0 = self.bytes[self.pos];
        let b1 = self.bytes[self.pos + 1];
        let b2 = self.bytes[self.pos + 2];
        let b3 = self.bytes[self.pos + 3];
        self.pos = self.pos + 4;
        Ok((b0 as u32) + 256 * (b1 as u32) + 65536 * (b2 as u32) + 16777216 * (b3 as u32))
    }

    /// Consume a variable-length unsigned integer: 7 bits per byte,
    /// least significant group first, the high bit of each byte flagging
    /// a continuation. Values must fit in 32 bits; a fifth byte that
    /// continues further, or that pushes the value past 32 bits, is an
    /// overflow.
    pub fn read_var_uint(&mut self) -> (r: Result<u32, ParseError>)
        requires
            old(self).wf(),
        ensures
            final(self).wf(),
            final(self).data() == old(self).data(),
            old(self).pos <= final(self).pos,
            match r {
                Ok(v) => varint_ok(old(self).remaining()) && v as nat == varint_value(
                    old(self).remaining(),
                ) && final(self).pos == old(self).pos + varint_size(old(self).remaining()),
                Err(e) => e.offset == old(self).pos && (e.kind == ErrorKind::UnexpectedEof || e.kind
                    == ErrorKind::VarintOverflow) && (e.kind == ErrorKind::UnexpectedEof
                    <==> varint_eof(old(self).remaining())) && (e.kind == ErrorKind::VarintOverflow
                    <==> varint_overflow(old(self).remaining())),
            },
    {
        let offset = self.pos;
        let ghost rem = self.remaining();
        let mut result: u64 = 0;
        let mut mult: u64 = 1;
        let mut count: usize = 0;
        proof {
            assert(rem.skip(0) =~= rem);
        }
        loop
            invariant
                self.wf(),
                self.data() == old(self).data(),
                count <= 4,
                self.pos == old(self).pos + count,
                offset == old(self).pos,
                rem == old(self).remaining(),
                mult == pow128(count as nat),
                result < mult,
                mult <= 0x1000_0000,
                match varint_raw(rem.skip(count as int)) {
                    Some(p) => varint_raw(rem) == Some(
                        ((result + mult * p.0) as nat, p.1 + count),
                    ),
                    None => varint_raw(rem) is None,
                },
                forall|i: int| 0 <= i < count ==> rem[i] >= 128,
            decreases 5 - count,
        {
            let b = match self.read_u8() {
                Ok(b) => b,
                Err(_) => {
                    proof {
                        assert(rem.skip(count as int).len() == 0);
                        assert(rem.len() == count);
                    }
                    return Err(ParseError { kind: ErrorKind::UnexpectedEof, offset });
                },
            };
            proof {
                assert(rem.skip(count as int)[0] == b);
                assert(rem[count as int] == b);
            }
            if count == 4 && b >= 16 {
                proof {
                    assert(rem.len() >= 5);
                    lemma_pow128_values();
                    let tail = rem.skip(4);
                    assert(tail[0] == b);
                    if b < 128 {
                        assert(varint_raw(tail) == Some((b as nat, 1int)));
                        assert(varint_raw(rem) == Some(((result + mult * b) as nat, 5int)));
                        assert(mult * b >= 0x1000_0000 * 16) by {
                            vstd::arithmetic::mul::lemma_mul_inequality(16, b as int, 0x1000_0000);
                            vstd::arithmetic::mul::lemma_mul_is_commutative(0x1000_0000, b as int);
                        }
                        assert(!varint_ok(rem));
                    } else {
                        assert(tail.skip(1) =~= rem.skip(5));
                        match varint_raw(rem.skip(5)) {
                            Some(q) => {
                                lemma_varint_raw_size_pos(rem.skip(5));
                                assert(varint_raw(tail) matches Some(t) && t.1 == q.1 + 1);
                                assert(varint_size(rem) >= 6);
                            },
                            None => {
                                assert(varint_raw(tail) is None);
                                assert(varint_raw(rem) is None);
                            },
                        }
                        assert(!varint_ok(rem));
                    }
                }
                return Err(ParseError { kind: ErrorKind::VarintOverflow, offset });
            }
            if b < 128 {
                proof {
                    assert(varint_raw(rem.skip(count as int)) == Some((b as nat, 1int)));
                    assert(varint_raw(rem) == Some(((result + mult * b) as nat, count + 1)));
                    assert(mult * b < mult * 128) by {
                        vstd::arithmetic::mul::lemma_mul_strict_inequality(
                            b as int,
                            128,
                            mult as int,
                        );
                        vstd::arithmetic::mul::lemma_mul_is_commutative(mult as int, b as int);
                        vstd::arithmetic::mul::lemma_mul_is_commutative(mult as int, 128);
                    }
                    if count == 4 {
                        assert(mult == pow128(4));
                        lemma_pow128_values();
                        assert(mult * b <= mult * 15) by {
                            vstd::arithmetic::mul::lemma_mul_inequality(b as int, 15, mult as int);
                            vstd::arithmetic::mul::lemma_mul_is_commutative(mult as int, b as int);
                            vstd::arithmetic::mul::lemma_mul_is_commutative(mult as int, 15);
                        }
                        assert(result + mult * b < 0x1_0000_0000);
                    } else {
                        assert(mult <= 0x20_0000) by {
                            lemma_pow128_values();
                            assert(count <= 3);
                        }
                        assert(mult * b <= mult * 127) by {
                            vstd::arithmetic::mul::lemma_mul_inequality(b as int, 127, mult as int);
                            vstd::arithmetic::mul::lemma_mul_is_commutative(mult as int, b as int);
                            vstd::arithmetic::mul::lemma_mul_is_commutative(mult as int, 127);
                        }
                        assert(mult * 127 <= 0x20_0000 * 127) by {
                            vstd::arithmetic::mul::lemma_mul_inequality(
                                mult as int,
                                0x20_0000,
                                127,
                            );
                        }
                        assert(result + mult * b < 0x1_0000_0000);
                    }
                }
                let v64 = result + mult * (b as u64);
                return Ok(v64 as u32);
            }
            proof {
                assert(count < 4);
                let tail = rem.skip(count as int);
                assert(tail[0] == b && b >= 128);
                assert(tail.skip(1) =~= rem.skip(count + 1));
                match varint_raw(rem.skip(count + 1)) {
                    Some(p) => {
                        assert(varint_raw(tail) == Some(
                            (((b as nat - 128) + 128 * p.0) as nat, p.1 + 1),
                        ));
                        assert(result + mult * ((b as nat - 128) + 128 * p.0) == (result + mult * (
                        b - 128)) + (mult * 128) * p.0) by (nonlinear_arith);
                    },
                    None => {
                        assert(varint_raw(tail) is None);
                    },
                }
                assert(mult * (b - 128) <= mult * 127) by {
                    vstd::arithmetic::mul::lemma_mul_inequality((b - 128) as int, 127, mult as int);
                    vstd::arithmetic::mul::lemma_mul_is_commutative(mult as int, (b - 128) as int);
                    vstd::arithmetic::mul::lemma_mul_is_commutative(mult as int, 127);
                }
                assert(mult <= 0x20_0000) by {
                    lemma_pow128_values();
                }
                assert(mult * 128 <= 0x20_0000 * 128) by {
                    vstd::arithmetic::mul::lemma_mul_inequality(mult as int, 0x20_0000, 128);
                }
                assert(result + mult * (b - 128) < mult * 128);
            }
            result = result + mult * ((b - 128) as u64);
            mult = mult * 128;
            count = count + 1;
        }
    }

    /// Drain the rest of the input.
    pub fn read_to_end(&mut self) -> (r: Vec<u8>)
        requires
            old(self).wf(),
        ensures
            final(self).wf(),
            final(self).data() == old(self).data(),
            final(self).pos == old(self).data().len(),
            r@ == old(self).remaining(),
    {
        let mut out: Vec<u8> = Vec::new();
        while self.pos < self.bytes.len()
            invariant
                self.wf(),
                self.data() == old(self).data(),
                old(self).pos <= self.pos,
                out@ == old(self).data().subrange(old(self).pos as int, self.pos as int),
            decreases self.bytes@.len() - self.pos,
        {
            let b = self.bytes[self.pos];
            out.push(b);
            self.pos = self.pos + 1;
        }
        proof {
            assert(out@ =~= old(self).remaining());
        }
        out
    }
}

} // verus!
