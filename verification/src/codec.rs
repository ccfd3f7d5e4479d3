//! Byte-level codec: the variable-length integer format (7 data bits per
//! byte, little-endian by group, high bit as continuation), big-endian
//! fixed-width integers, and length-prefixed UTF-8 strings, together with
//! a forward-only cursor over an in-memory byte buffer.

use vstd::prelude::*;
use vstd::utf8::{valid_utf8, decode_utf8, encode_utf8, encode_utf8_valid_utf8,
    encode_utf8_decode_utf8};

verus! {

/// How decoding a byte buffer can fail.
#[derive(Clone, Copy, Debug, PartialEq, Eq, Structural)]
pub enum FormatError {
    /// The buffer ended before the field was complete.
    UnexpectedEnd,
    /// No terminating byte (high bit clear) within the five-byte limit.
    VarIntTooLong,
    /// A string field held bytes that are not valid UTF-8.
    InvalidUtf8,
    /// A payload too large for its length prefix to be represented.
    TooLarge,
}

/// The unsigned 32-bit pattern of a signed 32-bit value (two's complement).
pub open spec fn u32_of_i32(v: i32) -> u32 {
    if v >= 0 {
        v as u32
    } else {
        (v + 0x1_0000_0000) as u32
    }
}

/// The signed 32-bit value whose two's-complement pattern is `u`.
pub open spec fn i32_of_u32(u: u32) -> i32 {
    if u < 0x8000_0000 {
        u as i32
    } else {
        (u - 0x1_0000_0000) as i32
    }
}

pub proof fn lemma_u32_i32_inverse(v: i32)
    ensures
        i32_of_u32(u32_of_i32(v)) == v,
{
}

pub fn u32_from_i32(v: i32) -> (r: u32)
    ensures
        r == u32_of_i32(v),
{
    if v >= 0 {
        v as u32
    } else {
        ((v as i64) + 0x1_0000_0000i64) as u32
    }
}

pub fn i32_from_u32(u: u32) -> (r: i32)
    ensures
        r == i32_of_u32(u),
{
    if u < 0x8000_0000 {
        u as i32
    } else {
        ((u as i64) - 0x1_0000_0000i64) as i32
    }
}

/// A forward-only reader over an in-memory byte buffer.
pub struct Cursor {
    data: Vec<u8>,
    pos: usize,
}

impl Cursor {
    /// The whole underlying buffer.
    pub closed spec fn bytes(&self) -> Seq<u8> {
        self.data@
    }

    /// How many bytes have been consumed.
    pub closed spec fn pos(&self) -> int {
        self.pos as int
    }

    pub open spec fn wf(&self) -> bool {
        0 <= self.pos() <= self.bytes().len()
    }

    /// The bytes not yet consumed.
    pub open spec fn remaining(&self) -> Seq<u8> {
        self.bytes().subrange(self.pos(), self.bytes().len() as int)
    }

    pub fn new(data: Vec<u8>) -> (r: Cursor)
        ensures
            r.wf(),
            r.bytes() == data@,
            r.pos() == 0,
    {
        Cursor { data, pos: 0 }
    }

    pub fn remaining_len(&self) -> (r: usize)
        requires
            self.wf(),
        ensures
            r == self.remaining().len(),
    {
        self.data.len() - self.pos
    }

    /// Read one byte, advancing the cursor.
    pub fn read_u8(&mut self) -> (r: Result<u8, FormatError>)
        requires
            old(self).wf(),
        ensures
            final(self).wf(),
            final(self).bytes() == old(self).bytes(),
            (match r {
                Ok(b) => old(self).remaining().len() > 0 && b == old(self).remaining()[0]
                    && final(self).pos() == old(self).pos() + 1,
                Err(e) => e == FormatError::UnexpectedEnd && old(self).remaining().len() == 0
                    && final(self).pos() == old(self).pos(),
            }),
    {
        if self.pos < self.data.len() {
            let b = self.data[self.pos];
            self.pos = self.pos + 1;
            Ok(b)
        } else {
            Err(FormatError::UnexpectedEnd)
        }
    }
}

/// Whether a variable-length integer beginning at the front of `b`
/// reaches its terminating byte (high bit clear) within `fuel` bytes.
pub open spec fn varint_terminated(b: Seq<u8>, fuel: int) -> bool
    decreases fuel,
{
    if fuel <= 0 || b.len() == 0 {
        false
    } else if b[0] < 128 {
        true
    } else {
        varint_terminated(b.skip(1), fuel - 1)
    }
}

/// The number of bytes the variable-length integer at the front of `b`
/// occupies (meaningful when it terminates).
pub open spec fn varint_size(b: Seq<u8>) -> int
    decreases b.len(),
{
    if b.len() == 0 {
        1
    } else if b[0] < 128 {
        1
    } else {
        1 + varint_size(b.skip(1))
    }
}

/// The unbounded value of the variable-length integer at the front of `b`:
/// each byte contributes its low 7 bits, least-significant group first.
pub open spec fn varint_nat(b: Seq<u8>) -> nat
    decreases b.len(),
{
    if b.len() == 0 {
        0
    } else if b[0] < 128 {
        b[0] as nat
    } else {
        ((b[0] - 128) + 128 * varint_nat(b.skip(1))) as nat
    }
}

/// The decoded 32-bit value: the unbounded value reduced to its low 32 bits,
/// read as a two's-complement signed integer.
pub open spec fn varint_value(b: Seq<u8>) -> i32 {
    i32_of_u32((varint_nat(b) % 0x1_0000_0000) as u32)
}

/// The encoding of an unsigned 32-bit value: emit the low 7 bits with the
/// continuation bit while more than 7 bits remain.
pub open spec fn varint_encode(v: u32) -> Seq<u8>
    decreases v,
{
    if v < 128 {
        seq![v as u8]
    } else {
        seq![(128 + v % 128) as u8] + varint_encode(v / 128)
    }
}

/// The encoding of a signed 32-bit value: its two's-complement pattern,
/// encoded unsigned.
pub open spec fn varint_encoding(v: i32) -> Seq<u8> {
    varint_encode(u32_of_i32(v))
}

pub open spec fn pow128(k: int) -> nat
    decreases k,
{
    if k <= 0 {
        1
    } else {
        (128 * pow128(k - 1)) as nat
    }
}

/// Encode a signed 32-bit value in the variable-length integer format.
pub fn write_varint_to_vec(value: i32) -> (r: Vec<u8>)
    ensures
        r@ == varint_encoding(value),
{
    let mut u: u32 = u32_from_i32(value);
    let ghost u_init = u;
    let mut buf: Vec<u8> = Vec::new();
    loop
        invariant_except_break
            buf@ + varint_encode(u) == varint_encode(u_init),
        ensures
            buf@ == varint_encode(u_init),
        decreases u,
    {
        let temp: u8 = (u % 128) as u8;
        let next: u32 = u / 128;
        let byte: u8 = if next != 0 {
            temp + 128
        } else {
            temp
        };
        buf.push(byte);
        proof {
            if next != 0 {
                assert(u >= 128) by (nonlinear_arith)
                    requires
                        next == u / 128,
                        next != 0,
                ;
                assert(varint_encode(u) == seq![byte] + varint_encode(next));
            } else {
                assert(u < 128) by (nonlinear_arith)
                    requires
                        next == u / 128,
                        next == 0,
                ;
                assert(varint_encode(u) =~= seq![byte]);
            }
        }
        u = next;
        if u == 0 {
            break;
        }
        proof {
            assert(buf@ + varint_encode(u) =~= varint_encode(u_init));
        }
    }
    buf
}

proof fn lemma_varint_size_pos(b: Seq<u8>)
    ensures
        varint_size(b) >= 1,
    decreases b.len(),
{
    if b.len() == 0 || b[0] < 128 {
    } else {
        lemma_varint_size_pos(b.skip(1));
    }
}

proof fn lemma_varint_unterminated(b: Seq<u8>, k: int)
    requires
        forall|j: int| 0 <= j < k && j < b.len() ==> b[j] >= 128,
    ensures
        !varint_terminated(b, k),
    decreases k,
{
    if k <= 0 || b.len() == 0 {
    } else {
        assert(b[0] >= 128);
        assert forall|j: int| 0 <= j < k - 1 && j < b.skip(1).len() implies b.skip(1)[j]
            >= 128 by {
            assert(b.skip(1)[j] == b[j + 1]);
        }
        lemma_varint_unterminated(b.skip(1), k - 1);
    }
}

proof fn lemma_varint_front(b: Seq<u8>, i: int)
    requires
        0 <= i < b.len(),
        forall|j: int| 0 <= j < i ==> b[j] >= 128,
        b[i] < 128,
    ensures
        varint_terminated(b, i + 1),
        varint_size(b) == i + 1,
    decreases i,
{
    if i == 0 {
    } else {
        assert(b[0] >= 128);
        assert forall|j: int| 0 <= j < i - 1 implies b.skip(1)[j] >= 128 by {
            assert(b.skip(1)[j] == b[j + 1]);
        }
        assert(b.skip(1)[i - 1] == b[i]);
        lemma_varint_front(b.skip(1), i - 1);
    }
}

proof fn lemma_varint_terminated_mono(b: Seq<u8>, k1: int, k2: int)
    requires
        varint_terminated(b, k1),
        k1 <= k2,
    ensures
        varint_terminated(b, k2),
    decreases k1,
{
    if b.len() == 0 {
    } else if b[0] < 128 {
    } else {
        lemma_varint_terminated_mono(b.skip(1), k1 - 1, k2 - 1);
    }
}

proof fn lemma_varint_encode_props(v: u32)
    ensures
        varint_encode(v).len() >= 1,
        varint_encode(v)[varint_encode(v).len() - 1] < 128,
        forall|j: int| 0 <= j < varint_encode(v).len() - 1 ==> varint_encode(v)[j] >= 128,
        varint_nat(varint_encode(v)) == v,
    decreases v,
{
    if v < 128 {
    } else {
        assert(v / 128 < v && v % 128 + 128 * (v / 128) == v) by (nonlinear_arith)
            requires
                v >= 128,
        ;
        lemma_varint_encode_props(v / 128);
        let e = varint_encode(v);
        let tail = varint_encode(v / 128);
        assert(e.skip(1) =~= tail);
        assert(varint_nat(e) == (e[0] - 128) + 128 * varint_nat(tail));
    }
}

proof fn lemma_varint_encode_len(v: u32, k: int)
    requires
        1 <= k,
        (v as nat) < pow128(k),
    ensures
        varint_encode(v).len() <= k,
    decreases k,
{
    if v < 128 {
    } else {
        assert(pow128(k) == 128 * pow128(k - 1));
        assert(v / 128 < pow128(k - 1)) by (nonlinear_arith)
            requires
                (v as nat) < 128 * pow128(k - 1),
        ;
        assert(k >= 2) by {
            if k == 1 {
                assert(pow128(1) == 128 * pow128(0));
            }
        }
        lemma_varint_encode_len(v / 128, k - 1);
    }
}

proof fn lemma_varint_prefix(e: Seq<u8>, rest: Seq<u8>)
    requires
        e.len() >= 1,
        e[e.len() - 1] < 128,
        forall|j: int| 0 <= j < e.len() - 1 ==> e[j] >= 128,
    ensures
        varint_terminated(e + rest, e.len() as int),
        varint_size(e + rest) == e.len(),
        varint_nat(e + rest) == varint_nat(e),
    decreases e.len(),
{
    let b = e + rest;
    assert(b[0] == e[0]);
    if e.len() == 1 {
        assert(e[0] < 128);
        assert(varint_nat(e) == e[0] as nat);
    } else {
        assert(e[0] >= 128);
        assert(b.skip(1) =~= e.skip(1) + rest);
        assert(e.skip(1)[e.skip(1).len() - 1] == e[e.len() - 1]);
        assert forall|j: int| 0 <= j < e.skip(1).len() - 1 implies e.skip(1)[j] >= 128 by {
            assert(e.skip(1)[j] == e[j + 1]);
        }
        lemma_varint_prefix(e.skip(1), rest);
        assert(varint_nat(e) == (e[0] - 128) + 128 * varint_nat(e.skip(1)));
        assert(varint_nat(b) == (b[0] - 128) + 128 * varint_nat(b.skip(1)));
    }
}

/// The encoding of any signed 32-bit value is one to five bytes, and decoding
/// it back — with any trailing bytes present — consumes exactly the encoding
/// and yields the value that was encoded.
pub proof fn lemma_varint_roundtrip(v: i32, rest: Seq<u8>)
    ensures
        1 <= varint_encoding(v).len() <= 5,
        varint_terminated(varint_encoding(v) + rest, 5),
        varint_size(varint_encoding(v) + rest) == varint_encoding(v).len(),
        varint_value(varint_encoding(v) + rest) == v,
{
    let u = u32_of_i32(v);
    let e = varint_encoding(v);
    lemma_varint_encode_props(u);
    reveal_with_fuel(pow128, 6);
    lemma_varint_encode_len(u, 5);
    lemma_varint_prefix(e, rest);
    lemma_varint_terminated_mono(e + rest, e.len() as int, 5);
    assert(varint_nat(e + rest) == u);
    assert((u as nat) % 0x1_0000_0000 == u as nat);
    lemma_u32_i32_inverse(v);
}

/// Decode a variable-length 32-bit integer from the cursor. Fails with
/// `UnexpectedEnd` if the buffer runs out first, and with `VarIntTooLong`
/// if no terminating byte appears within five bytes; on failure the cursor
/// is unchanged.
pub fn read_varint_from_cursor(cursor: &mut Cursor) -> (r: Result<i32, FormatError>)
    requires
        old(cursor).wf(),
    ensures
        final(cursor).wf(),
        final(cursor).bytes() == old(cursor).bytes(),
        (match r {
            Ok(v) => varint_terminated(old(cursor).remaining(), 5) && v == varint_value(
                old(cursor).remaining(),
            ) && final(cursor).pos() == old(cursor).pos() + varint_size(old(cursor).remaining()),
            Err(FormatError::UnexpectedEnd) => !varint_terminated(old(cursor).remaining(), 5)
                && old(cursor).remaining().len() < 5 && final(cursor).pos() == old(cursor).pos(),
            Err(FormatError::VarIntTooLong) => !varint_terminated(old(cursor).remaining(), 5)
                && old(cursor).remaining().len() >= 5 && final(cursor).pos() == old(cursor).pos(),
            Err(_) => false,
        }),
{
    let ghost rem = old(cursor).remaining();
    let mut acc: u64 = 0;
    let mut p: u64 = 1;
    let mut i: usize = 0;
    proof {
        assert(rem.skip(0) =~= rem);
    }
    loop
        invariant
            *cursor == *old(cursor),
            cursor.wf(),
            rem == cursor.remaining(),
            0 <= i <= 5,
            i <= rem.len(),
            p == (if i == 0 {
                1u64
            } else if i == 1 {
                0x80u64
            } else if i == 2 {
                0x4000u64
            } else if i == 3 {
                0x20_0000u64
            } else if i == 4 {
                0x1000_0000u64
            } else {
                0x8_0000_0000u64
            }),
            acc < p,
            forall|j: int| 0 <= j < i ==> rem[j] >= 128,
            acc + p * varint_nat(rem.skip(i as int)) == varint_nat(rem),
        decreases 5 - i,
    {
        if i == 5 {
            proof {
                lemma_varint_unterminated(rem, 5);
            }
            return Err(FormatError::VarIntTooLong);
        }
        if cursor.data.len() - cursor.pos <= i {
            proof {
                lemma_varint_unterminated(rem, 5);
            }
            return Err(FormatError::UnexpectedEnd);
        }
        let byte: u8 = cursor.data[cursor.pos + i];
        proof {
            assert(rem[i as int] == cursor.bytes()[cursor.pos() + i]);
        }
        if byte < 128 {
            proof {
                assert(rem.skip(i as int)[0] == rem[i as int]);
                assert(varint_nat(rem.skip(i as int)) == byte as nat);
                lemma_varint_front(rem, i as int);
                lemma_varint_terminated_mono(rem, i + 1, 5);
                assert(acc + p * (byte as nat) < p * 128) by (nonlinear_arith)
                    requires
                        acc < p,
                        byte < 128,
                        p >= 1,
                ;
                assert(p * 128 <= 0x20_0000_0000) by (nonlinear_arith)
                    requires
                        p <= 0x1000_0000,
                ;
            }
            let total: u64 = acc + p * (byte as u64);
            let low: u32 = (total % 0x1_0000_0000u64) as u32;
            let v = i32_from_u32(low);
            cursor.pos = cursor.pos + i + 1;
            return Ok(v);
        } else {
            let d: u64 = (byte - 128) as u64;
            proof {
                assert(acc + p * d < p * 128) by (nonlinear_arith)
                    requires
                        acc < p,
                        d < 128,
                        p >= 1,
                ;
                assert(p * 128 <= 0x8_0000_0000 * 128) by (nonlinear_arith)
                    requires
                        p <= 0x8_0000_0000,
                ;
                assert(rem.skip(i as int)[0] == rem[i as int]);
                assert(rem.skip(i as int).skip(1) =~= rem.skip(i + 1));
                assert(varint_nat(rem.skip(i as int)) == (rem[i as int] - 128) + 128 * varint_nat(
                    rem.skip(i + 1),
                ));
                assert((acc + p * d) + (p * 128) * varint_nat(rem.skip(i + 1)) == acc + p * (d + 128
                    * varint_nat(rem.skip(i + 1)))) by (nonlinear_arith);
            }
            acc = acc + p * d;
            p = p * 128;
            i = i + 1;
        }
    }
}

/// The value of a big-endian byte string (most significant byte first).
pub open spec fn be_nat(b: Seq<u8>) -> nat
    decreases b.len(),
{
    if b.len() == 0 {
        0
    } else {
        (256 * be_nat(b.drop_last()) + b.last()) as nat
    }
}

/// The `n`-byte big-endian representation of the low `n` bytes of `v`.
pub open spec fn be_bytes(v: nat, n: int) -> Seq<u8>
    decreases n,
{
    if n <= 0 {
        Seq::empty()
    } else {
        be_bytes(v / 256, n - 1) + seq![(v % 256) as u8]
    }
}

pub open spec fn pow256(k: int) -> nat
    decreases k,
{
    if k <= 0 {
        1
    } else {
        (256 * pow256(k - 1)) as nat
    }
}

pub proof fn lemma_be_bytes_len(v: nat, n: int)
    requires
        0 <= n,
    ensures
        be_bytes(v, n).len() == n,
    decreases n,
{
    if n > 0 {
        lemma_be_bytes_len(v / 256, n - 1);
    }
}

/// A value below `pow256(n)` comes back unchanged from its `n`-byte
/// big-endian representation.
pub proof fn lemma_be_roundtrip(v: nat, n: int)
    requires
        0 <= n,
        v < pow256(n),
    ensures
        be_bytes(v, n).len() == n,
        be_nat(be_bytes(v, n)) == v,
    decreases n,
{
    if n == 0 {
    } else {
        assert(v / 256 < pow256(n - 1) && v % 256 + 256 * (v / 256) == v) by (nonlinear_arith)
            requires
                v < 256 * pow256(n - 1),
        ;
        lemma_be_roundtrip(v / 256, n - 1);
        let b = be_bytes(v, n);
        assert(b.drop_last() =~= be_bytes(v / 256, n - 1));
        assert(b.last() == (v % 256) as u8);
    }
}

/// Append the `n`-byte big-endian representation of `v`.
fn be_push(out: &mut Vec<u8>, v: u64, n: usize)
    requires
        n <= 8,
    ensures
        final(out)@ == old(out)@ + be_bytes(v as nat, n as int),
    decreases n,
{
    if n == 0 {
        proof {
            assert(old(out)@ + be_bytes(v as nat, 0) =~= old(out)@);
        }
    } else {
        be_push(out, v / 256, n - 1);
        out.push((v % 256) as u8);
        proof {
            assert(final(out)@ =~= old(out)@ + be_bytes(v as nat, n as int));
        }
    }
}

pub fn push_u16_be(out: &mut Vec<u8>, v: u16)
    ensures
        final(out)@ == old(out)@ + be_bytes(v as nat, 2),
{
    be_push(out, v as u64, 2)
}

pub fn push_u32_be(out: &mut Vec<u8>, v: u32)
    ensures
        final(out)@ == old(out)@ + be_bytes(v as nat, 4),
{
    be_push(out, v as u64, 4)
}

pub fn push_u64_be(out: &mut Vec<u8>, v: u64)
    ensures
        final(out)@ == old(out)@ + be_bytes(v as nat, 8),
{
    be_push(out, v, 8)
}

pub fn push_i32_be(out: &mut Vec<u8>, v: i32)
    ensures
        final(out)@ == old(out)@ + be_bytes(u32_of_i32(v) as nat, 4),
{
    let u = u32_from_i32(v);
    be_push(out, u as u64, 4)
}

/// The unsigned 64-bit pattern of a signed 64-bit value (two's complement).
pub open spec fn u64_of_i64(v: i64) -> u64 {
    if v >= 0 {
        v as u64
    } else {
        (v + 0x1_0000_0000_0000_0000) as u64
    }
}

pub fn push_i64_be(out: &mut Vec<u8>, v: i64)
    ensures
        final(out)@ == old(out)@ + be_bytes(u64_of_i64(v) as nat, 8),
{
    let u: u64 = if v >= 0 {
        v as u64
    } else {
        ((v as i128) + 0x1_0000_0000_0000_0000i128) as u64
    };
    be_push(out, u, 8)
}

/// Read an `n`-byte big-endian unsigned integer from the cursor.
fn read_be(cursor: &mut Cursor, n: usize) -> (r: Result<u64, FormatError>)
    requires
        old(cursor).wf(),
        n <= 8,
    ensures
        final(cursor).wf(),
        final(cursor).bytes() == old(cursor).bytes(),
        (match r {
            Ok(x) => old(cursor).remaining().len() >= n && x == be_nat(
                old(cursor).remaining().take(n as int),
            ) && x < pow256(n as int) && final(cursor).pos() == old(cursor).pos() + n,
            Err(e) => e == FormatError::UnexpectedEnd && old(cursor).remaining().len() < n
                && final(cursor).pos() == old(cursor).pos(),
        }),
{
    let ghost rem = old(cursor).remaining();
    if cursor.data.len() - cursor.pos < n {
        return Err(FormatError::UnexpectedEnd);
    }
    let mut x: u64 = 0;
    let mut i: usize = 0;
    proof {
        assert(rem.take(0) =~= Seq::<u8>::empty());
    }
    while i < n
        invariant
            *cursor == *old(cursor),
            cursor.wf(),
            rem == cursor.remaining(),
            0 <= i <= n <= 8,
            n <= rem.len(),
            cursor.bytes().len() <= usize::MAX,
            x == be_nat(rem.take(i as int)),
            x < pow256(i as int),
        decreases n - i,
    {
        let byte: u8 = cursor.data[cursor.pos + i];
        proof {
            reveal_with_fuel(pow256, 9);
            assert(rem[i as int] == cursor.bytes()[cursor.pos() + i]);
            assert(rem.take(i + 1).drop_last() =~= rem.take(i as int));
            assert(rem.take(i + 1).last() == rem[i as int]);
            assert(256 * x + byte < pow256(i + 1)) by (nonlinear_arith)
                requires
                    x < pow256(i as int),
                    byte < 256,
                    pow256(i + 1) == 256 * pow256(i as int),
            ;
        }
        x = x * 256 + (byte as u64);
        i = i + 1;
    }
    cursor.pos = cursor.pos + n;
    Ok(x)
}

impl Cursor {
    /// Read a big-endian unsigned 16-bit integer.
    pub fn read_u16_be(&mut self) -> (r: Result<u16, FormatError>)
        requires
            old(self).wf(),
        ensures
            final(self).wf(),
            final(self).bytes() == old(self).bytes(),
            (match r {
                Ok(x) => old(self).remaining().len() >= 2 && x == be_nat(
                    old(self).remaining().take(2),
                ) && final(self).pos() == old(self).pos() + 2,
                Err(e) => e == FormatError::UnexpectedEnd && old(self).remaining().len() < 2
                    && final(self).pos() == old(self).pos(),
            }),
    {
        proof {
            reveal_with_fuel(pow256, 3);
        }
        match read_be(self, 2) {
            Ok(x) => Ok(x as u16),
            Err(e) => Err(e),
        }
    }

    /// Read a big-endian unsigned 32-bit integer (also the bit pattern of a
    /// big-endian 32-bit float).
    pub fn read_u32_be(&mut self) -> (r: Result<u32, FormatError>)
        requires
            old(self).wf(),
        ensures
            final(self).wf(),
            final(self).bytes() == old(self).bytes(),
            (match r {
                Ok(x) => old(self).remaining().len() >= 4 && x == be_nat(
                    old(self).remaining().take(4),
                ) && final(self).pos() == old(self).pos() + 4,
                Err(e) => e == FormatError::UnexpectedEnd && old(self).remaining().len() < 4
                    && final(self).pos() == old(self).pos(),
            }),
    {
        proof {
            reveal_with_fuel(pow256, 5);
        }
        match read_be(self, 4) {
            Ok(x) => Ok(x as u32),
            Err(e) => Err(e),
        }
    }

    /// Read a big-endian unsigned 64-bit integer (also the bit pattern of a
    /// big-endian 64-bit float).
    pub fn read_u64_be(&mut self) -> (r: Result<u64, FormatError>)
        requires
            old(self).wf(),
        ensures
            final(self).wf(),
            final(self).bytes() == old(self).bytes(),
            (match r {
                Ok(x) => old(self).remaining().len() >= 8 && x == be_nat(
                    old(self).remaining().take(8),
                ) && final(self).pos() == old(self).pos() + 8,
                Err(e) => e == FormatError::UnexpectedEnd && old(self).remaining().len() < 8
                    && final(self).pos() == old(self).pos(),
            }),
    {
        read_be(self, 8)
    }
}

/// Relies on String::from_utf8: it succeeds exactly on input that is valid
/// UTF-8 and returns the string those bytes encode.
#[verifier::external_body]
fn string_from_bytes(v: Vec<u8>) -> (r: Option<String>)
    ensures
        r is Some <==> valid_utf8(v@),
        r is Some ==> r.unwrap()@ == decode_utf8(v@),
{
    match String::from_utf8(v) {
        Ok(s) => Some(s),
        Err(_) => None,
    }
}

/// The wire form of a string: its UTF-8 byte length as a variable-length
/// integer, then its UTF-8 bytes.
pub open spec fn string_encoding(s: Seq<char>) -> Seq<u8> {
    varint_encode(encode_utf8(s).len() as u32) + encode_utf8(s)
}

/// What parsing a length-prefixed string at the front of `b` yields: the
/// characters and the number of bytes consumed, or how it fails.
pub open spec fn string_parse(b: Seq<u8>) -> Result<(Seq<char>, int), FormatError> {
    if !varint_terminated(b, 5) {
        if b.len() >= 5 {
            Err(FormatError::VarIntTooLong)
        } else {
            Err(FormatError::UnexpectedEnd)
        }
    } else {
        let n = varint_value(b) as int;
        let sz = varint_size(b);
        if n < 0 || sz + n > b.len() {
            Err(FormatError::UnexpectedEnd)
        } else if !valid_utf8(b.subrange(sz, sz + n)) {
            Err(FormatError::InvalidUtf8)
        } else {
            Ok((decode_utf8(b.subrange(sz, sz + n)), sz + n))
        }
    }
}

/// Take exactly `n` bytes from the cursor.
fn read_exact(cursor: &mut Cursor, n: usize) -> (r: Result<Vec<u8>, FormatError>)
    requires
        old(cursor).wf(),
    ensures
        final(cursor).wf(),
        final(cursor).bytes() == old(cursor).bytes(),
        (match r {
            Ok(v) => old(cursor).remaining().len() >= n && v@ == old(cursor).remaining().take(
                n as int,
            ) && final(cursor).pos() == old(cursor).pos() + n,
            Err(e) => e == FormatError::UnexpectedEnd && old(cursor).remaining().len() < n
                && final(cursor).pos() == old(cursor).pos(),
        }),
{
    let ghost rem = old(cursor).remaining();
    if cursor.data.len() - cursor.pos < n {
        return Err(FormatError::UnexpectedEnd);
    }
    let mut out: Vec<u8> = Vec::new();
    let mut i: usize = 0;
    while i < n
        invariant
            *cursor == *old(cursor),
            cursor.wf(),
            rem == cursor.remaining(),
            0 <= i <= n,
            n <= rem.len(),
            cursor.bytes().len() <= usize::MAX,
            out@ == rem.take(i as int),
        decreases n - i,
    {
        let byte: u8 = cursor.data[cursor.pos + i];
        proof {
            assert(rem[i as int] == cursor.bytes()[cursor.pos() + i]);
            assert(rem.take(i as int).push(rem[i as int]) =~= rem.take(i + 1));
        }
        out.push(byte);
        i = i + 1;
    }
    cursor.pos = cursor.pos + n;
    Ok(out)
}

/// Decode a length-prefixed UTF-8 string from the cursor; on failure the
/// cursor is unchanged.
pub fn read_string_from_cursor(cursor: &mut Cursor) -> (r: Result<String, FormatError>)
    requires
        old(cursor).wf(),
    ensures
        final(cursor).wf(),
        final(cursor).bytes() == old(cursor).bytes(),
        (match (r, string_parse(old(cursor).remaining())) {
            (Ok(s), Ok(t)) => s@ == t.0 && final(cursor).pos() == old(cursor).pos() + t.1,
            (Err(e), Err(e2)) => e == e2 && final(cursor).pos() == old(cursor).pos(),
            _ => false,
        }),
{
    let ghost rem = old(cursor).remaining();
    let start = cursor.pos;
    let nv = match read_varint_from_cursor(cursor) {
        Ok(v) => v,
        Err(e) => {
            return Err(e);
        },
    };
    if nv < 0 {
        cursor.pos = start;
        return Err(FormatError::UnexpectedEnd);
    }
    let n = nv as usize;
    proof {
        lemma_varint_size_pos(rem);
        assert(cursor.remaining() =~= rem.skip(varint_size(rem)));
    }
    let payload = match read_exact(cursor, n) {
        Ok(v) => v,
        Err(_) => {
            cursor.pos = start;
            return Err(FormatError::UnexpectedEnd);
        },
    };
    proof {
        assert(rem.skip(varint_size(rem)).take(n as int) =~= rem.subrange(
            varint_size(rem),
            varint_size(rem) + n,
        ));
    }
    match string_from_bytes(payload) {
        Some(s) => Ok(s),
        None => {
            cursor.pos = start;
            Err(FormatError::InvalidUtf8)
        },
    }
}

/// Encode a string in wire form. The UTF-8 byte length must fit the
/// signed 32-bit length prefix.
pub fn write_string_to_vec(s: &str) -> (r: Vec<u8>)
    requires
        encode_utf8(s@).len() <= 0x7fff_ffff,
    ensures
        r@ == string_encoding(s@),
{
    let bytes = s.as_bytes();
    let n = bytes.len();
    let mut out = write_varint_to_vec(n as i32);
    proof {
        assert(u32_of_i32(n as i32) == encode_utf8(s@).len() as u32);
    }
    out.extend_from_slice(bytes);
    out
}

/// As `write_string_to_vec`, but refusing a string whose UTF-8 form cannot
/// carry a signed 32-bit length prefix.
pub fn write_string_opt(s: &str) -> (r: Option<Vec<u8>>)
    ensures
        r is Some <==> encode_utf8(s@).len() <= 0x7fff_ffff,
        r is Some ==> r.unwrap()@ == string_encoding(s@),
{
    let bytes = s.as_bytes();
    if bytes.len() <= 0x7fff_ffff {
        Some(write_string_to_vec(s))
    } else {
        None
    }
}

/// Round trip: a string's wire form parses back to the same characters —
/// whatever bytes follow it — consuming exactly the wire form.
pub proof fn lemma_string_roundtrip(s: Seq<char>, rest: Seq<u8>)
    requires
        encode_utf8(s).len() <= 0x7fff_ffff,
    ensures
        string_parse(string_encoding(s) + rest) is Ok,
        (match string_parse(string_encoding(s) + rest) {
            Ok(t) => t.0 == s && t.1 == string_encoding(s).len(),
            Err(_) => false,
        }),
{
    let u = encode_utf8(s);
    let b = string_encoding(s) + rest;
    let nv: i32 = u.len() as i32;
    assert(u32_of_i32(nv) == u.len() as u32);
    lemma_varint_roundtrip(nv, u + rest);
    assert(varint_encoding(nv) + (u + rest) =~= b);
    let sz = varint_size(b);
    assert(sz == varint_encoding(nv).len());
    assert(b.subrange(sz, sz + u.len()) =~= u);
    encode_utf8_valid_utf8(s);
    encode_utf8_decode_utf8(s);
}

} // verus!
