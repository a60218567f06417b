use crate::error::RwError;
use crate::varint::{
    lemma_varint_len_within, lemma_varint_roundtrip, read_varint, varint_bytes, varint_read, varint_readable, write_varint,
    VarInt,
};
use vstd::prelude::*;

verus! {

/// What reading a value from the front of some bytes gives: the value and
/// how many bytes it took, an error, or an input on which the reader aborts
/// instead of returning.
pub enum Decoded<V> {
    Value(V, nat),
    Failed(RwError),
    Aborts,
}

/// An exec read result agrees with what the spec says reading at `pos` gives.
pub open spec fn read_agrees<T: View>(
    res: Result<(T, usize), RwError>,
    pos: usize,
    d: Decoded<T::V>,
) -> bool {
    match d {
        Decoded::Value(v, n) => res matches Ok((r, p)) && r@ == v && p == pos + n,
        Decoded::Failed(e) => res == Err::<(T, usize), RwError>(e),
        Decoded::Aborts => false,
    }
}

/// `n` bytes of `v`, least significant first.
pub open spec fn le_bytes(v: nat, n: nat) -> Seq<u8>
    decreases n,
{
    if n == 0 {
        Seq::empty()
    } else {
        seq![(v % 256) as u8] + le_bytes(v / 256, (n - 1) as nat)
    }
}

/// The number whose big-endian bytes are `s`.
pub open spec fn be_value(s: Seq<u8>) -> nat
    decreases s.len(),
{
    if s.len() == 0 {
        0
    } else {
        be_value(s.drop_last()) * 256 + s.last() as nat
    }
}

/// Reading `n` big-endian bytes at the front of `s`.
pub open spec fn read_be(s: Seq<u8>, n: nat) -> Decoded<nat> {
    if s.len() < n {
        Decoded::Failed(RwError::UnexpectedEof)
    } else {
        Decoded::Value(be_value(s.take(n as int)), n)
    }
}

/// Reading a VarInt, as a `Decoded`.
pub open spec fn read_varint_spec(s: Seq<u8>) -> Decoded<i32> {
    if !varint_readable(s) {
        Decoded::Aborts
    } else {
        match varint_read(s) {
            Ok((v, n)) => Decoded::Value(v, n),
            Err(e) => Decoded::Failed(e),
        }
    }
}

/// The bytes of a byte string on the wire: its length as a VarInt, then
/// the bytes.
pub open spec fn byte_array_bytes(b: Seq<u8>) -> Seq<u8> {
    varint_bytes(b.len()) + b
}

/// Reading a length-prefixed byte string. A negative length makes the
/// reader abort (it asks for an impossible capacity).
pub open spec fn read_byte_array_spec(s: Seq<u8>) -> Decoded<Seq<u8>> {
    match read_varint_spec(s) {
        Decoded::Value(len, n) => if len < 0 {
            Decoded::Aborts
        } else if s.len() - n < len {
            Decoded::Failed(RwError::UnexpectedEof)
        } else {
            Decoded::Value(s.subrange(n as int, n + len), n + len as nat)
        },
        Decoded::Failed(e) => Decoded::Failed(e),
        Decoded::Aborts => Decoded::Aborts,
    }
}

/// The bytes of a string on the wire: its UTF-8 encoding as a byte string.
pub open spec fn string_bytes(s: Seq<char>) -> Seq<u8> {
    byte_array_bytes(vstd::utf8::encode_utf8(s))
}

/// Reading a string: a byte string that must be valid UTF-8.
pub open spec fn read_string_spec(s: Seq<u8>) -> Decoded<Seq<char>> {
    match read_byte_array_spec(s) {
        Decoded::Value(b, n) => if vstd::utf8::valid_utf8(b) {
            Decoded::Value(vstd::utf8::decode_utf8(b), n)
        } else {
            Decoded::Failed(RwError::Utf8)
        },
        Decoded::Failed(e) => Decoded::Failed(e),
        Decoded::Aborts => Decoded::Aborts,
    }
}

/// Appends the `n` low bytes of `v`, least significant first, as every
/// fixed-size integer is written.
pub fn write_uint(v: u64, n: usize, out: &mut Vec<u8>)
    requires
        n <= 8,
    ensures
        final(out)@ == old(out)@ + le_bytes(v as nat, n as nat),
{
    let mut rest = v;
    let mut i: usize = 0;
    while i < n
        invariant
            i <= n,
            old(out)@ + le_bytes(v as nat, n as nat) == out@ + le_bytes(rest as nat, (n - i) as nat),
        decreases n - i,
    {
        let ghost before = out@;
        let ghost r = rest;
        out.push((rest % 256) as u8);
        rest = rest / 256;
        i = i + 1;
        assert(le_bytes(r as nat, (n - i + 1) as nat) =~= seq![(r % 256) as u8] + le_bytes(
            rest as nat,
            (n - i) as nat,
        ));
        assert(before + le_bytes(r as nat, (n - i + 1) as nat) =~= out@ + le_bytes(
            rest as nat,
            (n - i) as nat,
        ));
    }
    assert(le_bytes(rest as nat, 0) =~= Seq::<u8>::empty());
    assert(out@ + le_bytes(rest as nat, 0) =~= out@);
}

proof fn lemma_be_value_take_succ(s: Seq<u8>, i: int)
    requires
        0 <= i < s.len(),
    ensures
        be_value(s.take(i + 1)) == be_value(s.take(i)) * 256 + s[i] as nat,
{
    assert(s.take(i + 1).drop_last() =~= s.take(i));
}

/// 256 raised to the power `n`.
pub open spec fn pow256(n: nat) -> nat
    decreases n,
{
    if n == 0 {
        1
    } else {
        256 * pow256((n - 1) as nat)
    }
}

proof fn lemma_be_value_below(s: Seq<u8>)
    ensures
        be_value(s) < pow256(s.len()),
    decreases s.len(),
{
    if s.len() > 0 {
        let t = s.drop_last();
        lemma_be_value_below(t);
        let a = be_value(t);
        let p = pow256(t.len());
        let b = s.last() as nat;
        assert(a * 256 + b < 256 * p) by (nonlinear_arith)
            requires
                a < p,
                b < 256,
        ;
    }
}

proof fn lemma_be_value_bound(s: Seq<u8>)
    ensures
        s.len() <= 8 ==> be_value(s) < 0x1_0000_0000_0000_0000,
        s.len() <= 4 ==> be_value(s) < 0x1_0000_0000,
        s.len() <= 2 ==> be_value(s) < 0x1_0000,
        s.len() <= 1 ==> be_value(s) < 0x100,
{
    lemma_be_value_below(s);
    reveal_with_fuel(pow256, 9);
    lemma_pow256_mono(s.len(), 8);
    lemma_pow256_mono(s.len(), 4);
    lemma_pow256_mono(s.len(), 2);
    lemma_pow256_mono(s.len(), 1);
}

proof fn lemma_pow256_mono(a: nat, b: nat)
    ensures
        a <= b ==> pow256(a) <= pow256(b),
    decreases b,
{
    if a < b {
        lemma_pow256_mono(a, (b - 1) as nat);
    }
}

/// Reads `n` bytes at `pos` as a big-endian number, as every fixed-size
/// integer is read.
pub fn read_uint(buf: &[u8], pos: usize, n: usize) -> (res: Result<(u64, usize), RwError>)
    requires
        pos <= buf@.len(),
        n <= 8,
    ensures
        match read_be(buf@.skip(pos as int), n as nat) {
            Decoded::Value(v, k) => res matches Ok((r, p)) && r == v && p == pos + k,
            Decoded::Failed(e) => res == Err::<(u64, usize), RwError>(e),
            Decoded::Aborts => false,
        },
{
    let ghost s = buf@.skip(pos as int);
    if buf.len() - pos < n {
        return Err(RwError::UnexpectedEof);
    }
    let mut acc: u64 = 0;
    let mut i: usize = 0;
    proof {
        assert(s.take(0) =~= Seq::<u8>::empty());
    }
    while i < n
        invariant
            i <= n,
            n <= 8,
            pos + n <= buf.len(),
            buf.len() == buf@.len(),
            s == buf@.skip(pos as int),
            acc == be_value(s.take(i as int)),
        decreases n - i,
    {
        proof {
            lemma_be_value_take_succ(s, i as int);
            lemma_be_value_bound(s.take(i as int + 1));
        }
        acc = acc * 256 + buf[pos + i] as u64;
        i = i + 1;
    }
    Ok((acc, pos + n))
}

pub fn write_u8(v: u8, out: &mut Vec<u8>)
    ensures
        final(out)@ == old(out)@ + le_bytes(v as nat, 1),
{
    write_uint(v as u64, 1, out);
}

pub fn write_u16(v: u16, out: &mut Vec<u8>)
    ensures
        final(out)@ == old(out)@ + le_bytes(v as nat, 2),
{
    write_uint(v as u64, 2, out);
}

pub fn write_i32(v: i32, out: &mut Vec<u8>)
    ensures
        final(out)@ == old(out)@ + le_bytes((v as u32) as nat, 4),
{
    write_uint((v as u32) as u64, 4, out);
}

pub fn write_i64(v: i64, out: &mut Vec<u8>)
    ensures
        final(out)@ == old(out)@ + le_bytes((v as u64) as nat, 8),
{
    write_uint(v as u64, 8, out);
}

pub fn write_u64(v: u64, out: &mut Vec<u8>)
    ensures
        final(out)@ == old(out)@ + le_bytes(v as nat, 8),
{
    write_uint(v, 8, out);
}

/// Writes a boolean as one byte, 1 or 0.
pub fn write_bool(v: bool, out: &mut Vec<u8>)
    ensures
        final(out)@ == old(out)@ + seq![if v { 1u8 } else { 0u8 }],
{
    write_uint(if v { 1 } else { 0 }, 1, out);
    assert(le_bytes(0, 0) =~= Seq::<u8>::empty());
}

pub fn read_u8(buf: &[u8], pos: usize) -> (res: Result<(u8, usize), RwError>)
    requires
        pos <= buf@.len(),
    ensures
        match read_be(buf@.skip(pos as int), 1) {
            Decoded::Value(v, k) => res matches Ok((r, p)) && r == v && p == pos + k,
            Decoded::Failed(e) => res == Err::<(u8, usize), RwError>(e),
            Decoded::Aborts => false,
        },
{
    let (v, p) = read_uint(buf, pos, 1)?;
    proof {
        lemma_be_value_bound(buf@.skip(pos as int).take(1));
    }
    Ok((v as u8, p))
}

pub fn read_u16(buf: &[u8], pos: usize) -> (res: Result<(u16, usize), RwError>)
    requires
        pos <= buf@.len(),
    ensures
        match read_be(buf@.skip(pos as int), 2) {
            Decoded::Value(v, k) => res matches Ok((r, p)) && r == v && p == pos + k,
            Decoded::Failed(e) => res == Err::<(u16, usize), RwError>(e),
            Decoded::Aborts => false,
        },
{
    let (v, p) = read_uint(buf, pos, 2)?;
    proof {
        lemma_be_value_bound(buf@.skip(pos as int).take(2));
    }
    Ok((v as u16, p))
}

pub fn read_i64(buf: &[u8], pos: usize) -> (res: Result<(i64, usize), RwError>)
    requires
        pos <= buf@.len(),
    ensures
        match read_be(buf@.skip(pos as int), 8) {
            Decoded::Value(v, k) => res matches Ok((r, p)) && r == (v as u64) as i64 && p == pos
                + k,
            Decoded::Failed(e) => res == Err::<(i64, usize), RwError>(e),
            Decoded::Aborts => false,
        },
{
    let (v, p) = read_uint(buf, pos, 8)?;
    Ok((v as i64, p))
}

pub fn read_u64(buf: &[u8], pos: usize) -> (res: Result<(u64, usize), RwError>)
    requires
        pos <= buf@.len(),
    ensures
        match read_be(buf@.skip(pos as int), 8) {
            Decoded::Value(v, k) => res matches Ok((r, p)) && r == v && p == pos + k,
            Decoded::Failed(e) => res == Err::<(u64, usize), RwError>(e),
            Decoded::Aborts => false,
        },
{
    read_uint(buf, pos, 8)
}

/// Reads a boolean: any byte but zero is true.
pub fn read_bool(buf: &[u8], pos: usize) -> (res: Result<(bool, usize), RwError>)
    requires
        pos <= buf@.len(),
    ensures
        match read_be(buf@.skip(pos as int), 1) {
            Decoded::Value(v, k) => res matches Ok((r, p)) && r == (v != 0) && p == pos + k,
            Decoded::Failed(e) => res == Err::<(bool, usize), RwError>(e),
            Decoded::Aborts => false,
        },
{
    let (byte, p) = read_u8(buf, pos)?;
    Ok((byte != 0, p))
}

/// Writes a byte string: its length as a VarInt, then the bytes.
pub fn write_byte_array(bytes: &[u8], out: &mut Vec<u8>)
    requires
        bytes@.len() <= i32::MAX,
    ensures
        final(out)@ == old(out)@ + byte_array_bytes(bytes@),
{
    write_varint(VarInt::new(bytes.len() as i32), out);
    let ghost mid = out@;
    let mut i: usize = 0;
    while i < bytes.len()
        invariant
            i <= bytes@.len(),
            out@ == mid + bytes@.take(i as int),
        decreases bytes@.len() - i,
    {
        out.push(bytes[i]);
        i = i + 1;
        assert(out@ =~= mid + bytes@.take(i as int));
    }
    assert(bytes@.take(bytes@.len() as int) =~= bytes@);
}

/// Reads a length-prefixed byte string.
pub fn read_byte_array(buf: &[u8], pos: usize) -> (res: Result<(Vec<u8>, usize), RwError>)
    requires
        pos <= buf@.len(),
        !(read_byte_array_spec(buf@.skip(pos as int)) is Aborts),
    ensures
        read_agrees(res, pos, read_byte_array_spec(buf@.skip(pos as int))),
{
    let ghost s = buf@.skip(pos as int);
    let (len, p) = read_varint(buf, pos)?;
    let len = len.value();
    let len = len as usize;
    if buf.len() - p < len {
        return Err(RwError::UnexpectedEof);
    }
    let mut v: Vec<u8> = Vec::new();
    let mut i: usize = 0;
    while i < len
        invariant
            i <= len,
            p + len <= buf.len(),
            buf.len() == buf@.len(),
            v@ == buf@.subrange(p as int, p + i),
        decreases len - i,
    {
        v.push(buf[p + i]);
        i = i + 1;
        assert(v@ =~= buf@.subrange(p as int, p + i));
    }
    assert(buf@.subrange(p as int, p + len) =~= s.subrange(p - pos, p - pos + len));
    Ok((v, p + len))
}

/// Writes a string: its UTF-8 bytes as a byte string.
pub fn write_string(s: &str, out: &mut Vec<u8>)
    requires
        vstd::utf8::encode_utf8(s@).len() <= i32::MAX,
    ensures
        final(out)@ == old(out)@ + string_bytes(s@),
{
    let bytes = s.as_bytes();
    write_byte_array(bytes, out);
}

/// Calls `String::from_utf8`. Its documentation promises an error exactly
/// when the bytes are not valid UTF-8, and otherwise the string made of
/// those bytes; the contract claims that, through vstd's UTF-8 decoding.
#[verifier::external_body]
fn string_from_utf8(bytes: Vec<u8>) -> (res: Option<String>)
    ensures
        res is Some <==> vstd::utf8::valid_utf8(bytes@),
        res matches Some(s) ==> s@ == vstd::utf8::decode_utf8(bytes@),
{
    String::from_utf8(bytes).ok()
}

/// Reads a string.
pub fn read_string(buf: &[u8], pos: usize) -> (res: Result<(String, usize), RwError>)
    requires
        pos <= buf@.len(),
        !(read_string_spec(buf@.skip(pos as int)) is Aborts),
    ensures
        read_agrees(res, pos, read_string_spec(buf@.skip(pos as int))),
{
    let (bytes, p) = read_byte_array(buf, pos)?;
    match string_from_utf8(bytes) {
        Some(s) => Ok((s, p)),
        None => Err(RwError::Utf8),
    }
}

/// Law: a written string reads back as the same string, taking exactly the
/// bytes written.
pub proof fn lemma_string_roundtrip(s: Seq<char>, rest: Seq<u8>)
    requires
        vstd::utf8::encode_utf8(s).len() <= i32::MAX,
    ensures
        read_string_spec(string_bytes(s) + rest) == Decoded::Value(s, string_bytes(s).len()),
{
    let b = vstd::utf8::encode_utf8(s);
    let lenb = varint_bytes(b.len());
    lemma_varint_roundtrip(b.len() as i32, b + rest);
    assert(string_bytes(s) + rest =~= lenb + (b + rest));
    let all = string_bytes(s) + rest;
    assert(all.subrange(lenb.len() as int, (lenb.len() + b.len()) as int) =~= b);
    vstd::utf8::encode_utf8_valid_utf8(s);
    vstd::utf8::encode_utf8_decode_utf8(s);
}

/// Law: a written boolean reads back as itself.
pub proof fn lemma_bool_roundtrip(v: bool, rest: Seq<u8>)
    ensures
        read_be(seq![if v { 1u8 } else { 0u8 }] + rest, 1) matches Decoded::Value(x, k) && k == 1
            && (x != 0) == v,
{
    let s = seq![if v { 1u8 } else { 0u8 }] + rest;
    assert(s.take(1).drop_last() =~= Seq::<u8>::empty());
    assert(be_value(Seq::<u8>::empty()) == 0);
    assert(be_value(s.take(1)) == s[0] as nat);
}

/// Law: a written byte reads back as itself.
pub proof fn lemma_u8_roundtrip(v: u8, rest: Seq<u8>)
    ensures
        read_be(le_bytes(v as nat, 1) + rest, 1) == Decoded::Value(v as nat, 1),
{
    let s = le_bytes(v as nat, 1) + rest;
    assert(le_bytes(v as nat / 256, 0) =~= Seq::<u8>::empty());
    assert(le_bytes(v as nat, 1) =~= seq![v]);
    assert(s.take(1).drop_last() =~= Seq::<u8>::empty());
    assert(be_value(Seq::<u8>::empty()) == 0);
    assert(be_value(s.take(1)) == s[0] as nat);
}

/// Law: a fixed-size integer is written least significant byte first and
/// read most significant byte first, so reading back what was written gives
/// the number whose big-endian bytes are the little-endian bytes of the
/// value.
pub proof fn lemma_uint_read_back(v: nat, n: nat, rest: Seq<u8>)
    ensures
        read_be(le_bytes(v, n) + rest, n) == Decoded::Value(be_value(le_bytes(v, n)), n),
{
    lemma_le_bytes_len(v, n);
    assert((le_bytes(v, n) + rest).take(n as int) =~= le_bytes(v, n));
}

pub proof fn lemma_le_bytes_len(v: nat, n: nat)
    ensures
        le_bytes(v, n).len() == n,
    decreases n,
{
    if n > 0 {
        lemma_le_bytes_len(v / 256, (n - 1) as nat);
    }
}

/// Reading a string never takes more bytes than there are.
pub proof fn lemma_read_string_len(s: Seq<u8>)
    ensures
        read_string_spec(s) matches Decoded::Value(_, n) ==> n <= s.len(),
{
    lemma_varint_len_within(s, 5);
}

/// Powers of 256 up to the 16th fit 128 bits.
pub proof fn lemma_pow256_16(i: nat)
    requires
        i < 16,
    ensures
        pow256(i + 1) == 256 * pow256(i),
        pow256(i + 1) <= 0x1_0000_0000_0000_0000_0000_0000_0000_0000,
{
    reveal_with_fuel(pow256, 17);
    lemma_pow256_mono(i + 1, 16);
}

} // verus!
