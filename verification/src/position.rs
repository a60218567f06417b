use crate::error::RwError;
use crate::wire::{le_bytes, read_be, read_u64, write_u64, Decoded};
use vstd::prelude::*;

verus! {

/// A block position: 26-bit x and z, 12-bit y on the wire.
#[derive(Debug, Clone, Copy, PartialEq, Eq, Structural)]
pub struct Position {
    pub x: i32,
    pub y: i16,
    pub z: i32,
}

/// The 64-bit packing of a position: x in the top 26 bits, z in the next 26,
/// y in the low 12, each in two's complement cut to its width.
pub open spec fn pack_position(p: Position) -> u64 {
    (((p.x as u64) & 0x3FF_FFFF) << 38u64) | (((p.z as u64) & 0x3FF_FFFF) << 12u64) | ((p.y as u64)
        & 0xFFF)
}

/// A 26-bit two's complement field as a number.
pub open spec fn signed_26(f: u64) -> i32 {
    if f < 0x200_0000 {
        f as i32
    } else {
        (f - 0x400_0000) as i32
    }
}

/// A 12-bit two's complement field as a number.
pub open spec fn signed_12(f: u64) -> i16 {
    if f < 0x800 {
        f as i16
    } else {
        (f - 0x1000) as i16
    }
}

/// The position that a packed 64-bit value holds.
pub open spec fn unpack_position(v: u64) -> Position {
    Position {
        x: signed_26((v >> 38u64) & 0x3FF_FFFF),
        y: signed_12(v & 0xFFF),
        z: signed_26((v >> 12u64) & 0x3FF_FFFF),
    }
}

/// The position fits the packed format.
pub open spec fn position_in_range(p: Position) -> bool {
    &&& -0x200_0000 <= p.x < 0x200_0000
    &&& -0x800 <= p.y < 0x800
    &&& -0x200_0000 <= p.z < 0x200_0000
}

impl Position {
    pub fn new(x: i32, y: i16, z: i32) -> (r: Self)
        ensures
            r == (Position { x, y, z }),
    {
        Self { x, y, z }
    }

    /// Packs the position into 64 bits.
    pub fn pack(&self) -> (r: u64)
        ensures
            r == pack_position(*self),
    {
        let x = (self.x as i64 & 0x03FF_FFFF) as u64;
        let z = (self.z as i64 & 0x03FF_FFFF) as u64;
        let y = (self.y as i32 & 0x0FFF) as u64;
        let sx = self.x;
        let sy = self.y;
        let sz = self.z;
        assert(x == ((sx as u64) & 0x3FF_FFFF)) by (bit_vector)
            requires
                x == (sx as i64 & 0x03FF_FFFF) as u64,
        ;
        assert(z == ((sz as u64) & 0x3FF_FFFF)) by (bit_vector)
            requires
                z == (sz as i64 & 0x03FF_FFFF) as u64,
        ;
        assert(y == ((sy as u64) & 0xFFF)) by (bit_vector)
            requires
                y == (sy as i32 & 0x0FFF) as u64,
        ;
        (x << 38) | (z << 12) | y
    }

    /// The position that a packed 64-bit value holds.
    pub fn unpack(val: u64) -> (r: Self)
        ensures
            r == unpack_position(val),
    {
        let fx = (val >> 38) & 0x3FF_FFFF;
        let fz = (val >> 12) & 0x3FF_FFFF;
        let fy = val & 0xFFF;
        assert(fx <= 0x3FF_FFFF && fz <= 0x3FF_FFFF && fy <= 0xFFF) by (bit_vector)
            requires
                fx == (val >> 38) & 0x3FF_FFFF,
                fz == (val >> 12) & 0x3FF_FFFF,
                fy == val & 0xFFF,
        ;
        let x = if fx < 0x200_0000 {
            fx as i32
        } else {
            (fx as i64 - 0x400_0000) as i32
        };
        let z = if fz < 0x200_0000 {
            fz as i32
        } else {
            (fz as i64 - 0x400_0000) as i32
        };
        let y = if fy < 0x800 {
            fy as i16
        } else {
            (fy as i32 - 0x1000) as i16
        };
        Position::new(x, y, z)
    }

    /// Writes the packed position as eight bytes, least significant first.
    pub fn write_into(&self, out: &mut Vec<u8>)
        ensures
            final(out)@ == old(out)@ + le_bytes(pack_position(*self) as nat, 8),
    {
        write_u64(self.pack(), out);
    }

    /// Reads eight bytes, most significant first, and unpacks them.
    pub fn read_from(buf: &[u8], pos: usize) -> (res: Result<(Position, usize), RwError>)
        requires
            pos <= buf@.len(),
        ensures
            match read_be(buf@.skip(pos as int), 8) {
                Decoded::Value(v, k) => res matches Ok((r, p)) && r == unpack_position(v as u64)
                    && p == pos + k,
                Decoded::Failed(e) => res == Err::<(Position, usize), RwError>(e),
                Decoded::Aborts => false,
            },
    {
        let (val, p) = read_u64(buf, pos)?;
        Ok((Position::unpack(val), p))
    }
}

/// Law: unpacking a packed position gives it back when it fits the format.
pub proof fn lemma_position_pack_roundtrip(p: Position)
    requires
        position_in_range(p),
    ensures
        unpack_position(pack_position(p)) == p,
{
    let x = p.x;
    let y = p.y;
    let z = p.z;
    let v = pack_position(p);
    assert((v >> 38u64) & 0x3FF_FFFF == (x as u64) & 0x3FF_FFFF) by (bit_vector)
        requires
            v == (((x as u64) & 0x3FF_FFFF) << 38u64) | (((z as u64) & 0x3FF_FFFF) << 12u64) | ((
                y as u64) & 0xFFF),
    ;
    assert((v >> 12u64) & 0x3FF_FFFF == (z as u64) & 0x3FF_FFFF) by (bit_vector)
        requires
            v == (((x as u64) & 0x3FF_FFFF) << 38u64) | (((z as u64) & 0x3FF_FFFF) << 12u64) | ((
                y as u64) & 0xFFF),
    ;
    assert(v & 0xFFF == (y as u64) & 0xFFF) by (bit_vector)
        requires
            v == (((x as u64) & 0x3FF_FFFF) << 38u64) | (((z as u64) & 0x3FF_FFFF) << 12u64) | ((
                y as u64) & 0xFFF),
    ;
    assert(x >= 0 ==> (x as u64) & 0x3FF_FFFF == x) by (bit_vector)
        requires
            -0x200_0000 <= x < 0x200_0000,
    ;
    assert(x < 0 ==> (x as u64) & 0x3FF_FFFF == x + 0x400_0000) by (bit_vector)
        requires
            -0x200_0000 <= x < 0x200_0000,
    ;
    assert(z >= 0 ==> (z as u64) & 0x3FF_FFFF == z) by (bit_vector)
        requires
            -0x200_0000 <= z < 0x200_0000,
    ;
    assert(z < 0 ==> (z as u64) & 0x3FF_FFFF == z + 0x400_0000) by (bit_vector)
        requires
            -0x200_0000 <= z < 0x200_0000,
    ;
    assert(y >= 0 ==> (y as u64) & 0xFFF == y) by (bit_vector)
        requires
            -0x800 <= y < 0x800,
    ;
    assert(y < 0 ==> (y as u64) & 0xFFF == y + 0x1000) by (bit_vector)
        requires
            -0x800 <= y < 0x800,
    ;
}

} // verus!
