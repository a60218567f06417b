use bedwars::bitset::BitSet;
use bedwars::error::RwError;
use bedwars::identifier::Identifier;
use bedwars::position::Position;
use bedwars::varint::{read_varint, write_varint, VarInt};
use bedwars::wire::{
    read_bool, read_string, read_u16, read_u64, read_u8, write_bool, write_string, write_u16,
    write_u64, write_u8,
};

#[test]
fn varint_zero_is_one_byte() {
    let mut out = Vec::new();
    write_varint(VarInt::new(0), &mut out);
    assert_eq!(out, vec![0x00]);
    assert_eq!(VarInt::new(0).len_bytes(), 1);
}

#[test]
fn varint_300_encodes_in_two_bytes() {
    let mut out = Vec::new();
    write_varint(VarInt::new(300), &mut out);
    assert_eq!(out, vec![0xAC, 0x02]);
    assert_eq!(VarInt::new(300).len_bytes(), 2);
}

#[test]
fn varint_max_takes_five_bytes() {
    let mut out = Vec::new();
    write_varint(VarInt::new(i32::MAX), &mut out);
    assert_eq!(out, vec![0xFF, 0xFF, 0xFF, 0xFF, 0x07]);
    assert_eq!(VarInt::new(i32::MAX).len_bytes(), 5);
}

#[test]
fn varint_roundtrip_values() {
    for v in [0, 1, 127, 128, 255, 2097151, 25565, i32::MAX] {
        let mut out = Vec::new();
        write_varint(VarInt::new(v), &mut out);
        let (read, next) = read_varint(&out, 0).unwrap();
        assert_eq!(read.value(), v);
        assert_eq!(next, out.len());
    }
}

#[test]
fn varint_read_negative_one() {
    let buf = [0xFF, 0xFF, 0xFF, 0xFF, 0x0F];
    let (v, next) = read_varint(&buf, 0).unwrap();
    assert_eq!(v.value(), -1);
    assert_eq!(next, 5);
}

#[test]
fn varint_read_truncated_is_eof() {
    let buf = [0x80, 0x80];
    assert!(matches!(read_varint(&buf, 0), Err(RwError::UnexpectedEof)));
}

#[test]
fn varint_from_and_into_i32() {
    let v: VarInt = VarInt::from(42);
    let back: i32 = i32::from(v);
    assert_eq!(back, 42);
}

#[test]
fn u16_written_little_endian_read_big_endian() {
    let mut out = Vec::new();
    write_u16(1, &mut out);
    assert_eq!(out, vec![1, 0]);
    let (v, next) = read_u16(&out, 0).unwrap();
    assert_eq!(v, 256);
    assert_eq!(next, 2);
}

#[test]
fn u64_written_little_endian() {
    let mut out = Vec::new();
    write_u64(0x0102030405060708, &mut out);
    assert_eq!(out, vec![8, 7, 6, 5, 4, 3, 2, 1]);
    let (v, _) = read_u64(&out, 0).unwrap();
    assert_eq!(v, 0x0807060504030201);
}

#[test]
fn u8_and_bool_roundtrip() {
    let mut out = Vec::new();
    write_u8(200, &mut out);
    write_bool(true, &mut out);
    write_bool(false, &mut out);
    assert_eq!(out, vec![200, 1, 0]);
    assert_eq!(read_u8(&out, 0).unwrap(), (200, 1));
    assert_eq!(read_bool(&out, 1).unwrap(), (true, 2));
    assert_eq!(read_bool(&out, 2).unwrap(), (false, 3));
    assert!(matches!(read_u8(&out, 3), Err(RwError::UnexpectedEof)));
}

#[test]
fn bool_reads_any_nonzero_as_true() {
    let buf = [7u8];
    assert_eq!(read_bool(&buf, 0).unwrap(), (true, 1));
}

#[test]
fn string_roundtrip() {
    let mut out = Vec::new();
    write_string("héllo", &mut out);
    assert_eq!(out[0], 6);
    let (s, next) = read_string(&out, 0).unwrap();
    assert_eq!(s, "héllo");
    assert_eq!(next, out.len());
}

#[test]
fn string_with_invalid_utf8_is_refused() {
    let buf = [2u8, 0xC3, 0x28];
    assert!(matches!(read_string(&buf, 0), Err(RwError::Utf8)));
}

#[test]
fn string_shorter_than_its_length_is_eof() {
    let buf = [5u8, b'a', b'b'];
    assert!(matches!(read_string(&buf, 0), Err(RwError::UnexpectedEof)));
}

#[test]
fn identifier_text_and_parse() {
    let id = Identifier::with_namespace("minecraft", "stone");
    assert_eq!(id.to_string(), "minecraft:stone");
    let parsed = Identifier::from_text("foo:bar:baz");
    assert_eq!(parsed.namespace, "foo");
    assert_eq!(parsed.value, "bar:baz");
    let bare = Identifier::from_text("plain");
    assert_eq!(bare.namespace, "plain");
    assert_eq!(bare.value, "");
    let def = Identifier::new("dirt");
    assert_eq!(def.namespace, "minecraft");
    assert!(Identifier::const_new("dirt") == def);
    assert!(Identifier::const_with_namespace("a", "b") == Identifier::with_namespace("a", "b"));
}

#[test]
fn identifier_wire_roundtrip() {
    let id = Identifier::with_namespace("minecraft", "overworld");
    let mut out = Vec::new();
    id.write_into(&mut out);
    assert_eq!(out[0] as usize, "minecraft:overworld".len());
    let (back, next) = Identifier::read_from(&out, 0).unwrap();
    assert!(back == id);
    assert_eq!(next, out.len());
}

#[test]
fn position_pack_and_unpack() {
    let p = Position::new(18357644, 831, -20882616);
    let packed = p.pack();
    assert_eq!(packed, 0x4607632C15B4833F);
    let q = Position::unpack(packed);
    assert_eq!((q.x, q.y, q.z), (18357644, 831, -20882616));
}

#[test]
fn position_written_little_endian() {
    let p = Position::new(0, 1, 0);
    let mut out = Vec::new();
    p.write_into(&mut out);
    assert_eq!(out, vec![1, 0, 0, 0, 0, 0, 0, 0]);
    let (q, next) = Position::read_from(&out, 0).unwrap();
    assert_eq!(next, 8);
    assert_eq!(q.pack(), 0x0100000000000000);
}

#[test]
fn bitset_toggle_twice_restores() {
    let mut b = BitSet::with_size(100);
    assert_eq!(b.bits, vec![0, 0]);
    b.toggle(65);
    assert_eq!(b.bits, vec![0, 2]);
    b.toggle(65);
    assert_eq!(b.bits, vec![0, 0]);
}

#[test]
fn bitset_toggle_grows() {
    let mut b = BitSet::empty();
    b.toggle(130);
    assert_eq!(b.bits, vec![0, 0, 4]);
    let mut out = Vec::new();
    b.write_into(&mut out);
    assert_eq!(out[0], 3);
    assert_eq!(out.len(), 1 + 3 * 8);
}

#[test]
fn bitset_toggle_twice_past_the_end_leaves_zero_words() {
    let mut b = BitSet::empty();
    b.bits.push(9);
    b.toggle(200);
    b.toggle(200);
    assert_eq!(b.bits, vec![9, 0, 0, 0]);
}

#[test]
fn bitset_toggles_commute() {
    let mut a = BitSet::empty();
    a.bits.push(1);
    a.toggle(3);
    a.toggle(70);
    let mut b = BitSet::empty();
    b.bits.push(1);
    b.toggle(70);
    b.toggle(3);
    assert_eq!(a.bits, b.bits);
    assert_eq!(a.bits, vec![9, 64]);
}

#[test]
fn varint_length_is_least_that_holds_the_value() {
    assert_eq!(VarInt::new(127).len_bytes(), 1);
    assert_eq!(VarInt::new(128).len_bytes(), 2);
    assert_eq!(VarInt::new(16383).len_bytes(), 2);
    assert_eq!(VarInt::new(16384).len_bytes(), 3);
    assert_eq!(VarInt::new(2097151).len_bytes(), 3);
    assert_eq!(VarInt::new(2097152).len_bytes(), 4);
    assert_eq!(VarInt::new(268435455).len_bytes(), 4);
    assert_eq!(VarInt::new(268435456).len_bytes(), 5);
}
