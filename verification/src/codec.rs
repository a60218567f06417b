use crate::bitset::{words_bytes, BitSet};
use crate::chunk::{container_writable, sections_bytes, Chunk, ChunkSection};
use crate::identifier::{identifier_bytes, identifier_text, Identifier};
use crate::position::{pack_position, Position};
use crate::varint::{varint_bytes, write_varint, VarInt};
use crate::wire::{
    byte_array_bytes, le_bytes, string_bytes, write_bool, write_byte_array, write_i32, write_i64,
    write_string, write_u16, write_u64, write_u8,
};
use vstd::prelude::*;

verus! {

/// A value with a wire form: what its bytes are, when it can be written,
/// and the writer that appends them.
pub trait WireWrite {
    /// Writing the value terminates and its lengths fit the wire format.
    spec fn wire_writable(&self) -> bool;

    /// The bytes the value takes on the wire.
    spec fn wire_bytes(&self) -> Seq<u8>;

    fn write_into(&self, out: &mut Vec<u8>)
        requires
            self.wire_writable(),
        ensures
            final(out)@ == old(out)@ + self.wire_bytes(),
    ;
}

/// The wire bytes of items written one after another.
pub open spec fn items_bytes<T: WireWrite>(s: Seq<T>) -> Seq<u8>
    decreases s.len(),
{
    if s.len() == 0 {
        Seq::empty()
    } else {
        items_bytes(s.drop_last()) + s.last().wire_bytes()
    }
}

/// Every item can be written.
pub open spec fn items_writable<T: WireWrite>(s: Seq<T>) -> bool {
    forall|i: int| 0 <= i < s.len() ==> (#[trigger] s[i]).wire_writable()
}

/// Appends the items one after another, with no count in front.
pub fn write_items<T: WireWrite>(items: &Vec<T>, out: &mut Vec<u8>)
    requires
        items_writable(items@),
    ensures
        final(out)@ == old(out)@ + items_bytes(items@),
{
    let ghost start = out@;
    let mut i: usize = 0;
    assert(items@.take(0) =~= Seq::<T>::empty());
    while i < items.len()
        invariant
            i <= items@.len(),
            items_writable(items@),
            out@ == start + items_bytes(items@.take(i as int)),
        decreases items@.len() - i,
    {
        assert(items@[i as int].wire_writable());
        items[i].write_into(out);
        i = i + 1;
        assert(items@.take(i as int).drop_last() =~= items@.take(i - 1));
        assert(out@ =~= start + items_bytes(items@.take(i as int)));
    }
    assert(items@.take(items@.len() as int) =~= items@);
}

impl<T: WireWrite> WireWrite for Vec<T> {
    open spec fn wire_writable(&self) -> bool {
        self@.len() <= i32::MAX && items_writable(self@)
    }

    /// The count as a VarInt, then the items.
    open spec fn wire_bytes(&self) -> Seq<u8> {
        varint_bytes(self@.len()) + items_bytes(self@)
    }

    fn write_into(&self, out: &mut Vec<u8>) {
        write_varint(VarInt::new(self.len() as i32), out);
        write_items(self, out);
        assert(final(out)@ =~= old(out)@ + self.wire_bytes());
    }
}

impl<T: WireWrite> WireWrite for Option<T> {
    open spec fn wire_writable(&self) -> bool {
        match self {
            Some(v) => v.wire_writable(),
            None => true,
        }
    }

    /// A presence byte (1 or 0), then the value when present.
    open spec fn wire_bytes(&self) -> Seq<u8> {
        match self {
            Some(v) => seq![1u8] + v.wire_bytes(),
            None => seq![0u8],
        }
    }

    fn write_into(&self, out: &mut Vec<u8>) {
        match self {
            Some(value) => {
                write_bool(true, out);
                value.write_into(out);
            },
            None => {
                write_bool(false, out);
            },
        }
        assert(final(out)@ =~= old(out)@ + self.wire_bytes());
    }
}

impl WireWrite for () {
    open spec fn wire_writable(&self) -> bool {
        true
    }

    /// Nothing.
    open spec fn wire_bytes(&self) -> Seq<u8> {
        Seq::empty()
    }

    fn write_into(&self, out: &mut Vec<u8>) {
        assert(out@ =~= out@ + Seq::<u8>::empty());
    }
}

impl WireWrite for bool {
    open spec fn wire_writable(&self) -> bool {
        true
    }

    open spec fn wire_bytes(&self) -> Seq<u8> {
        seq![if *self { 1u8 } else { 0u8 }]
    }

    fn write_into(&self, out: &mut Vec<u8>) {
        write_bool(*self, out);
    }
}

impl WireWrite for u8 {
    open spec fn wire_writable(&self) -> bool {
        true
    }

    open spec fn wire_bytes(&self) -> Seq<u8> {
        le_bytes(*self as nat, 1)
    }

    fn write_into(&self, out: &mut Vec<u8>) {
        write_u8(*self, out);
    }
}

impl WireWrite for u16 {
    open spec fn wire_writable(&self) -> bool {
        true
    }

    open spec fn wire_bytes(&self) -> Seq<u8> {
        le_bytes(*self as nat, 2)
    }

    fn write_into(&self, out: &mut Vec<u8>) {
        write_u16(*self, out);
    }
}

impl WireWrite for i32 {
    open spec fn wire_writable(&self) -> bool {
        true
    }

    open spec fn wire_bytes(&self) -> Seq<u8> {
        le_bytes((*self as u32) as nat, 4)
    }

    fn write_into(&self, out: &mut Vec<u8>) {
        write_i32(*self, out);
    }
}

impl WireWrite for i64 {
    open spec fn wire_writable(&self) -> bool {
        true
    }

    open spec fn wire_bytes(&self) -> Seq<u8> {
        le_bytes((*self as u64) as nat, 8)
    }

    fn write_into(&self, out: &mut Vec<u8>) {
        write_i64(*self, out);
    }
}

impl WireWrite for u64 {
    open spec fn wire_writable(&self) -> bool {
        true
    }

    open spec fn wire_bytes(&self) -> Seq<u8> {
        le_bytes(*self as nat, 8)
    }

    fn write_into(&self, out: &mut Vec<u8>) {
        write_u64(*self, out);
    }
}

impl WireWrite for VarInt {
    /// Negative numbers never finish writing.
    open spec fn wire_writable(&self) -> bool {
        self@ >= 0
    }

    open spec fn wire_bytes(&self) -> Seq<u8> {
        varint_bytes(self@ as nat)
    }

    fn write_into(&self, out: &mut Vec<u8>) {
        write_varint(*self, out);
    }
}

impl WireWrite for String {
    open spec fn wire_writable(&self) -> bool {
        vstd::utf8::encode_utf8(self@).len() <= i32::MAX
    }

    open spec fn wire_bytes(&self) -> Seq<u8> {
        string_bytes(self@)
    }

    fn write_into(&self, out: &mut Vec<u8>) {
        write_string(self.as_str(), out);
    }
}

impl WireWrite for Identifier {
    open spec fn wire_writable(&self) -> bool {
        vstd::utf8::encode_utf8(identifier_text(self@)).len() <= i32::MAX
    }

    open spec fn wire_bytes(&self) -> Seq<u8> {
        identifier_bytes(self@)
    }

    fn write_into(&self, out: &mut Vec<u8>) {
        Identifier::write_into(self, out);
    }
}

impl WireWrite for Position {
    open spec fn wire_writable(&self) -> bool {
        true
    }

    open spec fn wire_bytes(&self) -> Seq<u8> {
        le_bytes(pack_position(*self) as nat, 8)
    }

    fn write_into(&self, out: &mut Vec<u8>) {
        Position::write_into(self, out);
    }
}

impl WireWrite for BitSet {
    open spec fn wire_writable(&self) -> bool {
        self.bits@.len() <= i32::MAX
    }

    open spec fn wire_bytes(&self) -> Seq<u8> {
        varint_bytes(self.bits@.len()) + words_bytes(self.bits@)
    }

    fn write_into(&self, out: &mut Vec<u8>) {
        BitSet::write_into(self, out);
    }
}

impl WireWrite for ChunkSection {
    open spec fn wire_writable(&self) -> bool {
        container_writable(self.block_states@) && container_writable(self.biomes@)
    }

    open spec fn wire_bytes(&self) -> Seq<u8> {
        crate::chunk::section_bytes(*self)
    }

    fn write_into(&self, out: &mut Vec<u8>) {
        ChunkSection::write_into(self, out);
    }
}

impl WireWrite for Chunk {
    open spec fn wire_writable(&self) -> bool {
        &&& forall|i: int|
            0 <= i < self.sections@.len() ==> container_writable(
                (#[trigger] self.sections@[i]).block_states@,
            ) && container_writable(self.sections@[i].biomes@)
        &&& sections_bytes(self.sections@).len() <= i32::MAX
    }

    /// All sections' bytes as one byte string.
    open spec fn wire_bytes(&self) -> Seq<u8> {
        byte_array_bytes(sections_bytes(self.sections@))
    }

    fn write_into(&self, out: &mut Vec<u8>) {
        Chunk::write_into(self, out);
    }
}

/// Appends a packet: the length of its body as a VarInt, then the body,
/// which is the packet id as a VarInt followed by `payload`.
pub fn write_packet(id: i32, payload: &[u8], out: &mut Vec<u8>)
    requires
        id >= 0,
        varint_bytes(id as nat).len() + payload@.len() <= i32::MAX,
    ensures
        final(out)@ == old(out)@ + packet_bytes(id, payload@),
{
    let mut body: Vec<u8> = Vec::new();
    write_varint(VarInt::new(id), &mut body);
    let mut i: usize = 0;
    let ghost start = body@;
    while i < payload.len()
        invariant
            i <= payload@.len(),
            body@ == start + payload@.take(i as int),
        decreases payload@.len() - i,
    {
        body.push(payload[i]);
        i = i + 1;
        assert(body@ =~= start + payload@.take(i as int));
    }
    assert(payload@.take(payload@.len() as int) =~= payload@);
    assert(body@ =~= varint_bytes(id as nat) + payload@);
    write_byte_array(body.as_slice(), out);
}

/// The bytes of a packet: body length as a VarInt, then the body (packet id
/// as a VarInt, then the payload).
pub open spec fn packet_bytes(id: i32, payload: Seq<u8>) -> Seq<u8> {
    byte_array_bytes(varint_bytes(id as nat) + payload)
}

} // verus!
