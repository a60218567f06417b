use crate::bitset::{words_bytes, write_words};
use crate::palette::{
    ceil_div, entries_per_long, lemma_set_then_read_same, FormatView, HasData, HasDataKind,
    PaletteFormat, PaletteFormatKind, PaletteView, PalettedContainer,
};
use crate::varint::{varint_bytes, write_varint, VarInt};
use crate::wire::{byte_array_bytes, le_bytes, write_byte_array, write_u16, write_u8};
use vstd::prelude::*;

verus! {

/// The state ids of the three air blocks (air, cave air, void air) in the
/// block table the caller uses.
#[derive(Debug, Clone, Copy, PartialEq, Eq, Structural)]
pub struct AirIds {
    pub air: u32,
    pub cave_air: u32,
    pub void_air: u32,
}

impl AirIds {
    pub open spec fn spec_contains(self, id: u32) -> bool {
        id == self.air || id == self.cave_air || id == self.void_air
    }

    /// Whether `id` is one of the air blocks.
    pub fn contains(&self, id: u32) -> (r: bool)
        ensures
            r == self.spec_contains(id),
    {
        id == self.air || id == self.cave_air || id == self.void_air
    }
}

/// The block that a stored id stands for in a block table whose state ids
/// run from 0 to `state_count - 1`: the id itself where it is one of them,
/// air otherwise.
pub open spec fn block_of(id: u32, state_count: u32, air: AirIds) -> u32 {
    if id < state_count {
        id
    } else {
        air.air
    }
}

/// The index of block (x, y, z) inside a 16x16x16 section.
pub open spec fn section_index(x: nat, y: nat, z: nat) -> nat {
    y * 16 * 16 + z * 16 + x
}

/// One 16-block-high slice of a chunk column.
#[derive(Debug, Clone)]
pub struct ChunkSection {
    pub block_count: u16,
    pub block_states: PalettedContainer,
    pub biomes: PalettedContainer,
}

/// A chunk column: its sections from the bottom up.
#[derive(Debug, Clone)]
pub struct Chunk {
    pub sections: Vec<ChunkSection>,
}

/// The block count after replacing a block whose air-ness is `existing_air`
/// by one whose air-ness is `is_air`: one less when air replaces a solid
/// block, one more when a solid block replaces air.
pub open spec fn counted_blocks(count: u16, is_air: bool, existing_air: bool) -> int {
    if is_air && !existing_air {
        count - 1
    } else if !is_air && existing_air {
        count + 1
    } else {
        count as int
    }
}

impl ChunkSection {
    /// What `set(x, y, z, block, air)` needs to run without aborting.
    pub open spec fn can_set(self, x: nat, y: nat, z: nat, block: u32, air: AirIds) -> bool {
        let i = section_index(x, y, z);
        let grown = self.block_states@.extend(i);
        let existing_air = air.spec_contains(grown.value_at(i) as u32);
        &&& i <= usize::MAX
        &&& self.block_states@.format is Direct
        &&& 0 <= counted_blocks(self.block_count, air.spec_contains(block), existing_air)
            <= u16::MAX
    }

    /// Places a block, keeping the count of non-air blocks.
    pub fn set(&mut self, x: usize, y: usize, z: usize, block: u32, air: &AirIds)
        requires
            old(self).can_set(x as nat, y as nat, z as nat, block, *air),
        ensures
            ({
                let i = section_index(x as nat, y as nat, z as nat);
                let grown = old(self).block_states@.extend(i);
                &&& final(self).block_states@ == grown.set(i, block as u16)
                &&& final(self).biomes == old(self).biomes
                &&& final(self).block_count == counted_blocks(
                    old(self).block_count,
                    air.spec_contains(block),
                    air.spec_contains(grown.value_at(i) as u32),
                )
            }),
            counts_blocks(*old(self), *air) && x < 16 && y < 16 && z < 16 && block < 0x8000 ==> ({
                let i = section_index(x as nat, y as nat, z as nat);
                &&& counts_blocks(*final(self), *air)
                &&& final(self).block_states@.value_at(i) == block as u16
                &&& forall|j: nat|
                    j < 4096 && j != i ==> #[trigger] final(self).block_states@.value_at(j)
                        == old(self).block_states@.value_at(j)
            }),
    {
        proof {
            if counts_blocks(*old(self), *air) && x < 16 && y < 16 && z < 16 && block < 0x8000 {
                lemma_set_keeps_block_count(*old(self), x as nat, y as nat, z as nat, block, *air);
            }
        }
        let is_air = air.contains(block);
        let index = y * 16 * 16 + z * 16 + x;
        let existing = self.block_states.palette_value_extend(index);
        let existing_air = air.contains(existing as u32);
        if is_air && !existing_air {
            self.block_count = self.block_count - 1;
        } else if !is_air && existing_air {
            self.block_count = self.block_count + 1;
        }
        proof {
            let grown = old(self).block_states@.extend(index as nat);
            assert(grown.word_of(index as nat) < grown.data().len());
        }
        self.block_states.set(index, block as u16);
    }

    /// The block at (x, y, z): the id stored there where it is a state of
    /// the block table, air otherwise (see `block_of`).
    pub fn get(&self, x: usize, y: usize, z: usize, state_count: u32, air: &AirIds) -> (r: u32)
        requires
            section_index(x as nat, y as nat, z as nat) <= usize::MAX,
            self.block_states@.can_read(section_index(x as nat, y as nat, z as nat)),
        ensures
            r == block_of(
                self.block_states@.value_at(section_index(x as nat, y as nat, z as nat)) as u32,
                state_count,
                *air,
            ),
    {
        let index = y * 16 * 16 + z * 16 + x;
        let id = self.block_states.palette_value(index) as u32;
        if id < state_count {
            id
        } else {
            air.air
        }
    }

    /// Writes the section: block count, block states, biomes.
    pub fn write_into(&self, out: &mut Vec<u8>)
        requires
            container_writable(self.block_states@),
            container_writable(self.biomes@),
        ensures
            final(out)@ == old(out)@ + section_bytes(*self),
    {
        write_u16(self.block_count, out);
        write_container(&self.block_states, out);
        write_container(&self.biomes, out);
        assert(final(out)@ =~= old(out)@ + section_bytes(*self));
    }
}

/// The bytes of a section on the wire.
pub open spec fn section_bytes(s: ChunkSection) -> Seq<u8> {
    le_bytes(s.block_count as nat, 2) + container_bytes(s.block_states@) + container_bytes(
        s.biomes@,
    )
}

/// The VarInt bytes of each number in turn.
pub open spec fn varints_bytes(vs: Seq<i32>) -> Seq<u8>
    decreases vs.len(),
{
    if vs.len() == 0 {
        Seq::empty()
    } else {
        varints_bytes(vs.drop_last()) + varint_bytes(vs.last() as nat)
    }
}

/// A container can be written: every VarInt in it is non-negative and the
/// palette length fits a VarInt.
pub open spec fn container_writable(c: PaletteView) -> bool {
    match c.format {
        FormatView::Single(v) => v >= 0,
        FormatView::Direct(_) => true,
        FormatView::Indirect { palette, .. } => palette.len() <= i32::MAX && forall|i: int|
            0 <= i < palette.len() ==> palette[i] >= 0,
    }
}

/// The bytes of a paletted container on the wire: bits per entry, then the
/// single value, or the palette (for indirect data) and the data words with
/// no length in front.
pub open spec fn container_bytes(c: PaletteView) -> Seq<u8> {
    le_bytes(c.bits() as nat, 1) + match c.format {
        FormatView::Single(v) => varint_bytes(v as nat),
        FormatView::Direct(d) => words_bytes(d),
        FormatView::Indirect { palette, data, .. } => varint_bytes(palette.len()) + varints_bytes(
            palette,
        ) + words_bytes(data),
    }
}

/// Writes a paletted container.
pub fn write_container(c: &PalettedContainer, out: &mut Vec<u8>)
    requires
        container_writable(c@),
    ensures
        final(out)@ == old(out)@ + container_bytes(c@),
{
    let bits_per_entry = c.palette.bits_per_entry(c.kind);
    write_u8(bits_per_entry, out);
    match &c.palette {
        PaletteFormat::SingleValue(value) => {
            write_varint(*value, out);
        },
        PaletteFormat::HasData(d) => {
            match &d.kind {
                HasDataKind::Indirect(indirect) => {
                    let ghost mid = out@;
                    write_varint(VarInt::new(indirect.palette.len() as i32), out);
                    let ghost start = out@;
                    let ghost pv = indirect.palette@.map_values(|v: VarInt| v@);
                    let mut i: usize = 0;
                    assert(pv.take(0) =~= Seq::<i32>::empty());
                    while i < indirect.palette.len()
                        invariant
                            i <= indirect.palette@.len(),
                            pv == indirect.palette@.map_values(|v: VarInt| v@),
                            forall|j: int| 0 <= j < pv.len() ==> pv[j] >= 0,
                            out@ == start + varints_bytes(pv.take(i as int)),
                        decreases indirect.palette@.len() - i,
                    {
                        assert(pv[i as int] == indirect.palette@[i as int]@);
                        write_varint(indirect.palette[i], out);
                        i = i + 1;
                        assert(pv.take(i as int).drop_last() =~= pv.take(i - 1));
                        assert(out@ =~= start + varints_bytes(pv.take(i as int)));
                    }
                    assert(pv.take(pv.len() as int) =~= pv);
                },
                HasDataKind::Direct => {},
            }
            write_words(&d.data, out);
        },
    }
    assert(final(out)@ =~= old(out)@ + container_bytes(c@));
}

/// The zeroed direct block states of an empty section.
fn empty_block_states() -> (r: PalettedContainer)
    ensures
        r@ == (PaletteView {
            kind: PaletteFormatKind::Blocks,
            format: FormatView::Direct(Seq::new(1024, |i: int| 0u64)),
        }),
{
    let kind = HasDataKind::Direct;
    assert(ceil_div(4096, entries_per_long(15)) == 1024) by {
        assert(entries_per_long(15) == 4);
        assert(((4096 + 4 - 1) as nat) == 4099);
        assert(4099nat / 4 == 1024);
    }
    PalettedContainer::new(
        PaletteFormatKind::Blocks,
        PaletteFormat::HasData(HasData::new(kind, 16 * 16 * 16, PaletteFormatKind::Blocks)),
    )
}

/// A section whose biomes are all biome 0.
fn single_biomes() -> (r: PalettedContainer)
    ensures
        r@ == (PaletteView { kind: PaletteFormatKind::Biomes, format: FormatView::Single(0) }),
{
    PalettedContainer::new(
        PaletteFormatKind::Biomes,
        PaletteFormat::SingleValue(VarInt::new(0)),
    )
}

impl Chunk {
    /// Every section of a chunk made by `generate`: one block id throughout.
    pub open spec fn is_generated_section(s: ChunkSection, block: u32) -> bool {
        &&& s.block_count == 0
        &&& s.block_states@ == PaletteView {
            kind: PaletteFormatKind::Blocks,
            format: FormatView::Single(block as i32),
        }
        &&& s.biomes@ == PaletteView { kind: PaletteFormatKind::Biomes, format: FormatView::Single(0) }
    }

    /// Every section of an empty chunk: zeroed direct block states.
    pub open spec fn is_empty_section(s: ChunkSection) -> bool {
        &&& s.block_count == 0
        &&& s.block_states@ == PaletteView {
            kind: PaletteFormatKind::Blocks,
            format: FormatView::Direct(Seq::new(1024, |i: int| 0u64)),
        }
        &&& s.biomes@ == PaletteView { kind: PaletteFormatKind::Biomes, format: FormatView::Single(0) }
    }

    /// A chunk of 24 sections that each hold the one block `block`
    /// (the server generates bedrock).
    pub fn generate(block: u32) -> (r: Self)
        ensures
            r.sections@.len() == 24,
            forall|i: int| 0 <= i < 24 ==> Chunk::is_generated_section(#[trigger] r.sections@[i], block),
    {
        let mut sections: Vec<ChunkSection> = Vec::new();
        let mut n: usize = 0;
        while n < 24
            invariant
                n <= 24,
                sections@.len() == n,
                forall|i: int| 0 <= i < n ==> Chunk::is_generated_section(#[trigger] sections@[i], block),
            decreases 24 - n,
        {
            let section = ChunkSection {
                block_count: 0,
                block_states: PalettedContainer::new(
                    PaletteFormatKind::Blocks,
                    PaletteFormat::SingleValue(VarInt::new(block as i32)),
                ),
                biomes: single_biomes(),
            };
            sections.push(section);
            n = n + 1;
        }
        Self { sections }
    }

    /// A chunk of 24 sections with zeroed direct block states.
    pub fn empty() -> (r: Self)
        ensures
            r.sections@.len() == 24,
            forall|i: int| 0 <= i < 24 ==> Chunk::is_empty_section(#[trigger] r.sections@[i]),
    {
        let mut sections: Vec<ChunkSection> = Vec::new();
        let mut n: usize = 0;
        while n < 24
            invariant
                n <= 24,
                sections@.len() == n,
                forall|i: int| 0 <= i < n ==> Chunk::is_empty_section(#[trigger] sections@[i]),
            decreases 24 - n,
        {
            let section = ChunkSection {
                block_count: 0,
                block_states: empty_block_states(),
                biomes: single_biomes(),
            };
            sections.push(section);
            n = n + 1;
        }
        Self { sections }
    }

    /// Places a block at column-relative (x, y, z): in section y / 16 at
    /// height y % 16.
    pub fn set(&mut self, x: usize, y: usize, z: usize, block: u32, air: &AirIds)
        requires
            y / 16 < old(self).sections@.len(),
            old(self).sections@[(y / 16) as int].can_set(x as nat, (y % 16) as nat, z as nat, block, *air),
        ensures
            final(self).sections@.len() == old(self).sections@.len(),
            forall|i: int|
                0 <= i < old(self).sections@.len() && i != y / 16 ==> final(self).sections@[i]
                    == old(self).sections@[i],
            ({
                let s = old(self).sections@[(y / 16) as int];
                let t = final(self).sections@[(y / 16) as int];
                let i = section_index(x as nat, (y % 16) as nat, z as nat);
                let grown = s.block_states@.extend(i);
                &&& t.block_states@ == grown.set(i, block as u16)
                &&& t.biomes == s.biomes
                &&& t.block_count == counted_blocks(
                    s.block_count,
                    air.spec_contains(block),
                    air.spec_contains(grown.value_at(i) as u32),
                )
            }),
    {
        let section_index = y / 16;
        let section_y = y % 16;
        self.sections[section_index].set(x, section_y, z, block, air);
    }

    /// The block at column-relative (x, y, z) (see `ChunkSection::get`).
    pub fn get(&self, x: usize, y: usize, z: usize, state_count: u32, air: &AirIds) -> (r: u32)
        requires
            y / 16 < self.sections@.len(),
            section_index(x as nat, (y % 16) as nat, z as nat) <= usize::MAX,
            self.sections@[(y / 16) as int].block_states@.can_read(
                section_index(x as nat, (y % 16) as nat, z as nat),
            ),
        ensures
            r == block_of(
                self.sections@[(y / 16) as int].block_states@.value_at(
                    section_index(x as nat, (y % 16) as nat, z as nat),
                ) as u32,
                state_count,
                *air,
            ),
    {
        let section_index = y / 16;
        let section_y = y % 16;
        self.sections[section_index].get(x, section_y, z, state_count, air)
    }

    /// Writes the chunk: all sections' bytes as one byte string.
    pub fn write_into(&self, out: &mut Vec<u8>)
        requires
            forall|i: int|
                0 <= i < self.sections@.len() ==> container_writable(
                    (#[trigger] self.sections@[i]).block_states@,
                ) && container_writable(self.sections@[i].biomes@),
            sections_bytes(self.sections@).len() <= i32::MAX,
        ensures
            final(out)@ == old(out)@ + byte_array_bytes(sections_bytes(self.sections@)),
    {
        let mut bytes: Vec<u8> = Vec::new();
        let mut i: usize = 0;
        assert(self.sections@.take(0) =~= Seq::<ChunkSection>::empty());
        while i < self.sections.len()
            invariant
                i <= self.sections@.len(),
                forall|j: int|
                    0 <= j < self.sections@.len() ==> container_writable(
                        (#[trigger] self.sections@[j]).block_states@,
                    ) && container_writable(self.sections@[j].biomes@),
                bytes@ == sections_bytes(self.sections@.take(i as int)),
            decreases self.sections@.len() - i,
        {
            self.sections[i].write_into(&mut bytes);
            i = i + 1;
            assert(self.sections@.take(i as int).drop_last() =~= self.sections@.take(i - 1));
        }
        assert(self.sections@.take(self.sections@.len() as int) =~= self.sections@);
        write_byte_array(bytes.as_slice(), out);
    }
}

/// The bytes of sections written one after another.
pub open spec fn sections_bytes(ss: Seq<ChunkSection>) -> Seq<u8>
    decreases ss.len(),
{
    if ss.len() == 0 {
        Seq::empty()
    } else {
        sections_bytes(ss.drop_last()) + section_bytes(ss.last())
    }
}

/// Law: in a section, reading a block just placed gives back its id, when
/// the id fits the 15-bit direct format.
pub proof fn lemma_section_set_then_get(s: ChunkSection, x: nat, y: nat, z: nat, block: u32)
    requires
        s.block_states@.format is Direct,
        s.block_states@.kind == PaletteFormatKind::Blocks,
        block < 0x8000,
    ensures
        ({
            let i = section_index(x, y, z);
            let after = s.block_states@.extend(i).set(i, block as u16);
            after.can_read(i) && after.value_at(i) as u32 == block
        }),
{
    let i = section_index(x, y, z);
    let grown = s.block_states@.extend(i);
    crate::palette::lemma_extend_keeps_entries(s.block_states@, i, i);
    assert(grown.bits() == 15);
    assert((block as u16 as u64) < (1u64 << 15u64)) by (bit_vector)
        requires
            block < 0x8000,
    ;
    lemma_set_then_read_same(grown, i, block as u16);
}


/// How many of the first `n` entries of a section's block states are not
/// air.
pub open spec fn non_air_count(p: PaletteView, air: AirIds, n: nat) -> nat
    decreases n,
{
    if n == 0 {
        0
    } else {
        non_air_count(p, air, (n - 1) as nat) + if air.spec_contains(p.value_at((n - 1) as nat) as u32) {
            0nat
        } else {
            1nat
        }
    }
}

/// A section whose block count is the number of its blocks that are not
/// air, its block states held directly with room for all 4096 blocks.
pub open spec fn counts_blocks(s: ChunkSection, air: AirIds) -> bool {
    &&& s.block_states@.kind == PaletteFormatKind::Blocks
    &&& s.block_states@.format is Direct
    &&& s.block_states@.data().len() >= 1024
    &&& s.block_count == non_air_count(s.block_states@, air, 4096)
}

proof fn lemma_zero_entries_count(p: PaletteView, air: AirIds, n: nat)
    requires
        air.spec_contains(0),
        forall|j: nat| j < n ==> #[trigger] p.value_at(j) == 0u16,
    ensures
        non_air_count(p, air, n) == 0,
    decreases n,
{
    if n > 0 {
        lemma_zero_entries_count(p, air, (n - 1) as nat);
        assert(p.value_at((n - 1) as nat) == 0u16);
    }
}

proof fn lemma_count_after_change(p: PaletteView, q: PaletteView, air: AirIds, i: nat, n: nat)
    requires
        forall|j: nat| j < n && j != i ==> #[trigger] q.value_at(j) == p.value_at(j),
    ensures
        i < n ==> non_air_count(q, air, n) + (if air.spec_contains(p.value_at(i) as u32) {
            0int
        } else {
            1int
        }) == non_air_count(p, air, n) + (if air.spec_contains(q.value_at(i) as u32) {
            0int
        } else {
            1int
        }),
        i >= n ==> non_air_count(q, air, n) == non_air_count(p, air, n),
    decreases n,
{
    if n > 0 {
        lemma_count_after_change(p, q, air, i, (n - 1) as nat);
        if (n - 1) as nat != i {
            assert(q.value_at((n - 1) as nat) == p.value_at((n - 1) as nat));
        }
    }
}

/// Law: in a section as `Chunk::empty` makes it, the block count is the
/// number of blocks that are not air, when the zero id is air.
pub proof fn lemma_empty_section_counts_blocks(s: ChunkSection, air: AirIds)
    requires
        Chunk::is_empty_section(s),
        air.spec_contains(0),
    ensures
        counts_blocks(s, air),
{
    let p = s.block_states@;
    assert(entries_per_long(15) == 4);
    assert forall|j: nat| j < 4096 implies #[trigger] p.value_at(j) == 0u16 by {
        assert(p.word_of(j) == j / 4);
        assert(p.data()[p.word_of(j) as int] == 0u64);
        let off = crate::palette::bit_offset(15, j) as u64;
        let w: u64 = 0;
        assert((w >> off) & crate::palette::low_mask(15) == 0) by (bit_vector)
            requires
                w == 0,
        ;
    }
    lemma_zero_entries_count(p, air, 4096);
}

/// Law: placing a block keeps a section's block count equal to the number
/// of its blocks that are not air, when the block's id fits the 15-bit
/// direct format.
pub proof fn lemma_set_keeps_block_count(
    s: ChunkSection,
    x: nat,
    y: nat,
    z: nat,
    block: u32,
    air: AirIds,
)
    requires
        counts_blocks(s, air),
        x < 16,
        y < 16,
        z < 16,
        block < 0x8000,
    ensures
        ({
            let i = section_index(x, y, z);
            let p = s.block_states@;
            let q = p.extend(i).set(i, block as u16);
            &&& q.kind == PaletteFormatKind::Blocks
            &&& q.format is Direct
            &&& q.data().len() >= 1024
            &&& counted_blocks(
                s.block_count,
                air.spec_contains(block),
                air.spec_contains(p.extend(i).value_at(i) as u32),
            ) == non_air_count(q, air, 4096)
            &&& q.can_read(i)
            &&& q.value_at(i) == block as u16
            &&& forall|j: nat|
                j < 4096 && j != i ==> q.can_read(j) && #[trigger] q.value_at(j) == p.value_at(j)
        }),
{
    let i = section_index(x, y, z);
    let p = s.block_states@;
    assert(entries_per_long(15) == 4);
    assert(i < 4096);
    assert(p.word_of(i) == i / 4);
    assert(p.extend(i) == p);
    let q = p.set(i, block as u16);
    assert(p.bits() == 15);
    assert((block as u16 as u64) < (1u64 << 15u64)) by (bit_vector)
        requires
            block < 0x8000,
    ;
    lemma_set_then_read_same(p, i, block as u16);
    assert forall|j: nat| j < 4096 && j != i implies q.can_read(j) && #[trigger] q.value_at(j)
        == p.value_at(j) by {
        assert(p.word_of(j) == j / 4);
        crate::palette::lemma_set_then_read_other(p, i, j, block as u16);
    }
    lemma_count_after_change(p, q, air, i, 4096);
    assert(q.value_at(i) as u32 == block);
}

} // verus!
