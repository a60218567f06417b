use crate::chunk::{section_index, AirIds, Chunk};
use crate::palette::{
    bit_offset, lemma_set_then_read_other, lemma_set_then_read_same, low_mask, read_field, FormatView,
    PaletteFormatKind, PaletteView,
};
use vstd::prelude::*;

verus! {

/// The world the server starts with: the chunks around the origin.
pub struct World {
    pub chunks: Vec<((i32, i32), Chunk)>,
}

/// Whether position `j` of the lowest section is one of the first floor
/// blocks placed: those of the columns x < `cx`, and of column `cx` those
/// with z < `cz`.
pub open spec fn floor_done(j: nat, cx: nat, cz: nat) -> bool {
    j < 256 && (j % 16 < cx || (j % 16 == cx && j / 16 < cz))
}

/// What a floor chunk holds at position `j` of its lowest section: bedrock
/// on the bottom layer, the zero id above it.
pub open spec fn floor_value(j: nat, bedrock: u32) -> u16 {
    if j < 256 {
        bedrock as u16
    } else {
        0
    }
}

/// The lowest section's block states after the floor blocks up to
/// (`cx`, `cz`) were placed.
pub open spec fn floor_states(p: PaletteView, bedrock: u32, cx: nat, cz: nat) -> bool {
    &&& p.kind == PaletteFormatKind::Blocks
    &&& p.format is Direct
    &&& p.data().len() == 1024
    &&& forall|j: nat|
        #![trigger p.can_read(j)]
        #![trigger p.value_at(j)]
        j < 4096 ==> p.can_read(j) && p.value_at(j) == if floor_done(j, cx, cz) {
            bedrock as u16
        } else {
            0u16
        }
}

/// A chunk of 24 sections whose bottom layer is bedrock and that holds the
/// zero id everywhere else.
pub open spec fn is_floor_chunk(c: Chunk, bedrock: u32, air: AirIds) -> bool {
    &&& c.sections@.len() == 24
    &&& forall|i: int| 1 <= i < 24 ==> Chunk::is_empty_section(#[trigger] c.sections@[i])
    &&& c.sections@[0].biomes@ == PaletteView {
        kind: PaletteFormatKind::Biomes,
        format: FormatView::Single(0),
    }
    &&& c.sections@[0].block_states@.kind == PaletteFormatKind::Blocks
    &&& c.sections@[0].block_states@.format is Direct
    &&& forall|j: nat|
        j < 4096 ==> c.sections@[0].block_states@.can_read(j)
            && #[trigger] c.sections@[0].block_states@.value_at(j) == floor_value(j, bedrock)
    &&& c.sections@[0].block_count == if air.spec_contains(bedrock) {
        0u16
    } else {
        256u16
    }
}

proof fn lemma_zero_word_reads_zero(off: u64, width: u64)
    ensures
        read_field(0, off, width) == 0,
{
    let w: u64 = 0;
    assert((w >> off) & low_mask(width) == 0) by (bit_vector)
        requires
            w == 0,
    ;
}

proof fn lemma_floor_step(j: nat, x: nat, z: nat)
    requires
        x < 16,
        z < 16,
    ensures
        floor_done(j, x, z + 1) == (floor_done(j, x, z) || j == z * 16 + x),
        !floor_done(z * 16 + x, x, z),
{
    assert((z * 16 + x) % 16 == x && (z * 16 + x) / 16 == z) by (nonlinear_arith)
        requires
            x < 16,
    ;
    if j < 256 && j % 16 == x && j / 16 == z {
        assert(j == (j / 16) * 16 + j % 16) by (nonlinear_arith);
    }
}

proof fn lemma_floor_column(j: nat, x: nat)
    ensures
        floor_done(j, x, 16) == floor_done(j, x + 1, 0),
{
    if j < 256 {
        assert(j / 16 < 16) by (nonlinear_arith)
            requires
                j < 256,
        ;
    }
}

fn floor_chunk(bedrock: u32, air: &AirIds) -> (r: Chunk)
    requires
        bedrock < 0x8000,
        air.spec_contains(0),
    ensures
        is_floor_chunk(r, bedrock, *air),
{
    let mut chunk = Chunk::empty();
    proof {
        let p = chunk.sections@[0].block_states@;
        assert(p.bits() == 15);
        assert(p.data().len() == 1024);
        assert(crate::palette::entries_per_long(15) == 4);
        assert forall|j: nat| j < 4096 implies p.can_read(j) && #[trigger] p.value_at(j) == (
        if floor_done(j, 0, 0) {
            bedrock as u16
        } else {
            0u16
        }) by {
            assert(p.word_of(j) == j / 4);
            assert(j / 4 < 1024);
            assert(p.data()[p.word_of(j) as int] == 0u64);
            lemma_zero_word_reads_zero(bit_offset(15, j) as u64, 15);
        }
    }
    let mut x: usize = 0;
    while x < 16
        invariant
            x <= 16,
            bedrock < 0x8000,
            air.spec_contains(0),
            chunk.sections@.len() == 24,
            forall|i: int| 1 <= i < 24 ==> Chunk::is_empty_section(#[trigger] chunk.sections@[i]),
            chunk.sections@[0].biomes@ == (PaletteView {
                kind: PaletteFormatKind::Biomes,
                format: FormatView::Single(0),
            }),
            floor_states(chunk.sections@[0].block_states@, bedrock, x as nat, 0),
            chunk.sections@[0].block_count == if air.spec_contains(bedrock) {
                0
            } else {
                x * 16
            },
        decreases 16 - x,
    {
        let mut z: usize = 0;
        while z < 16
            invariant
                x < 16,
                z <= 16,
                bedrock < 0x8000,
                air.spec_contains(0),
                chunk.sections@.len() == 24,
                forall|i: int|
                    1 <= i < 24 ==> Chunk::is_empty_section(#[trigger] chunk.sections@[i]),
                chunk.sections@[0].biomes@ == (PaletteView {
                    kind: PaletteFormatKind::Biomes,
                    format: FormatView::Single(0),
                }),
                floor_states(chunk.sections@[0].block_states@, bedrock, x as nat, z as nat),
                chunk.sections@[0].block_count == if air.spec_contains(bedrock) {
                    0
                } else {
                    x * 16 + z
                },
            decreases 16 - z,
        {
            let ghost p = chunk.sections@[0].block_states@;
            let ghost idx = section_index(x as nat, 0, z as nat);
            proof {
                assert(idx == z * 16 + x);
                assert(p.value_at(idx) == p.value_at(idx));
                assert(p.can_read(idx));
                assert(p.value_at(idx) == 0u16) by {
                    lemma_floor_step(idx, x as nat, z as nat);
                }
                assert(p.word_of(idx) < p.data().len());
                assert(p.extend(idx) == p);
            }
            chunk.set(x, 0, z, bedrock, air);
            proof {
                let q = chunk.sections@[0].block_states@;
                assert(q == p.set(idx, bedrock as u16));
                assert(p.bits() == 15);
                assert((bedrock as u16 as u64) < (1u64 << 15u64)) by (bit_vector)
                    requires
                        bedrock < 0x8000,
                ;
                assert forall|j: nat|
                    #![trigger q.can_read(j)]
                    #![trigger q.value_at(j)]
                    j < 4096 implies q.can_read(j) && q.value_at(j)
                    == (if floor_done(j, x as nat, (z + 1) as nat) {
                    bedrock as u16
                } else {
                    0u16
                }) by {
                    lemma_floor_step(j, x as nat, z as nat);
                    if j == idx {
                        lemma_set_then_read_same(p, idx, bedrock as u16);
                    } else {
                        assert(p.value_at(j) == p.value_at(j));
                        assert(p.can_read(j));
                        lemma_set_then_read_other(p, idx, j, bedrock as u16);
                    }
                }
                assert(q.data().len() == 1024);
                assert(q.kind == PaletteFormatKind::Blocks);
                assert(q.format is Direct);
                assert(floor_states(q, bedrock, x as nat, (z + 1) as nat));
            }
            z = z + 1;
        }
        proof {
            let p = chunk.sections@[0].block_states@;
            assert forall|j: nat| j < 4096 implies p.can_read(j) && #[trigger] p.value_at(j) == (
            if floor_done(j, (x + 1) as nat, 0) {
                bedrock as u16
            } else {
                0u16
            }) by {
                lemma_floor_column(j, x as nat);
                assert(p.value_at(j) == p.value_at(j));
            }
        }
        x = x + 1;
    }
    proof {
        let p = chunk.sections@[0].block_states@;
        assert forall|j: nat| j < 4096 implies p.can_read(j) && #[trigger] p.value_at(j)
            == floor_value(j, bedrock) by {
            assert(p.value_at(j) == p.value_at(j));
            if j < 256 {
                assert(j % 16 < 16);
            }
        }
    }
    chunk
}

/// The chunk position of the `k`-th chunk of a new world: x from -1 to 1,
/// for each x, z from -1 to 1.
pub open spec fn world_position(k: int) -> (i32, i32) {
    ((k / 3 - 1) as i32, (k % 3 - 1) as i32)
}

impl World {
    /// The nine chunks around the origin, each with a bedrock floor (see
    /// `is_floor_chunk`).
    pub fn new(bedrock: u32, air: &AirIds) -> (r: Self)
        requires
            bedrock < 0x8000,
            air.spec_contains(0),
        ensures
            r.chunks@.len() == 9,
            forall|k: int|
                0 <= k < 9 ==> (#[trigger] r.chunks@[k]).0 == world_position(k) && is_floor_chunk(
                    r.chunks@[k].1,
                    bedrock,
                    *air,
                ),
    {
        let mut chunks: Vec<((i32, i32), Chunk)> = Vec::new();
        let mut x: i32 = -1;
        while x <= 1
            invariant
                -1 <= x <= 2,
                bedrock < 0x8000,
                air.spec_contains(0),
                chunks@.len() == 3 * (x + 1),
                forall|k: int|
                    0 <= k < chunks@.len() ==> (#[trigger] chunks@[k]).0 == world_position(k)
                        && is_floor_chunk(chunks@[k].1, bedrock, *air),
            decreases 2 - x,
        {
            let mut z: i32 = -1;
            while z <= 1
                invariant
                    -1 <= x <= 1,
                    -1 <= z <= 2,
                    bedrock < 0x8000,
                    air.spec_contains(0),
                    chunks@.len() == 3 * (x + 1) + z + 1,
                    forall|k: int|
                        0 <= k < chunks@.len() ==> (#[trigger] chunks@[k]).0 == world_position(k)
                            && is_floor_chunk(chunks@[k].1, bedrock, *air),
                decreases 2 - z,
            {
                let chunk = floor_chunk(bedrock, air);
                let ghost k = chunks@.len() as int;
                chunks.push(((x, z), chunk));
                proof {
                    assert(k / 3 == x + 1 && k % 3 == z + 1) by (nonlinear_arith)
                        requires
                            k == 3 * (x + 1) + z + 1,
                            -1 <= z <= 1,
                    ;
                    assert(chunks@[k].0 == world_position(k));
                }
                z = z + 1;
            }
            x = x + 1;
        }
        World { chunks }
    }
}

} // verus!
