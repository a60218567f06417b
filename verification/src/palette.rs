use crate::varint::VarInt;
use vstd::prelude::*;

verus! {

/// The `width` low bits set.
pub open spec fn low_mask(width: u64) -> u64 {
    ((1u64 << width) - 1) as u64
}

/// The `width`-bit field of `w` that starts at bit `off`.
pub open spec fn read_field(w: u64, off: u64, width: u64) -> u64 {
    (w >> off) & low_mask(width)
}

/// `w` with the `width`-bit field at `off` cleared and `v << off` or-ed in.
pub open spec fn write_field(w: u64, off: u64, width: u64, v: u64) -> u64 {
    (w & !(low_mask(width) << off)) | (v << off)
}

/// How many `bits`-wide entries one 64-bit word holds.
pub open spec fn entries_per_long(bits: nat) -> nat {
    64nat / bits
}

/// The word that holds entry `idx`.
pub open spec fn long_index(bits: nat, idx: nat) -> nat {
    idx / entries_per_long(bits)
}

/// The bit at which entry `idx` starts inside its word.
pub open spec fn bit_offset(bits: nat, idx: nat) -> nat {
    (idx % entries_per_long(bits)) * bits
}

/// `desired` divided by `per`, rounded up.
pub open spec fn ceil_div(desired: nat, per: nat) -> nat {
    ((desired + per - 1) as nat) / per
}

/// Entry width of the direct format for each kind of container.
pub open spec fn direct_bits(kind: PaletteFormatKind) -> u8 {
    match kind {
        PaletteFormatKind::Blocks => 15,
        PaletteFormatKind::Biomes => 7,
    }
}

/// What a paletted container holds, seen as mathematical values.
pub enum FormatView {
    Single(i32),
    Direct(Seq<u64>),
    Indirect { bits: u8, palette: Seq<i32>, data: Seq<u64> },
}

pub struct PaletteView {
    pub kind: PaletteFormatKind,
    pub format: FormatView,
}

impl PaletteView {
    /// Bits per entry: 0 for a single value.
    pub open spec fn bits(self) -> u8 {
        match self.format {
            FormatView::Single(_) => 0,
            FormatView::Direct(_) => direct_bits(self.kind),
            FormatView::Indirect { bits, .. } => bits,
        }
    }

    /// The packed words.
    pub open spec fn data(self) -> Seq<u64> {
        match self.format {
            FormatView::Single(_) => Seq::empty(),
            FormatView::Direct(d) => d,
            FormatView::Indirect { data, .. } => data,
        }
    }

    /// The word that holds entry `idx`.
    pub open spec fn word_of(self, idx: nat) -> nat {
        long_index(self.bits() as nat, idx)
    }

    /// The raw packed field of entry `idx`.
    pub open spec fn slot(self, idx: nat) -> u64 {
        read_field(
            self.data()[self.word_of(idx) as int],
            bit_offset(self.bits() as nat, idx) as u64,
            self.bits() as u64,
        )
    }

    /// Entry `idx` can be read without leaving the data or the palette.
    pub open spec fn can_read(self, idx: nat) -> bool {
        match self.format {
            FormatView::Single(_) => true,
            FormatView::Direct(d) => self.word_of(idx) < d.len(),
            FormatView::Indirect { bits, palette, data } => {
                &&& 1 <= bits <= 63
                &&& self.word_of(idx) < data.len()
                &&& (self.slot(idx) as usize) < palette.len()
            },
        }
    }

    /// The value of entry `idx`.
    pub open spec fn value_at(self, idx: nat) -> u16 {
        match self.format {
            FormatView::Single(v) => v as u16,
            FormatView::Direct(_) => self.slot(idx) as u16,
            FormatView::Indirect { palette, .. } => palette[(self.slot(idx) as usize) as int] as u16,
        }
    }

    /// Entry `idx` can be written: the format is direct and the word exists.
    pub open spec fn can_set(self, idx: nat) -> bool {
        &&& self.format is Direct
        &&& self.word_of(idx) < self.data().len()
    }

    /// The container after writing `value` into entry `idx` of direct data.
    pub open spec fn set(self, idx: nat, value: u16) -> PaletteView {
        match self.format {
            FormatView::Direct(d) => PaletteView {
                kind: self.kind,
                format: FormatView::Direct(
                    d.update(
                        self.word_of(idx) as int,
                        write_field(
                            d[self.word_of(idx) as int],
                            bit_offset(self.bits() as nat, idx) as u64,
                            self.bits() as u64,
                            value as u64,
                        ),
                    ),
                ),
            },
            _ => self,
        }
    }

    /// The container after growing direct data with zero words until entry
    /// `idx` has its word.
    pub open spec fn extend(self, idx: nat) -> PaletteView {
        match self.format {
            FormatView::Direct(d) => if self.word_of(idx) < d.len() {
                self
            } else {
                PaletteView {
                    kind: self.kind,
                    format: FormatView::Direct(
                        d + Seq::new((self.word_of(idx) + 1 - d.len()) as nat, |i: int| 0u64),
                    ),
                }
            },
            _ => self,
        }
    }

    /// Entry `idx` can be read once direct data has been extended.
    pub open spec fn can_read_extending(self, idx: nat) -> bool {
        match self.format {
            FormatView::Direct(_) => true,
            _ => self.can_read(idx),
        }
    }
}

/// A chunk section's block states or biomes, in one of the palette formats.
#[derive(Debug, Clone)]
pub struct PalettedContainer {
    pub kind: PaletteFormatKind,
    pub palette: PaletteFormat,
}

#[derive(Debug, Clone)]
pub enum PaletteFormat {
    HasData(HasData),
    SingleValue(VarInt),
}

#[derive(Debug, Clone)]
pub struct HasData {
    pub kind: HasDataKind,
    pub data: Vec<u64>,
}

#[derive(Debug, Clone)]
pub enum HasDataKind {
    Indirect(Indirect),
    Direct,
}

#[derive(Debug, Clone, Copy, PartialEq, Eq, Structural)]
pub enum PaletteFormatKind {
    Blocks,
    Biomes,
}

#[derive(Debug, Clone)]
pub struct Indirect {
    pub bits_per_entry: u8,
    pub palette: Vec<VarInt>,
}

impl View for PalettedContainer {
    type V = PaletteView;

    open spec fn view(&self) -> PaletteView {
        PaletteView {
            kind: self.kind,
            format: match self.palette {
                PaletteFormat::SingleValue(v) => FormatView::Single(v@),
                PaletteFormat::HasData(d) => match d.kind {
                    HasDataKind::Direct => FormatView::Direct(d.data@),
                    HasDataKind::Indirect(ind) => FormatView::Indirect {
                        bits: ind.bits_per_entry,
                        palette: ind.palette@.map_values(|v: VarInt| v@),
                        data: d.data@,
                    },
                },
            },
        }
    }
}

impl PalettedContainer {
    pub fn new(kind: PaletteFormatKind, palette: PaletteFormat) -> (r: Self)
        ensures
            r.kind == kind,
            r.palette == palette,
    {
        Self { kind, palette }
    }

    /// Writes `value` into entry `idx` of a direct container.
    pub fn set(&mut self, idx: usize, value: u16)
        requires
            old(self)@.can_set(idx as nat),
        ensures
            final(self)@ == old(self)@.set(idx as nat, value),
    {
        let bits_per_entry = self.palette.bits_per_entry(self.kind);
        match &mut self.palette {
            PaletteFormat::SingleValue(_) => {
                proof {
                    assert(false);
                }
            },
            PaletteFormat::HasData(d) => {
                match &d.kind {
                    HasDataKind::Direct => {
                        let (long_index, bit_index) = field_position(bits_per_entry, idx);
                        let word = d.data[long_index];
                        let new_word = insert_field(word, bit_index, bits_per_entry as u64, value as u64);
                        d.data.set(long_index, new_word);
                    },
                    HasDataKind::Indirect(_) => {
                        proof {
                            assert(false);
                        }
                    },
                }
            },
        }
    }

    /// Reads entry `idx`.
    pub fn palette_value(&self, idx: usize) -> (r: u16)
        requires
            self@.can_read(idx as nat),
        ensures
            r == self@.value_at(idx as nat),
    {
        let bits_per_entry = self.palette.bits_per_entry(self.kind);
        match &self.palette {
            PaletteFormat::SingleValue(value) => value.value() as u16,
            PaletteFormat::HasData(d) => match &d.kind {
                HasDataKind::Direct => {
                    let (long_index, bit_index) = field_position(bits_per_entry, idx);
                    extract_field(d.data[long_index], bit_index, bits_per_entry as u64) as u16
                },
                HasDataKind::Indirect(indirect) => {
                    let (long_index, bit_index) = field_position(bits_per_entry, idx);
                    let palette_index = extract_field(
                        d.data[long_index],
                        bit_index,
                        bits_per_entry as u64,
                    ) as usize;
                    indirect.palette[palette_index].value() as u16
                },
            },
        }
    }

    /// Reads entry `idx`, first growing direct data with zero words when the
    /// entry lies past its end.
    pub fn palette_value_extend(&mut self, idx: usize) -> (r: u16)
        requires
            old(self)@.can_read_extending(idx as nat),
        ensures
            final(self)@ == old(self)@.extend(idx as nat),
            final(self)@.can_read(idx as nat),
            r == final(self)@.value_at(idx as nat),
    {
        let bits_per_entry = self.palette.bits_per_entry(self.kind);
        match &mut self.palette {
            PaletteFormat::SingleValue(value) => value.value() as u16,
            PaletteFormat::HasData(d) => match &d.kind {
                HasDataKind::Direct => {
                    let (long_index, bit_index) = field_position(bits_per_entry, idx);
                    if long_index >= d.data.len() {
                        let ghost before = d.data@;
                        d.data.resize(long_index + 1, 0);
                        proof {
                            assert forall|i: int| before.len() <= i < d.data@.len() implies d.data@[i]
                                == 0u64 by {
                                assert(cloned::<u64>(0u64, d.data@[i]));
                            }
                            assert(d.data@ =~= before + Seq::new(
                                (long_index + 1 - before.len()) as nat,
                                |i: int| 0u64,
                            ));
                        }
                    }
                    extract_field(d.data[long_index], bit_index, bits_per_entry as u64) as u16
                },
                HasDataKind::Indirect(indirect) => {
                    let (long_index, bit_index) = field_position(bits_per_entry, idx);
                    let palette_index = extract_field(
                        d.data[long_index],
                        bit_index,
                        bits_per_entry as u64,
                    ) as usize;
                    indirect.palette[palette_index].value() as u16
                },
            },
        }
    }
}

impl HasData {
    /// Zeroed data for `num_entries` entries of the given format.
    pub fn new(kind: HasDataKind, num_entries: usize, format: PaletteFormatKind) -> (r: Self)
        requires
            1 <= kind.spec_bits_per_entry(format) <= 64,
            num_entries + 64int / (kind.spec_bits_per_entry(format) as int) <= usize::MAX,
        ensures
            r.kind == kind,
            r.data@ == Seq::new(
                ceil_div(
                    num_entries as nat,
                    entries_per_long(kind.spec_bits_per_entry(format) as nat),
                ),
                |i: int| 0u64,
            ),
    {
        let n = kind.necessary_elements(num_entries, format);
        let mut data: Vec<u64> = Vec::new();
        while data.len() < n
            invariant
                data.len() <= n,
                forall|i: int| 0 <= i < data.len() ==> data@[i] == 0u64,
            decreases n - data.len(),
        {
            data.push(0);
        }
        assert(data@ =~= Seq::new(n as nat, |i: int| 0u64));
        Self { data, kind }
    }
}

impl HasDataKind {
    pub open spec fn spec_bits_per_entry(&self, kind: PaletteFormatKind) -> u8 {
        match self {
            HasDataKind::Indirect(indirect) => indirect.bits_per_entry,
            HasDataKind::Direct => direct_bits(kind),
        }
    }

    pub fn bits_per_entry(&self, kind: PaletteFormatKind) -> (r: u8)
        ensures
            r == self.spec_bits_per_entry(kind),
    {
        match kind {
            PaletteFormatKind::Blocks => match self {
                HasDataKind::Indirect(indirect) => indirect.bits_per_entry,
                HasDataKind::Direct => 15,
            },
            PaletteFormatKind::Biomes => match self {
                HasDataKind::Indirect(indirect) => indirect.bits_per_entry,
                HasDataKind::Direct => 7,
            },
        }
    }

    /// How many words `desired` entries take.
    pub fn necessary_elements(&self, desired: usize, kind: PaletteFormatKind) -> (r: usize)
        requires
            1 <= self.spec_bits_per_entry(kind) <= 64,
            desired + 64int / (self.spec_bits_per_entry(kind) as int) <= usize::MAX,
        ensures
            r == ceil_div(desired as nat, entries_per_long(self.spec_bits_per_entry(kind) as nat)),
    {
        let bits_per_entry = self.bits_per_entry(kind);
        let entries_per_long = 64 / bits_per_entry as usize;
        assert(entries_per_long >= 1) by (nonlinear_arith)
            requires
                1 <= bits_per_entry <= 64,
                entries_per_long == 64int / (bits_per_entry as int),
        ;
        (desired + entries_per_long - 1) / entries_per_long
    }
}

impl PaletteFormat {
    pub open spec fn spec_bits_per_entry(&self, kind: PaletteFormatKind) -> u8 {
        match self {
            PaletteFormat::SingleValue(_) => 0,
            PaletteFormat::HasData(d) => d.kind.spec_bits_per_entry(kind),
        }
    }

    pub fn bits_per_entry(&self, kind: PaletteFormatKind) -> (r: u8)
        ensures
            r == self.spec_bits_per_entry(kind),
    {
        match kind {
            PaletteFormatKind::Blocks => match self {
                PaletteFormat::SingleValue(_) => 0,
                PaletteFormat::HasData(d) => d.kind.bits_per_entry(kind),
            },
            PaletteFormatKind::Biomes => match self {
                PaletteFormat::SingleValue(_) => 0,
                PaletteFormat::HasData(d) => d.kind.bits_per_entry(kind),
            },
        }
    }

    /// How many words `desired` entries take, at the width used for blocks.
    pub fn necessary_elements(&self, desired: usize) -> (r: usize)
        requires
            1 <= self.spec_bits_per_entry(PaletteFormatKind::Blocks) <= 64,
            desired + 64int / (self.spec_bits_per_entry(PaletteFormatKind::Blocks) as int)
                <= usize::MAX,
        ensures
            r == ceil_div(
                desired as nat,
                entries_per_long(self.spec_bits_per_entry(PaletteFormatKind::Blocks) as nat),
            ),
    {
        let bits_per_entry = self.bits_per_entry(PaletteFormatKind::Blocks);
        let entries_per_long = 64 / bits_per_entry as usize;
        assert(entries_per_long >= 1) by (nonlinear_arith)
            requires
                1 <= bits_per_entry <= 64,
                entries_per_long == 64int / (bits_per_entry as int),
        ;
        (desired + entries_per_long - 1) / entries_per_long
    }
}

impl Indirect {
    pub fn new(bits_per_entry: u8, palette: Vec<VarInt>) -> (r: Self)
        ensures
            r.bits_per_entry == bits_per_entry,
            r.palette@ == palette@,
    {
        Self { bits_per_entry, palette }
    }
}

/// Where entry `idx` lives: its word and the bit at which it starts.
fn field_position(bits: u8, idx: usize) -> (r: (usize, u64))
    requires
        1 <= bits <= 63,
    ensures
        r.0 == long_index(bits as nat, idx as nat),
        r.1 == bit_offset(bits as nat, idx as nat),
        r.1 + bits <= 64,
        bits <= 32 ==> r.0 < usize::MAX,
{
    let per_long: usize = 64 / bits as usize;
    assert(per_long >= 1) by (nonlinear_arith)
        requires
            1 <= bits <= 63,
            per_long == 64int / (bits as int),
    ;
    let long_index = idx / per_long;
    assert(bits <= 32 ==> long_index < usize::MAX) by (nonlinear_arith)
        requires
            1 <= bits <= 63,
            per_long == 64int / (bits as int),
            long_index == idx / per_long,
            idx <= usize::MAX,
    ;
    let slot = idx % per_long;
    assert(slot * (bits as int) + bits <= 64) by (nonlinear_arith)
        requires
            bits >= 1,
            per_long == 64int / (bits as int),
            slot < per_long,
    ;
    let bit_index = slot * bits as usize;
    (long_index, bit_index as u64)
}

/// Masks out the field and shifts it down, as the container reads entries.
fn extract_field(word: u64, off: u64, width: u64) -> (r: u64)
    requires
        1 <= width <= 63,
        off + width <= 64,
    ensures
        r == read_field(word, off, width),
{
    assert((1u64 << width) >= 1) by (bit_vector)
        requires
            width <= 63,
    ;
    let mask = ((1u64 << width) - 1) << off;
    assert(((word & ((((1u64 << width) - 1) as u64) << off)) >> off) == ((word >> off) & (((1u64
        << width) - 1) as u64))) by (bit_vector)
        requires
            1 <= width <= 63,
            off + width <= 64,
    ;
    (word & mask) >> off
}

/// Clears the field and ors the shifted value in, as the container writes
/// entries.
fn insert_field(word: u64, off: u64, width: u64, value: u64) -> (r: u64)
    requires
        1 <= width <= 63,
        off + width <= 64,
    ensures
        r == write_field(word, off, width, value),
{
    assert((1u64 << width) >= 1) by (bit_vector)
        requires
            width <= 63,
    ;
    let mask = ((1u64 << width) - 1) << off;
    (word & !mask) | (value << off)
}

/// Writing a value that fits the field and reading the same field gives
/// the value back.
pub proof fn lemma_field_write_read_same(w: u64, off: u64, width: u64, v: u64)
    requires
        1 <= width <= 63,
        off + width <= 64,
        v < (1u64 << width),
    ensures
        read_field(write_field(w, off, width, v), off, width) == v,
{
    assert((((w & !((((1u64 << width) - 1) as u64) << off)) | (v << off)) >> off) & (((1u64
        << width) - 1) as u64) == v) by (bit_vector)
        requires
            1 <= width <= 63,
            off + width <= 64,
            v < (1u64 << width),
    ;
}

/// Writing a value that fits a field leaves a disjoint field of the same
/// word as it was.
pub proof fn lemma_field_write_read_other(w: u64, off: u64, off2: u64, width: u64, v: u64)
    requires
        1 <= width <= 63,
        off + width <= 64,
        off2 + width <= 64,
        off + width <= off2 || off2 + width <= off,
        v < (1u64 << width),
    ensures
        read_field(write_field(w, off, width, v), off2, width) == read_field(w, off2, width),
{
    assert((((w & !((((1u64 << width) - 1) as u64) << off)) | (v << off)) >> off2) & (((1u64
        << width) - 1) as u64) == (w >> off2) & (((1u64 << width) - 1) as u64)) by (bit_vector)
        requires
            1 <= width <= 63,
            off + width <= 64,
            off2 + width <= 64,
            off + width <= off2 || off2 + width <= off,
            v < (1u64 << width),
    ;
}

/// An entry of a `bits`-wide layout stays inside its 64-bit word.
pub proof fn lemma_entry_in_word(bits: nat, idx: nat)
    requires
        1 <= bits <= 63,
    ensures
        bit_offset(bits, idx) + bits <= 64,
{
    let per = entries_per_long(bits);
    let slot = idx % per;
    assert(per >= 1) by (nonlinear_arith)
        requires
            1 <= bits <= 63,
            per == 64nat / bits,
    ;
    assert(slot * bits + bits <= 64) by (nonlinear_arith)
        requires
            bits >= 1,
            per == 64nat / bits,
            slot < per,
    ;
}

/// Two different entries that share a word do not overlap.
pub proof fn lemma_entries_disjoint(bits: nat, idx: nat, j: nat)
    requires
        1 <= bits <= 63,
        idx != j,
        long_index(bits, idx) == long_index(bits, j),
    ensures
        bit_offset(bits, idx) + bits <= bit_offset(bits, j) || bit_offset(bits, j) + bits
            <= bit_offset(bits, idx),
{
    let per = entries_per_long(bits);
    assert(per >= 1) by (nonlinear_arith)
        requires
            1 <= bits <= 63,
            per == 64nat / bits,
    ;
    let a = idx % per;
    let b = j % per;
    assert(a != b) by (nonlinear_arith)
        requires
            per >= 1,
            idx != j,
            idx / per == j / per,
            a == idx % per,
            b == j % per,
    ;
    assert(a * bits + bits <= b * bits || b * bits + bits <= a * bits) by (nonlinear_arith)
        requires
            a != b,
            bits >= 1,
    ;
}

/// Law: in a direct container, reading an entry just written gives back the
/// written value, when the value fits the entry width.
pub proof fn lemma_set_then_read_same(c: PaletteView, idx: nat, value: u16)
    requires
        c.can_set(idx),
        (value as u64) < (1u64 << (c.bits() as u64)),
    ensures
        c.set(idx, value).can_read(idx),
        c.set(idx, value).value_at(idx) == value,
{
    let bits = c.bits();
    lemma_entry_in_word(bits as nat, idx);
    lemma_field_write_read_same(
        c.data()[c.word_of(idx) as int],
        bit_offset(bits as nat, idx) as u64,
        bits as u64,
        value as u64,
    );
}

/// Law: in a direct container, writing one entry leaves every other
/// readable entry as it was, when the value fits the entry width.
pub proof fn lemma_set_then_read_other(c: PaletteView, idx: nat, j: nat, value: u16)
    requires
        c.can_set(idx),
        c.can_read(j),
        j != idx,
        (value as u64) < (1u64 << (c.bits() as u64)),
    ensures
        c.set(idx, value).can_read(j),
        c.set(idx, value).value_at(j) == c.value_at(j),
{
    let bits = c.bits();
    lemma_entry_in_word(bits as nat, idx);
    lemma_entry_in_word(bits as nat, j);
    if c.word_of(idx) == c.word_of(j) {
        lemma_entries_disjoint(bits as nat, idx, j);
        lemma_field_write_read_other(
            c.data()[c.word_of(idx) as int],
            bit_offset(bits as nat, idx) as u64,
            bit_offset(bits as nat, j) as u64,
            bits as u64,
            value as u64,
        );
    }
}

/// Law: growing a direct container keeps every entry that could already be
/// read, and the entry it grew for reads as zero when it was past the end.
pub proof fn lemma_extend_keeps_entries(c: PaletteView, idx: nat, j: nat)
    requires
        c.format is Direct,
    ensures
        c.extend(idx).can_read(idx),
        c.can_read(j) ==> c.extend(idx).can_read(j) && c.extend(idx).value_at(j) == c.value_at(j),
        !c.can_read(idx) ==> c.extend(idx).value_at(idx) == 0,
{
    let bits = c.bits();
    if !c.can_read(idx) {
        let w: u64 = 0;
        let off = bit_offset(bits as nat, idx) as u64;
        let width = bits as u64;
        assert(c.extend(idx).data()[c.word_of(idx) as int] == 0u64);
        assert(((w >> off) & (((1u64 << width) - 1) as u64)) == 0) by (bit_vector)
            requires
                w == 0,
        ;
    }
}

} // verus!
