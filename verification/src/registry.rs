use crate::identifier::Identifier;
use crate::messages::{
    nbt_view, ClientboundConfigurationMessage, FinishConfiguration, NetworkNbt, RegistryData,
    RegistryDataView, RegistryEntry, RegistryEntryView, Tag, TagView, TaggedRegistry, UpdateTags,
};
use crate::tag::{
    cache_view, collect_spec, expand_all_spec, files_view, ids_view, keys_of, load_tags, no_repeats,
    IdView, TagCache, TagFile,
};
use crate::varint::VarInt;
use vstd::prelude::*;
use vstd::string::{StrSliceExecFns, StringExecFns};

verus! {

/// A value with the position it is to be sorted by.
#[derive(Debug, Clone)]
pub struct WithSortOrder<T> {
    sort_order: usize,
    data: T,
}

impl<T> WithSortOrder<T> {
    pub closed spec fn spec_sort_order(&self) -> usize {
        self.sort_order
    }

    pub closed spec fn spec_data(&self) -> T {
        self.data
    }

    pub fn new(sort_order: usize, data: T) -> (r: Self)
        ensures
            r.spec_sort_order() == sort_order,
            r.spec_data() == data,
    {
        Self { sort_order, data }
    }

    pub fn sort_order(&self) -> (r: usize)
        ensures
            r == self.spec_sort_order(),
    {
        self.sort_order
    }

    /// The value itself.
    pub fn data(&self) -> (r: &T)
        ensures
            *r == self.spec_data(),
    {
        &self.data
    }

    /// The value itself, to change in place; the sort order stays.
    pub fn data_mut(&mut self) -> (r: &mut T)
        ensures
            *r == old(self).spec_data(),
            final(self).spec_data() == *final(r),
            final(self).spec_sort_order() == old(self).spec_sort_order(),
    {
        &mut self.data
    }
}

/// One entry of a registry as the server keeps it.
#[derive(Debug, Clone)]
pub struct SharedRegistryEntry {
    pub entry_id: Identifier,
    pub nbt: Option<NetworkNbt>,
}

/// One registry as the server keeps it, its entries in the order read.
#[derive(Debug, Clone)]
pub struct SharedRegistryData {
    pub registry_id: Identifier,
    pub entries: Vec<SharedRegistryEntry>,
}

impl View for SharedRegistryEntry {
    type V = RegistryEntryView;

    open spec fn view(&self) -> RegistryEntryView {
        (self.entry_id@, nbt_view(self.nbt))
    }
}

impl View for SharedRegistryData {
    type V = RegistryDataView;

    open spec fn view(&self) -> RegistryDataView {
        (self.registry_id@, self.entries@.map_values(|e: SharedRegistryEntry| e@))
    }
}

/// The registries in the order they were read, and the tags with their
/// values expanded.
#[derive(Debug, Clone)]
pub struct Registry {
    sorted_registry: Vec<SharedRegistryData>,
    tag_map: Vec<(Identifier, Vec<Identifier>)>,
}

pub struct RegistryView {
    pub sorted: Seq<RegistryDataView>,
    pub tags: TagCache,
}

impl View for Registry {
    type V = RegistryView;

    closed spec fn view(&self) -> RegistryView {
        RegistryView {
            sorted: self.sorted_registry@.map_values(|d: SharedRegistryData| d@),
            tags: cache_view(self.tag_map@),
        }
    }
}

/// The position of the last occurrence of `id` among the first `n` keys.
pub open spec fn last_index(keys: Seq<IdView>, id: IdView, n: nat) -> Option<int>
    decreases n,
{
    if n == 0 {
        None
    } else if keys[n - 1] == id {
        Some(n - 1)
    } else {
        last_index(keys, id, (n - 1) as nat)
    }
}

pub proof fn lemma_last_index(keys: Seq<IdView>, id: IdView, n: nat)
    requires
        n <= keys.len(),
    ensures
        last_index(keys, id, n) matches Some(k) ==> 0 <= k < n && keys[k] == id && forall|j: int|
            k < j < n ==> keys[j] != id,
        last_index(keys, id, n) is None ==> forall|j: int| 0 <= j < n ==> keys[j] != id,
    decreases n,
{
    if n > 0 {
        lemma_last_index(keys, id, (n - 1) as nat);
    }
}

pub open spec fn registry_keys(sorted: Seq<RegistryDataView>) -> Seq<IdView> {
    Seq::new(sorted.len(), |i: int| sorted[i].0)
}

pub open spec fn entry_keys(entries: Seq<RegistryEntryView>) -> Seq<IdView> {
    Seq::new(entries.len(), |i: int| entries[i].0)
}

/// Where the registry `reg` is kept: the last registry read under that
/// identifier.
pub open spec fn registry_position(sorted: Seq<RegistryDataView>, reg: IdView) -> Option<int> {
    last_index(registry_keys(sorted), reg, sorted.len())
}

/// The position of entry `entry` in registry `reg`: in the last registry
/// read under that identifier, the last entry under that identifier.
pub open spec fn entry_position(sorted: Seq<RegistryDataView>, reg: IdView, entry: IdView) -> Option<
    int,
> {
    match registry_position(sorted, reg) {
        Some(p) => last_index(entry_keys(sorted[p].1), entry, sorted[p].1.len()),
        None => None,
    }
}

/// The positions of those of `values` that are entries of registry `reg`,
/// in the order of `values`; the others are left out.
pub open spec fn tag_entries(sorted: Seq<RegistryDataView>, reg: IdView, values: Seq<IdView>) -> Seq<
    i32,
>
    decreases values.len(),
{
    if values.len() == 0 {
        Seq::empty()
    } else {
        let prev = tag_entries(sorted, reg, values.drop_last());
        match entry_position(sorted, reg, values.last()) {
            Some(k) => prev.push(k as i32),
            None => prev,
        }
    }
}

/// Every tag with its entries as positions, each tag's values looked up in
/// the registry named like the tag.
pub open spec fn tags_spec(sorted: Seq<RegistryDataView>, tags: TagCache) -> Seq<TagView> {
    Seq::new(tags.len(), |j: int| (tags[j].0, tag_entries(sorted, tags[j].0, tags[j].1)))
}

fn find_last_registry(sorted: &Vec<SharedRegistryData>, reg: &Identifier) -> (r: Option<usize>)
    ensures
        r matches Some(k) ==> k < sorted@.len(),
        r matches Some(k) ==> registry_position(
            sorted@.map_values(|d: SharedRegistryData| d@),
            reg@,
        ) == Some(k as int),
        r is None ==> registry_position(sorted@.map_values(|d: SharedRegistryData| d@), reg@) is None,
{
    let ghost v = sorted@.map_values(|d: SharedRegistryData| d@);
    let ghost keys = registry_keys(v);
    let mut i: usize = sorted.len();
    while i > 0
        invariant
            i <= sorted@.len(),
            v == sorted@.map_values(|d: SharedRegistryData| d@),
            keys == registry_keys(v),
            last_index(keys, reg@, v.len()) == last_index(keys, reg@, i as nat),
        decreases i,
    {
        if sorted[i - 1].registry_id == *reg {
            proof {
                assert(keys[i - 1] == sorted@[i - 1]@.0);
            }
            return Some(i - 1);
        }
        proof {
            assert(keys[i - 1] == sorted@[i - 1]@.0);
        }
        i = i - 1;
    }
    None
}

fn find_last_entry(entries: &Vec<SharedRegistryEntry>, entry: &Identifier) -> (r: Option<usize>)
    ensures
        r matches Some(k) ==> k < entries@.len(),
        ({
            let v = entries@.map_values(|e: SharedRegistryEntry| e@);
            &&& r matches Some(k) ==> last_index(entry_keys(v), entry@, v.len()) == Some(k as int)
            &&& r is None ==> last_index(entry_keys(v), entry@, v.len()) is None
        }),
{
    let ghost v = entries@.map_values(|e: SharedRegistryEntry| e@);
    let ghost keys = entry_keys(v);
    let mut i: usize = entries.len();
    while i > 0
        invariant
            i <= entries@.len(),
            v == entries@.map_values(|e: SharedRegistryEntry| e@),
            keys == entry_keys(v),
            last_index(keys, entry@, v.len()) == last_index(keys, entry@, i as nat),
        decreases i,
    {
        if entries[i - 1].entry_id == *entry {
            proof {
                assert(keys[i - 1] == entries@[i - 1]@.0);
            }
            return Some(i - 1);
        }
        proof {
            assert(keys[i - 1] == entries@[i - 1]@.0);
        }
        i = i - 1;
    }
    None
}


fn clone_nbt(n: &Option<NetworkNbt>) -> (r: Option<NetworkNbt>)
    ensures
        nbt_view(r) == nbt_view(*n),
{
    match n {
        None => None,
        Some(b) => {
            let mut bytes: Vec<u8> = Vec::new();
            let mut i: usize = 0;
            while i < b.bytes.len()
                invariant
                    i <= b.bytes@.len(),
                    bytes@ == b.bytes@.take(i as int),
                decreases b.bytes@.len() - i,
            {
                bytes.push(b.bytes[i]);
                i = i + 1;
                assert(bytes@ =~= b.bytes@.take(i as int));
            }
            assert(b.bytes@.take(b.bytes@.len() as int) =~= b.bytes@);
            Some(NetworkNbt { bytes })
        },
    }
}

fn share_registry(d: &RegistryData) -> (r: SharedRegistryData)
    ensures
        r@ == d@,
{
    let mut entries: Vec<SharedRegistryEntry> = Vec::new();
    let mut i: usize = 0;
    while i < d.entries.len()
        invariant
            i <= d.entries@.len(),
            entries@.map_values(|e: SharedRegistryEntry| e@) == d.entries@.take(
                i as int,
            ).map_values(|e: RegistryEntry| e@),
        decreases d.entries@.len() - i,
    {
        let ghost before = entries@;
        let e = &d.entries[i];
        let shared = SharedRegistryEntry { entry_id: e.entry_id.clone(), nbt: clone_nbt(&e.nbt) };
        entries.push(shared);
        proof {
            let lhs = entries@.map_values(|e: SharedRegistryEntry| e@);
            let rhs = d.entries@.take(i + 1).map_values(|e: RegistryEntry| e@);
            let old_rhs = d.entries@.take(i as int).map_values(|e: RegistryEntry| e@);
            assert(before.map_values(|e: SharedRegistryEntry| e@).len() == before.len());
            assert forall|k: int| 0 <= k <= i implies lhs[k] == rhs[k] by {
                if k < i {
                    assert(lhs[k] == before[k]@);
                    assert(before.map_values(|e: SharedRegistryEntry| e@)[k] == old_rhs[k]);
                    assert(old_rhs[k] == rhs[k]);
                } else {
                    assert(lhs[k] == shared@);
                }
            }
            assert(lhs =~= rhs);
        }
        i = i + 1;
    }
    proof {
        assert(d.entries@.take(d.entries@.len() as int) =~= d.entries@);
    }
    SharedRegistryData { registry_id: d.registry_id.clone(), entries }
}

impl Registry {
    /// The registry from the registries read, in their order, and the tag
    /// files of the `minecraft` namespace, their values expanded.
    pub fn discover(data: &Vec<RegistryData>, tag_files: &Vec<TagFile>) -> (r: Self)
        requires
            crate::tag::tag_files_readable(tag_files@),
        ensures
            r@.sorted == data@.map_values(|d: RegistryData| d@),
            r@.tags == expand_all_spec(
                collect_spec("minecraft"@, files_view(tag_files@), tag_files@.len()),
                collect_spec("minecraft"@, files_view(tag_files@), tag_files@.len()).len(),
            ),
            no_repeats(keys_of(r@.tags)),
    {
        let mut sorted: Vec<SharedRegistryData> = Vec::new();
        let mut i: usize = 0;
        while i < data.len()
            invariant
                i <= data@.len(),
                sorted@.map_values(|d: SharedRegistryData| d@) == data@.take(i as int).map_values(
                    |d: RegistryData| d@,
                ),
            decreases data@.len() - i,
        {
            let ghost before = sorted@;
            let shared = share_registry(&data[i]);
            sorted.push(shared);
            proof {
                let lhs = sorted@.map_values(|d: SharedRegistryData| d@);
                let rhs = data@.take(i + 1).map_values(|d: RegistryData| d@);
                let old_rhs = data@.take(i as int).map_values(|d: RegistryData| d@);
                assert(before.map_values(|d: SharedRegistryData| d@).len() == before.len());
                assert forall|k: int| 0 <= k <= i implies lhs[k] == rhs[k] by {
                    if k < i {
                        assert(lhs[k] == before[k]@);
                        assert(before.map_values(|d: SharedRegistryData| d@)[k] == old_rhs[k]);
                        assert(old_rhs[k] == rhs[k]);
                    } else {
                        assert(lhs[k] == shared@);
                    }
                }
                assert(lhs =~= rhs);
            }
            i = i + 1;
        }
        proof {
            assert(data@.take(data@.len() as int) =~= data@);
        }
        let tag_map = load_tags("minecraft", tag_files);
        Registry { sorted_registry: sorted, tag_map }
    }

    /// The registries in the order they were read.
    pub fn sorted_registry(&self) -> (r: &Vec<SharedRegistryData>)
        ensures
            r@.map_values(|d: SharedRegistryData| d@) == self@.sorted,
    {
        &self.sorted_registry
    }

    /// Every tag with its values expanded.
    pub fn tag_map(&self) -> (r: &Vec<(Identifier, Vec<Identifier>)>)
        ensures
            cache_view(r@) == self@.tags,
    {
        &self.tag_map
    }

    /// The position of entry `entry_id` in registry `registry_id` (see
    /// `entry_position`).
    pub fn reverse_sorted_registry(&self, registry_id: &Identifier, entry_id: &Identifier) -> (r:
        Option<usize>)
        ensures
            r matches Some(k) ==> entry_position(self@.sorted, registry_id@, entry_id@) == Some(
                k as int,
            ),
            r is None ==> entry_position(self@.sorted, registry_id@, entry_id@) is None,
    {
        match find_last_registry(&self.sorted_registry, registry_id) {
            None => None,
            Some(p) => {
                let r = find_last_entry(&self.sorted_registry[p].entries, entry_id);
                proof {
                    assert(self@.sorted[p as int].1 == self.sorted_registry@[p as int].entries@.map_values(
                        |e: SharedRegistryEntry| e@,
                    ));
                }
                r
            },
        }
    }

    /// Entry `entry_id` of registry `registry_id`, where there is one (see
    /// `entry_position`).
    pub fn registry_data(&self, registry_id: &Identifier, entry_id: &Identifier) -> (r: Option<
        &SharedRegistryEntry,
    >)
        ensures
            r is Some <==> entry_position(self@.sorted, registry_id@, entry_id@) is Some,
            r matches Some(e) ==> e@ == self@.sorted[registry_position(
                self@.sorted,
                registry_id@,
            )->0].1[entry_position(self@.sorted, registry_id@, entry_id@)->0],
    {
        match find_last_registry(&self.sorted_registry, registry_id) {
            None => None,
            Some(p) => {
                let ghost ev = self.sorted_registry@[p as int].entries@.map_values(
                    |e: SharedRegistryEntry| e@,
                );
                proof {
                    assert(self@.sorted[p as int].1 == ev);
                }
                match find_last_entry(&self.sorted_registry[p].entries, entry_id) {
                    None => None,
                    Some(k) => {
                        proof {
                            lemma_last_index(entry_keys(ev), entry_id@, ev.len());
                            assert(ev[k as int] == self.sorted_registry@[p as int].entries@[k as int]@);
                        }
                        Some(&self.sorted_registry[p].entries[k])
                    },
                }
            },
        }
    }

    fn tag_list(&self) -> (r: Vec<Tag>)
        ensures
            r@.map_values(|t: Tag| t@) == tags_spec(self@.sorted, self@.tags),
    {
        let ghost tags = self@.tags;
        let ghost sorted = self@.sorted;
        let mut out: Vec<Tag> = Vec::new();
        let mut j: usize = 0;
        while j < self.tag_map.len()
            invariant
                j <= self.tag_map@.len(),
                tags == cache_view(self.tag_map@),
                sorted == self@.sorted,
                out@.map_values(|t: Tag| t@) == tags_spec(sorted, tags).take(j as int),
            decreases self.tag_map@.len() - j,
        {
            let name = &self.tag_map[j].0;
            let values = &self.tag_map[j].1;
            let ghost vv = ids_view(values@);
            let mut entries: Vec<VarInt> = Vec::new();
            let mut i: usize = 0;
            while i < values.len()
                invariant
                    i <= values@.len(),
                    vv == ids_view(values@),
                    sorted == self@.sorted,
                    entries@.map_values(|v: VarInt| v@) == tag_entries(
                        sorted,
                        name@,
                        vv.take(i as int),
                    ),
                decreases values@.len() - i,
            {
                let ghost before = entries@;
                proof {
                    assert(vv.take(i + 1).drop_last() =~= vv.take(i as int));
                    assert(vv.take(i + 1).last() == values@[i as int]@);
                }
                match self.reverse_sorted_registry(name, &values[i]) {
                    Some(idx) => {
                        let v = VarInt::new(idx as i32);
                        entries.push(v);
                        proof {
                            assert(entries@.map_values(|v: VarInt| v@) =~= before.map_values(
                                |v: VarInt| v@,
                            ).push(idx as i32));
                        }
                    },
                    None => {},
                }
                i = i + 1;
            }
            proof {
                assert(vv.take(vv.len() as int) =~= vv);
            }
            let ghost before = out@;
            let t = Tag { tag_name: name.clone(), entries };
            out.push(t);
            proof {
                assert(tags[j as int] == (name@, vv));
                assert(out@.map_values(|t: Tag| t@) =~= before.map_values(|t: Tag| t@).push(t@));
                assert(tags_spec(sorted, tags).take(j + 1) =~= tags_spec(sorted, tags).take(
                    j as int,
                ).push(t@));
            }
            j = j + 1;
        }
        proof {
            assert(tags_spec(sorted, tags).take(tags.len() as int) =~= tags_spec(sorted, tags));
        }
        out
    }

    /// What the configuration stage sends: each registry in order, then the
    /// tags of every registry (each listing all tags, see `tags_spec`),
    /// then the end of configuration.
    pub fn configuration_messages(&self) -> (r: Vec<ClientboundConfigurationMessage>)
        ensures
            r@.len() == self@.sorted.len() + 2,
            forall|i: int|
                0 <= i < self@.sorted.len() ==> (#[trigger] r@[i] matches ClientboundConfigurationMessage::RegistryData(
                    d,
                ) && d@ == self@.sorted[i]),
            r@[self@.sorted.len() as int] matches ClientboundConfigurationMessage::UpdateTags(u) && u.tagged_registries@.len()
                == self@.sorted.len() && forall|i: int|
                0 <= i < self@.sorted.len() ==> #[trigger] u.tagged_registries@[i]@ == (
                    self@.sorted[i].0,
                    tags_spec(self@.sorted, self@.tags),
                ),
            r@[self@.sorted.len() + 1int] is FinishConfiguration,
    {
        let ghost sorted = self@.sorted;
        let mut out: Vec<ClientboundConfigurationMessage> = Vec::new();
        let mut tagged: Vec<TaggedRegistry> = Vec::new();
        let mut i: usize = 0;
        while i < self.sorted_registry.len()
            invariant
                i <= self.sorted_registry@.len(),
                sorted == self@.sorted,
                sorted == self.sorted_registry@.map_values(|d: SharedRegistryData| d@),
                out@.len() == i,
                tagged@.len() == i,
                forall|k: int|
                    0 <= k < i ==> (#[trigger] out@[k] matches ClientboundConfigurationMessage::RegistryData(
                        d,
                    ) && d@ == sorted[k]),
                forall|k: int|
                    0 <= k < i ==> #[trigger] tagged@[k]@ == (
                        sorted[k].0,
                        tags_spec(sorted, self@.tags),
                    ),
            decreases self.sorted_registry@.len() - i,
        {
            let data = &self.sorted_registry[i];
            let mut entries: Vec<RegistryEntry> = Vec::new();
            let mut k: usize = 0;
            while k < data.entries.len()
                invariant
                    k <= data.entries@.len(),
                    entries@.map_values(|e: RegistryEntry| e@) == data.entries@.take(
                        k as int,
                    ).map_values(|e: SharedRegistryEntry| e@),
                decreases data.entries@.len() - k,
            {
                let ghost before = entries@;
                let e = &data.entries[k];
                let entry = RegistryEntry { entry_id: e.entry_id.clone(), nbt: clone_nbt(&e.nbt) };
                entries.push(entry);
                proof {
                    let lhs = entries@.map_values(|e: RegistryEntry| e@);
                    let rhs = data.entries@.take(k + 1).map_values(|e: SharedRegistryEntry| e@);
                    let old_rhs = data.entries@.take(k as int).map_values(
                        |e: SharedRegistryEntry| e@,
                    );
                    assert(before.map_values(|e: RegistryEntry| e@).len() == before.len());
                    assert forall|m: int| 0 <= m <= k implies lhs[m] == rhs[m] by {
                        if m < k {
                            assert(lhs[m] == before[m]@);
                            assert(before.map_values(|e: RegistryEntry| e@)[m] == old_rhs[m]);
                            assert(old_rhs[m] == rhs[m]);
                        } else {
                            assert(lhs[m] == entry@);
                        }
                    }
                    assert(lhs =~= rhs);
                }
                k = k + 1;
            }
            proof {
                assert(data.entries@.take(data.entries@.len() as int) =~= data.entries@);
                assert(sorted[i as int] == data@);
            }
            let msg = ClientboundConfigurationMessage::RegistryData(
                RegistryData { registry_id: data.registry_id.clone(), entries },
            );
            out.push(msg);
            let tags = self.tag_list();
            tagged.push(TaggedRegistry { registry: data.registry_id.clone(), tags });
            i = i + 1;
        }
        out.push(
            ClientboundConfigurationMessage::UpdateTags(UpdateTags { tagged_registries: tagged }),
        );
        out.push(ClientboundConfigurationMessage::FinishConfiguration(FinishConfiguration {}));
        out
    }
}


/// The registries that the configuration stage sends, in order.
pub open spec fn necessary_registry_names() -> Seq<Seq<char>> {
    seq![
        "banner_pattern"@,
        "chat_type"@,
        "damage_type"@,
        "dimension_type"@,
        "instrument"@,
        "jukebox_song"@,
        "painting_variant"@,
        "test_environment"@,
        "test_instance"@,
        "timeline"@,
        "trim_material"@,
        "trim_pattern"@,
        "worldgen/biome"@,
        "cat_variant"@,
        "chicken_variant"@,
        "cow_variant"@,
        "frog_variant"@,
        "pig_variant"@,
        "wolf_variant"@,
        "wolf_sound_variant"@,
        "zombie_nautilus_variant"@,
    ]
}

/// The registries that the configuration stage sends, each in the
/// `minecraft` namespace (see `necessary_registry_names`).
pub fn necessary_registries() -> (r: Vec<Identifier>)
    ensures
        r@.len() == necessary_registry_names().len(),
        forall|i: int|
            0 <= i < r@.len() ==> #[trigger] r@[i]@ == ("minecraft"@, necessary_registry_names()[i]),
{
    let names = [
        "banner_pattern",
        "chat_type",
        "damage_type",
        "dimension_type",
        "instrument",
        "jukebox_song",
        "painting_variant",
        "test_environment",
        "test_instance",
        "timeline",
        "trim_material",
        "trim_pattern",
        "worldgen/biome",
        "cat_variant",
        "chicken_variant",
        "cow_variant",
        "frog_variant",
        "pig_variant",
        "wolf_variant",
        "wolf_sound_variant",
        "zombie_nautilus_variant",
    ];
    let ghost expected = necessary_registry_names();
    proof {
        assert(names@.map_values(|n: &str| n@) =~= expected);
    }
    let mut out: Vec<Identifier> = Vec::new();
    let mut i: usize = 0;
    while i < names.len()
        invariant
            i <= names@.len(),
            names@.map_values(|n: &str| n@) == expected,
            out@.len() == i,
            forall|k: int| 0 <= k < i ==> #[trigger] out@[k]@ == ("minecraft"@, expected[k]),
        decreases names@.len() - i,
    {
        let id = Identifier::new(names[i]);
        proof {
            assert(expected[i as int] == names@[i as int]@);
        }
        out.push(id);
        i = i + 1;
    }
    out
}

/// One directory entry of a registry's directory: its file name, whether
/// it is a directory, and the NBT that its contents convert to where they
/// could be read and converted.
pub struct RegistryFile {
    pub name: String,
    pub is_dir: bool,
    pub nbt: Option<NetworkNbt>,
}

/// The position of the last `.` among the first `n` characters.
pub open spec fn last_dot(name: Seq<char>, n: nat) -> Option<int>
    decreases n,
{
    if n == 0 {
        None
    } else if name[n - 1] == '.' {
        Some(n - 1)
    } else {
        last_dot(name, (n - 1) as nat)
    }
}

/// The stem of a file name whose extension is `json`. The extension is
/// what follows the last `.`, where that `.` is not the first character;
/// the stem is what precedes it.
pub open spec fn json_stem(name: Seq<char>) -> Option<Seq<char>> {
    match last_dot(name, name.len()) {
        Some(p) => if p > 0 && name.skip(p + 1) == "json"@ {
            Some(name.take(p))
        } else {
            None
        },
        None => None,
    }
}

/// The stem of a file name whose extension is `json` (see `json_stem`);
/// nothing for any other name.
pub fn json_file_stem(name: &str) -> (r: Option<&str>)
    ensures
        r is Some <==> json_stem(name@) is Some,
        r matches Some(st) ==> st@ == json_stem(name@)->0,
{
    let len = name.unicode_len();
    let mut i: usize = len;
    while i > 0 && name.get_char(i - 1) != '.'
        invariant
            i <= len,
            len == name@.len(),
            last_dot(name@, len as nat) == last_dot(name@, i as nat),
        decreases i,
    {
        i = i - 1;
    }
    if i <= 1 {
        return None;
    }
    let p = i - 1;
    proof {
        reveal_strlit("json");
    }
    let ext_ok = len - p == 5 && name.get_char(p + 1) == 'j' && name.get_char(p + 2) == 's'
        && name.get_char(p + 3) == 'o' && name.get_char(p + 4) == 'n';
    proof {
        let t = name@.skip(p + 1);
        if ext_ok {
            assert(t =~= "json"@);
        } else if t == "json"@ {
            assert(t.len() == 4);
            assert(t[0] == 'j' && t[1] == 's' && t[2] == 'o' && t[3] == 'n');
        }
    }
    if !ext_ok {
        return None;
    }
    Some(name.substring_char(0, p))
}

/// The entry that a file of registry `registry` defines: named by the
/// file's stem, in the registry's namespace, where the file is a `json`
/// file.
pub fn registry_entry_id(registry: &Identifier, name: &str) -> (r: Option<Identifier>)
    ensures
        r is Some <==> json_stem(name@) is Some,
        r matches Some(id) ==> id@ == (registry.namespace@, json_stem(name@)->0),
{
    match json_file_stem(name) {
        Some(stem) => Some(Identifier::with_namespace(registry.namespace.as_str(), stem)),
        None => None,
    }
}

/// The entries of registry `registry` from the first `n` directory
/// entries: each `json` file whose contents converted gives an entry, in
/// order; the others are passed over.
pub open spec fn registry_entries_spec(
    namespace: Seq<char>,
    files: Seq<(Seq<char>, bool, Option<Seq<u8>>)>,
    n: nat,
) -> Seq<RegistryEntryView>
    decreases n,
{
    if n == 0 {
        Seq::empty()
    } else {
        let prev = registry_entries_spec(namespace, files, (n - 1) as nat);
        let f = files[n - 1];
        if !f.1 && json_stem(f.0) is Some && f.2 is Some {
            prev.push(((namespace, json_stem(f.0)->0), f.2))
        } else {
            prev
        }
    }
}

pub open spec fn registry_files_view(files: Seq<RegistryFile>) -> Seq<
    (Seq<char>, bool, Option<Seq<u8>>),
> {
    files.map_values(|f: RegistryFile| (f.name@, f.is_dir, nbt_view(f.nbt)))
}

/// A registry from the entries of its directory (see
/// `registry_entries_spec`).
pub fn read_registry(identifier: &Identifier, files: Vec<RegistryFile>) -> (r: RegistryData)
    ensures
        r@ == (
            identifier@,
            registry_entries_spec(
                identifier.namespace@,
                registry_files_view(files@),
                files@.len(),
            ),
        ),
{
    let ghost fv = registry_files_view(files@);
    let mut entries: Vec<RegistryEntry> = Vec::new();
    let mut i: usize = 0;
    while i < files.len()
        invariant
            i <= files@.len(),
            fv == registry_files_view(files@),
            entries@.map_values(|e: RegistryEntry| e@) == registry_entries_spec(
                identifier.namespace@,
                fv,
                i as nat,
            ),
        decreases files@.len() - i,
    {
        let file = &files[i];
        let ghost before = entries@;
        if !file.is_dir {
            match registry_entry_id(identifier, file.name.as_str()) {
                None => {},
                Some(id) => match &file.nbt {
                    None => {},
                    Some(_) => {
                        let e = RegistryEntry { entry_id: id, nbt: clone_nbt(&file.nbt) };
                        entries.push(e);
                        proof {
                            assert(entries@.map_values(|e: RegistryEntry| e@) =~= before.map_values(
                                |e: RegistryEntry| e@,
                            ).push(e@));
                        }
                    },
                },
            }
        }
        i = i + 1;
    }
    RegistryData { registry_id: identifier.clone(), entries }
}


/// No identifier occurs twice.
pub open spec fn distinct_ids(keys: Seq<IdView>) -> bool {
    forall|i: int, j: int| 0 <= i < j < keys.len() ==> keys[i] != keys[j]
}

proof fn lemma_last_index_distinct(keys: Seq<IdView>, k: int)
    requires
        distinct_ids(keys),
        0 <= k < keys.len(),
    ensures
        last_index(keys, keys[k], keys.len()) == Some(k),
{
    lemma_last_index(keys, keys[k], keys.len());
    match last_index(keys, keys[k], keys.len()) {
        Some(q) => {
            if q != k {
                if q < k {
                    assert(keys[q] != keys[k]);
                } else {
                    assert(keys[k] != keys[q]);
                }
            }
        },
        None => {},
    }
}

/// Where registries and the entries of each have distinct identifiers,
/// looking an entry up by its registry's and its own identifier gives its
/// position.
pub proof fn lemma_entry_position_of_entry(sorted: Seq<RegistryDataView>, p: int, k: int)
    requires
        0 <= p < sorted.len(),
        0 <= k < sorted[p].1.len(),
        distinct_ids(registry_keys(sorted)),
        distinct_ids(entry_keys(sorted[p].1)),
    ensures
        entry_position(sorted, sorted[p].0, sorted[p].1[k].0) == Some(k),
{
    lemma_last_index_distinct(registry_keys(sorted), p);
    lemma_last_index_distinct(entry_keys(sorted[p].1), k);
}


/// Law: registries read, in order, from directories under distinct
/// identifiers, each directory with distinct file names, are kept in that
/// order; each is found at its position, and each of its entries at its own
/// position in it, while an identifier that names none of its entries finds
/// nothing.
pub proof fn lemma_discovered_layout(
    ids: Seq<IdView>,
    dirs: Seq<Seq<(Seq<char>, bool, Option<Seq<u8>>)>>,
    sorted: Seq<RegistryDataView>,
)
    requires
        ids.len() == dirs.len(),
        distinct_ids(ids),
        forall|d: int, a: int, b: int|
            0 <= d < dirs.len() && 0 <= a < b < dirs[d].len() ==> dirs[d][a].0 != dirs[d][b].0,
        sorted == Seq::new(
            ids.len(),
            |i: int| (ids[i], registry_entries_spec(ids[i].0, dirs[i], dirs[i].len())),
        ),
    ensures
        sorted.len() == ids.len(),
        forall|i: int| 0 <= i < ids.len() ==> #[trigger] sorted[i].0 == ids[i],
        forall|i: int| 0 <= i < ids.len() ==> #[trigger] registry_position(sorted, ids[i]) == Some(i),
        forall|i: int, j: int|
            0 <= i < ids.len() && 0 <= j < sorted[i].1.len() ==> #[trigger] entry_position(
                sorted,
                ids[i],
                sorted[i].1[j].0,
            ) == Some(j),
        forall|i: int, e: IdView|
            0 <= i < ids.len() && !entry_keys(sorted[i].1).contains(e) ==> #[trigger] entry_position(
                sorted,
                ids[i],
                e,
            ) is None,
{
    assert(registry_keys(sorted) =~= ids);
    assert forall|i: int| 0 <= i < ids.len() implies #[trigger] registry_position(sorted, ids[i])
        == Some(i) by {
        lemma_last_index_distinct(registry_keys(sorted), i);
    }
    assert forall|i: int, j: int| 0 <= i < ids.len() && 0 <= j < sorted[i].1.len() implies
        #[trigger] entry_position(sorted, ids[i], sorted[i].1[j].0) == Some(j) by {
        lemma_registry_entries_distinct(ids[i].0, dirs[i], dirs[i].len());
        lemma_entry_position_of_entry(sorted, i, j);
    }
    assert forall|i: int, e: IdView|
        0 <= i < ids.len() && !entry_keys(sorted[i].1).contains(e) implies #[trigger] entry_position(
        sorted,
        ids[i],
        e,
    ) is None by {
        lemma_last_index_distinct(registry_keys(sorted), i);
        let keys = entry_keys(sorted[i].1);
        lemma_last_index(keys, e, keys.len());
        if let Some(k) = last_index(keys, e, keys.len()) {
            assert(keys.contains(e));
        }
    }
}


proof fn lemma_last_dot(name: Seq<char>, n: nat)
    requires
        n <= name.len(),
    ensures
        last_dot(name, n) matches Some(p) ==> 0 <= p < n && name[p] == '.',
    decreases n,
{
    if n > 0 {
        lemma_last_dot(name, (n - 1) as nat);
    }
}

/// A `json` file's name is its stem followed by `.json`.
proof fn lemma_json_stem_name(name: Seq<char>)
    ensures
        json_stem(name) matches Some(st) ==> name == st + ".json"@,
{
    lemma_last_dot(name, name.len());
    if let Some(st) = json_stem(name) {
        let p = last_dot(name, name.len())->0;
        reveal_strlit(".json");
        reveal_strlit("json");
        assert(name.skip(p + 1) == "json"@);
        assert(name =~= st + ".json"@) by {
            assert(".json"@.len() == 5);
            assert("json"@.len() == 4);
            assert(name.skip(p + 1).len() == 4);
            assert(name.len() == p + 5);
            assert forall|i: int| 0 <= i < name.len() implies name[i] == (st + ".json"@)[i] by {
                if i < p {
                    assert((st + ".json"@)[i] == st[i]);
                } else if i == p {
                    assert((st + ".json"@)[i] == ".json"@[0]);
                } else {
                    assert(name[i] == name.skip(p + 1)[i - p - 1]);
                    assert((st + ".json"@)[i] == ".json"@[i - p]);
                    assert(".json"@[i - p] == "json"@[i - p - 1]);
                }
            }
        }
    }
}

/// `key` is the identifier of an entry that one of the first `n` files
/// defines.
pub open spec fn from_json_file(
    namespace: Seq<char>,
    files: Seq<(Seq<char>, bool, Option<Seq<u8>>)>,
    n: nat,
    key: IdView,
) -> bool {
    exists|j: int|
        0 <= j < n && #[trigger] json_stem(files[j].0) is Some && key == (
            namespace,
            json_stem(files[j].0)->0,
        )
}

/// Law: the entries read from a directory whose file names are distinct
/// have distinct identifiers, so that each is found again at its position
/// (see `lemma_entry_position_of_entry`).
pub proof fn lemma_registry_entries_distinct(
    namespace: Seq<char>,
    files: Seq<(Seq<char>, bool, Option<Seq<u8>>)>,
    n: nat,
)
    requires
        n <= files.len(),
        forall|i: int, j: int| 0 <= i < j < files.len() ==> files[i].0 != files[j].0,
    ensures
        distinct_ids(entry_keys(registry_entries_spec(namespace, files, n))),
        forall|i: int|
            0 <= i < registry_entries_spec(namespace, files, n).len() ==> from_json_file(
                namespace,
                files,
                n,
                #[trigger] registry_entries_spec(namespace, files, n)[i].0,
            ),
    decreases n,
{
    if n > 0 {
        lemma_registry_entries_distinct(namespace, files, (n - 1) as nat);
        let prev = registry_entries_spec(namespace, files, (n - 1) as nat);
        let f = files[n - 1];
        let cur = registry_entries_spec(namespace, files, n);
        assert forall|i: int| 0 <= i < prev.len() implies from_json_file(
            namespace,
            files,
            n,
            #[trigger] prev[i].0,
        ) by {
            assert(from_json_file(namespace, files, (n - 1) as nat, prev[i].0));
            let j = choose|j: int|
                0 <= j < (n - 1) as nat && #[trigger] json_stem(files[j].0) is Some && prev[i].0 == (
                    namespace,
                    json_stem(files[j].0)->0,
                );
            assert(0 <= j < n && json_stem(files[j].0) is Some);
        }
        if !f.1 && json_stem(f.0) is Some && f.2 is Some {
            let key = (namespace, json_stem(f.0)->0);
            assert(cur == prev.push((key, f.2)));
            assert forall|i: int| 0 <= i < prev.len() implies prev[i].0 != key by {
                assert(from_json_file(namespace, files, (n - 1) as nat, prev[i].0));
                let j = choose|j: int|
                    0 <= j < (n - 1) as nat && #[trigger] json_stem(files[j].0) is Some && prev[i].0
                        == (namespace, json_stem(files[j].0)->0);
                lemma_json_stem_name(files[j].0);
                lemma_json_stem_name(f.0);
                assert(files[j].0 != f.0);
            }
            assert forall|a: int, b: int|
                0 <= a < b < cur.len() implies entry_keys(cur)[a] != entry_keys(cur)[b] by {
                if b == prev.len() {
                    assert(entry_keys(cur)[a] == prev[a].0);
                } else {
                    assert(entry_keys(prev)[a] != entry_keys(prev)[b]);
                }
            }
            assert forall|i: int| 0 <= i < cur.len() implies from_json_file(
                namespace,
                files,
                n,
                #[trigger] cur[i].0,
            ) by {
                if i < prev.len() {
                    assert(cur[i] == prev[i]);
                } else {
                    assert(json_stem(files[n - 1].0) is Some);
                }
            }
        }
    }
}

} // verus!
