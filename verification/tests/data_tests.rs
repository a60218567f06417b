use bedwars::blocks::{last_segment, plan_block, plan_blocks, BlockEntry, BlockEntryState};
use bedwars::casing::{capitalize, parse_i64, process_field, to_pascal_case, words_pascal_case};
use bedwars::chunk::{AirIds, Chunk};
use bedwars::identifier::Identifier;
use bedwars::messages::{ClientboundConfigurationMessage, NetworkNbt, RegistryData, RegistryEntry};
use bedwars::nbt::{json_to_nbt, registry_entry_nbt, JsonNumber, JsonValue, NbtValue, RegistryDataError};
use bedwars::palette::{HasData, HasDataKind, Indirect, PaletteFormat, PaletteFormatKind, PalettedContainer};
use bedwars::registry::{
    necessary_registries, read_registry, registry_entry_id, Registry, RegistryFile, WithSortOrder,
};
use bedwars::tag::{
    collect_tags, load_tags, parse_tag_value, resolve, tag_file_values, tag_path, MaybeIdentifier, TagFile,
};
use bedwars::varint::VarInt;
use bedwars::world::World;

fn strings(items: &[&str]) -> Vec<String> {
    items.iter().map(|s| s.to_string()).collect()
}

fn ids_text(ids: &[Identifier]) -> Vec<String> {
    ids.iter().map(|i| i.to_string()).collect()
}

fn tag_file(path: &[&str], values: &[&str]) -> TagFile {
    TagFile { path: strings(path), values: strings(values) }
}

fn find<'a>(tags: &'a [(Identifier, Vec<Identifier>)], name: &str) -> &'a Vec<Identifier> {
    &tags.iter().find(|(k, _)| k.to_string() == name).unwrap().1
}

#[test]
fn tag_values_parse_as_references_or_identifiers() {
    match parse_tag_value("#minecraft:logs") {
        MaybeIdentifier::Reference(r) => assert_eq!(r, "minecraft:logs"),
        _ => panic!("expected a reference"),
    }
    match parse_tag_value("oak_log") {
        MaybeIdentifier::Identifier(id) => assert_eq!(id.to_string(), "minecraft:oak_log"),
        _ => panic!("expected an identifier"),
    }
    match parse_tag_value("mod:thing") {
        MaybeIdentifier::Identifier(id) => assert_eq!(id.to_string(), "mod:thing"),
        _ => panic!("expected an identifier"),
    }
    assert_eq!(resolve("logs").to_string(), "minecraft:logs");
}

#[test]
fn tag_path_skips_registry_and_extension() {
    assert_eq!(tag_path(&strings(&["block", "mineable", "axe.json"])), Some("mineable/axe".to_string()));
    assert_eq!(tag_path(&strings(&["item", "logs.json"])), Some("logs".to_string()));
    assert_eq!(tag_path(&strings(&["item", "a.json.json"])), Some("a".to_string()));
    assert_eq!(tag_path(&Vec::new()), None);
}

#[test]
fn collect_tags_later_file_replaces_earlier() {
    let files = vec![
        tag_file(&["block", "a.json"], &["stone"]),
        tag_file(&["item", "a.json"], &["dirt", "#b"]),
    ];
    let raw = collect_tags("minecraft", &files);
    assert_eq!(raw.len(), 1);
    assert_eq!(raw[0].0.to_string(), "minecraft:a");
    assert_eq!(raw[0].1.len(), 2);
}

#[test]
fn load_tags_expands_references() {
    let files = vec![
        tag_file(&["block", "logs.json"], &["oak_log", "#minecraft:planks", "birch_log"]),
        tag_file(&["block", "planks.json"], &["oak_planks", "oak_log"]),
    ];
    let tags = load_tags("minecraft", &files);
    assert_eq!(tags.len(), 2);
    assert_eq!(
        ids_text(find(&tags, "minecraft:logs")),
        strings(&["minecraft:oak_log", "minecraft:oak_planks", "minecraft:birch_log"])
    );
    assert_eq!(ids_text(find(&tags, "minecraft:planks")), strings(&["minecraft:oak_planks", "minecraft:oak_log"]));
}

#[test]
fn load_tags_plain_tag_drops_repeats() {
    let files = vec![tag_file(&["item", "x.json"], &["a", "b", "a", "c", "b"])];
    let tags = load_tags("minecraft", &files);
    assert_eq!(ids_text(find(&tags, "minecraft:x")), strings(&["minecraft:a", "minecraft:b", "minecraft:c"]));
}

#[test]
fn load_tags_cycle_and_missing_reference_expand_to_nothing() {
    let files = vec![
        tag_file(&["block", "a.json"], &["one", "#b"]),
        tag_file(&["block", "b.json"], &["two", "#a", "#missing"]),
    ];
    let tags = load_tags("minecraft", &files);
    assert_eq!(ids_text(find(&tags, "minecraft:a")), strings(&["minecraft:one", "minecraft:two"]));
    assert_eq!(ids_text(find(&tags, "minecraft:b")), strings(&["minecraft:two"]));
    assert_eq!(find(&tags, "minecraft:missing").len(), 0);
}

#[test]
fn pascal_case_of_snake_case_names() {
    assert_eq!(to_pascal_case("acacia_button"), "AcaciaButton");
    assert_eq!(to_pascal_case("age_15"), "AgeFifteen");
    assert_eq!(to_pascal_case("42"), "FortyTwo");
    assert_eq!(to_pascal_case("-1"), "MinusOne");
    assert_eq!(to_pascal_case(""), "");
    assert_eq!(to_pascal_case("a__b"), "AB");
    assert_eq!(words_pascal_case("one hundred and five"), "OneHundredAndFive");
    assert_eq!(capitalize("éclair"), "Éclair");
    assert_eq!(capitalize(""), "");
}

#[test]
fn parse_i64_follows_std() {
    for s in ["0", "-12", "+5", "", "-", "+", "1a", " 1", "9223372036854775807", "9223372036854775808",
        "-9223372036854775808", "-9223372036854775809", "007"] {
        assert_eq!(parse_i64(s), s.parse::<i64>().ok(), "{}", s);
    }
}

#[test]
fn process_field_renames_type() {
    assert_eq!(process_field("type"), "kind");
    assert_eq!(process_field("facing"), "facing");
}

fn num(v: i64) -> JsonValue {
    if v >= 0 {
        JsonValue::Number(JsonNumber::PosInt(v as u64))
    } else {
        JsonValue::Number(JsonNumber::NegInt(v))
    }
}

#[test]
fn json_numbers_become_int_or_long() {
    assert!(matches!(json_to_nbt(&num(5)), Ok(NbtValue::Int(5))));
    assert!(matches!(json_to_nbt(&num(-5)), Ok(NbtValue::Int(-5))));
    assert!(matches!(json_to_nbt(&num(3_000_000_000)), Ok(NbtValue::Long(3_000_000_000))));
    assert!(matches!(
        json_to_nbt(&JsonValue::Number(JsonNumber::PosInt(u64::MAX))),
        Err(RegistryDataError::InvalidJson)
    ));
    let bits = 1.5f64.to_bits();
    assert!(matches!(json_to_nbt(&JsonValue::Number(JsonNumber::Float(bits))), Ok(NbtValue::Double(b)) if b == bits));
}

#[test]
fn json_null_is_invalid_and_bool_is_byte() {
    assert!(matches!(json_to_nbt(&JsonValue::Null), Err(RegistryDataError::InvalidJson)));
    assert!(matches!(json_to_nbt(&JsonValue::Bool(true)), Ok(NbtValue::Byte(1))));
    assert!(matches!(json_to_nbt(&JsonValue::Bool(false)), Ok(NbtValue::Byte(0))));
}

#[test]
fn json_arrays_become_int_arrays_long_arrays_or_lists() {
    assert!(matches!(json_to_nbt(&JsonValue::Array(vec![])), Ok(NbtValue::List(l)) if l.is_empty()));
    match json_to_nbt(&JsonValue::Array(vec![num(1), num(-2)])) {
        Ok(NbtValue::IntArray(v)) => assert_eq!(v, vec![1, -2]),
        other => panic!("{:?}", other),
    }
    match json_to_nbt(&JsonValue::Array(vec![num(1), num(5_000_000_000)])) {
        Ok(NbtValue::LongArray(v)) => assert_eq!(v, vec![1, 5_000_000_000]),
        other => panic!("{:?}", other),
    }
    match json_to_nbt(&JsonValue::Array(vec![num(1), JsonValue::String("x".to_string())])) {
        Ok(NbtValue::List(v)) => assert_eq!(v.len(), 2),
        other => panic!("{:?}", other),
    }
    assert!(matches!(
        json_to_nbt(&JsonValue::Array(vec![num(1), JsonValue::Number(JsonNumber::PosInt(u64::MAX))])),
        Err(RegistryDataError::InvalidJson)
    ));
}

#[test]
fn registry_entry_needs_an_object() {
    assert!(matches!(registry_entry_nbt(&num(1)), Err(RegistryDataError::InvalidJson)));
    let obj = JsonValue::Object(vec![
        ("a".to_string(), num(1)),
        ("b".to_string(), JsonValue::String("s".to_string())),
        ("a".to_string(), num(2)),
    ]);
    match registry_entry_nbt(&obj) {
        Ok(NbtValue::Compound(entries)) => {
            assert_eq!(entries.len(), 2);
            assert!(entries.iter().any(|(k, v)| k == "a" && matches!(v, NbtValue::Int(2))));
        }
        other => panic!("{:?}", other),
    }
    let bad = JsonValue::Object(vec![("n".to_string(), JsonValue::Null)]);
    assert!(matches!(registry_entry_nbt(&bad), Err(RegistryDataError::InvalidJson)));
}

#[test]
fn registry_entry_id_needs_json_extension() {
    let reg = Identifier::new("banner_pattern");
    assert_eq!(registry_entry_id(&reg, "base.json").unwrap().to_string(), "minecraft:base");
    assert_eq!(registry_entry_id(&reg, "a.b.json").unwrap().to_string(), "minecraft:a.b");
    assert!(registry_entry_id(&reg, ".json").is_none());
    assert!(registry_entry_id(&reg, "base.txt").is_none());
    assert!(registry_entry_id(&reg, "base").is_none());
}

fn nbt(bytes: &[u8]) -> Option<NetworkNbt> {
    Some(NetworkNbt { bytes: bytes.to_vec() })
}

#[test]
fn read_registry_keeps_converted_json_files_in_order() {
    let reg = Identifier::new("cat_variant");
    let files = vec![
        RegistryFile { name: "tabby.json".to_string(), is_dir: false, nbt: nbt(&[1]) },
        RegistryFile { name: "sub".to_string(), is_dir: true, nbt: None },
        RegistryFile { name: "notes.txt".to_string(), is_dir: false, nbt: nbt(&[9]) },
        RegistryFile { name: "broken.json".to_string(), is_dir: false, nbt: None },
        RegistryFile { name: "black.json".to_string(), is_dir: false, nbt: nbt(&[2]) },
    ];
    let data = read_registry(&reg, files);
    assert_eq!(data.registry_id.to_string(), "minecraft:cat_variant");
    let names: Vec<String> = data.entries.iter().map(|e| e.entry_id.to_string()).collect();
    assert_eq!(names, strings(&["minecraft:tabby", "minecraft:black"]));
    assert_eq!(data.entries[1].nbt.as_ref().unwrap().bytes, vec![2]);
}

#[test]
fn necessary_registries_list() {
    let regs = necessary_registries();
    assert_eq!(regs.len(), 21);
    assert_eq!(regs[0].to_string(), "minecraft:banner_pattern");
    assert_eq!(regs[12].to_string(), "minecraft:worldgen/biome");
    assert_eq!(regs[20].to_string(), "minecraft:zombie_nautilus_variant");
}

fn sample_registry() -> Registry {
    let data = vec![
        RegistryData::new(
            Identifier::new("a"),
            vec![
                RegistryEntry::new(Identifier::new("x"), nbt(&[1])),
                RegistryEntry::new(Identifier::new("y"), None),
            ],
        ),
        RegistryData::new(Identifier::new("b"), vec![RegistryEntry::new(Identifier::new("z"), nbt(&[3]))]),
    ];
    let files = vec![tag_file(&["block", "a.json"], &["y", "q", "x"]), tag_file(&["item", "t.json"], &["x"])];
    Registry::discover(&data, &files)
}

#[test]
fn registry_lookups_by_position() {
    let r = sample_registry();
    assert_eq!(r.sorted_registry().len(), 2);
    assert_eq!(r.tag_map().len(), 2);
    assert_eq!(r.reverse_sorted_registry(&Identifier::new("a"), &Identifier::new("y")), Some(1));
    assert_eq!(r.reverse_sorted_registry(&Identifier::new("b"), &Identifier::new("z")), Some(0));
    assert_eq!(r.reverse_sorted_registry(&Identifier::new("b"), &Identifier::new("x")), None);
    assert_eq!(r.reverse_sorted_registry(&Identifier::new("c"), &Identifier::new("x")), None);
    let e = r.registry_data(&Identifier::new("a"), &Identifier::new("x")).unwrap();
    assert_eq!(e.nbt.as_ref().unwrap().bytes, vec![1]);
}

#[test]
fn configuration_messages_send_registries_tags_and_finish() {
    let r = sample_registry();
    let msgs = r.configuration_messages();
    assert_eq!(msgs.len(), 4);
    match &msgs[0] {
        ClientboundConfigurationMessage::RegistryData(d) => {
            assert_eq!(d.registry_id.to_string(), "minecraft:a");
            assert_eq!(d.entries.len(), 2);
        }
        _ => panic!("expected registry data"),
    }
    match &msgs[2] {
        ClientboundConfigurationMessage::UpdateTags(u) => {
            assert_eq!(u.tagged_registries.len(), 2);
            for t in &u.tagged_registries {
                assert_eq!(t.tags.len(), 2);
                let a = t.tags.iter().find(|tag| tag.tag_name.to_string() == "minecraft:a").unwrap();
                let positions: Vec<i32> = a.entries.iter().map(|v| v.value()).collect();
                assert_eq!(positions, vec![1, 0]);
                let other = t.tags.iter().find(|tag| tag.tag_name.to_string() == "minecraft:t").unwrap();
                assert!(other.entries.is_empty());
            }
        }
        _ => panic!("expected update tags"),
    }
    assert!(matches!(msgs[3], ClientboundConfigurationMessage::FinishConfiguration(_)));
}

#[test]
fn with_sort_order_keeps_both() {
    let mut w = WithSortOrder::new(3, vec![1]);
    assert_eq!(w.sort_order(), 3);
    assert_eq!(*w.data(), vec![1]);
    w.data_mut().push(2);
    assert_eq!(*w.data(), vec![1, 2]);
    assert_eq!(w.sort_order(), 3);
}

const AIR: AirIds = AirIds { air: 0, cave_air: 12958, void_air: 12957 };
const STATES: u32 = 27914;

#[test]
fn world_has_nine_chunks_with_bedrock_floor() {
    let w = World::new(85, &AIR);
    assert_eq!(w.chunks.len(), 9);
    assert_eq!(w.chunks[0].0, (-1, -1));
    assert_eq!(w.chunks[4].0, (0, 0));
    assert_eq!(w.chunks[8].0, (1, 1));
    for (_, c) in &w.chunks {
        assert_eq!(c.sections.len(), 24);
        assert_eq!(c.sections[0].block_count, 256);
        assert_eq!(c.get(0, 0, 0, STATES, &AIR), 85);
        assert_eq!(c.get(15, 0, 15, STATES, &AIR), 85);
        assert_eq!(c.get(3, 1, 7, STATES, &AIR), 0);
    }
}

#[test]
fn chunk_set_then_get_counts_blocks() {
    let mut c = Chunk::empty();
    c.set(1, 20, 2, 7, &AIR);
    assert_eq!(c.get(1, 20, 2, STATES, &AIR), 7);
    assert_eq!(c.sections[1].block_count, 1);
    c.set(1, 20, 2, 0, &AIR);
    assert_eq!(c.sections[1].block_count, 0);
    assert_eq!(c.get(1, 20, 2, STATES, &AIR), 0);
}

#[test]
fn generated_chunk_reads_its_block_everywhere() {
    let c = Chunk::generate(9);
    assert_eq!(c.sections.len(), 24);
    assert_eq!(c.get(5, 300, 5, STATES, &AIR), 9);
}

#[test]
fn paletted_container_indirect_and_direct_reads() {
    let indirect = Indirect::new(4, vec![VarInt::new(10), VarInt::new(20)]);
    let mut data = HasData::new(HasDataKind::Indirect(indirect), 4096, PaletteFormatKind::Blocks);
    assert_eq!(data.data.len(), 256);
    data.data[0] = 0x10;
    let c = PalettedContainer::new(PaletteFormatKind::Blocks, PaletteFormat::HasData(data));
    assert_eq!(c.palette_value(0), 10);
    assert_eq!(c.palette_value(1), 20);

    let direct = HasData::new(HasDataKind::Direct, 4096, PaletteFormatKind::Blocks);
    assert_eq!(direct.data.len(), 1024);
    let mut d = PalettedContainer::new(PaletteFormatKind::Blocks, PaletteFormat::HasData(direct));
    d.set(5, 1234);
    assert_eq!(d.palette_value(5), 1234);
    assert_eq!(d.palette_value(4), 0);
    assert_eq!(d.palette_value_extend(5000), 0);
}

#[test]
fn single_value_container_reads_its_value() {
    let c = PalettedContainer::new(PaletteFormatKind::Biomes, PaletteFormat::SingleValue(VarInt::new(3)));
    assert_eq!(c.palette_value(100), 3);
}

#[test]
fn block_count_follows_non_air_blocks() {
    let mut c = Chunk::empty();
    c.set(0, 0, 0, 5, &AIR);
    c.set(1, 0, 0, 6, &AIR);
    c.set(0, 0, 0, 12958, &AIR);
    assert_eq!(c.sections[0].block_count, 1);
    c.set(1, 0, 0, 7, &AIR);
    assert_eq!(c.sections[0].block_count, 1);
    assert_eq!(c.get(1, 0, 0, STATES, &AIR), 7);
}

#[test]
fn nested_references_expand_fully() {
    let files = vec![
        tag_file(&["block", "a.json"], &["x", "#b"]),
        tag_file(&["block", "b.json"], &["#c", "y"]),
        tag_file(&["block", "c.json"], &["z", "x"]),
    ];
    let tags = load_tags("minecraft", &files);
    assert_eq!(ids_text(find(&tags, "minecraft:a")), strings(&["minecraft:x", "minecraft:z", "minecraft:y"]));
    assert_eq!(ids_text(find(&tags, "minecraft:b")), strings(&["minecraft:z", "minecraft:x", "minecraft:y"]));
    assert_eq!(ids_text(find(&tags, "minecraft:c")), strings(&["minecraft:z", "minecraft:x"]));
}

#[test]
fn get_reads_an_unknown_id_as_air() {
    let mut c = Chunk::empty();
    c.set(2, 3, 4, 30000, &AIR);
    assert_eq!(c.get(2, 3, 4, STATES, &AIR), 0);
    assert_eq!(c.get(2, 3, 4, 30001, &AIR), 30000);
}

fn jstr(s: &str) -> JsonValue {
    JsonValue::String(s.to_string())
}

#[test]
fn tag_file_values_keep_strings_of_the_values_list() {
    let obj = JsonValue::Object(vec![
        ("replace".to_string(), JsonValue::Bool(false)),
        ("values".to_string(), JsonValue::Array(vec![jstr("a"), num(3), jstr("#b")])),
    ]);
    assert_eq!(tag_file_values(&obj), strings(&["a", "#b"]));
    let no_list = JsonValue::Object(vec![("values".to_string(), jstr("a"))]);
    assert!(tag_file_values(&no_list).is_empty());
    let record = JsonValue::Array(vec![JsonValue::Array(vec![jstr("x"), jstr("y")])]);
    assert_eq!(tag_file_values(&record), strings(&["x", "y"]));
    let mixed = JsonValue::Array(vec![JsonValue::Array(vec![jstr("x"), num(1)])]);
    assert!(tag_file_values(&mixed).is_empty());
    assert!(tag_file_values(&jstr("values")).is_empty());
}

#[test]
fn collect_tags_skips_files_that_are_not_json() {
    let files = vec![
        tag_file(&["block", "notes.txt"], &["stone"]),
        tag_file(&["readme.md"], &["x"]),
        tag_file(&["block", ".json"], &["y"]),
        tag_file(&["block", "a.json"], &["dirt"]),
    ];
    let raw = collect_tags("minecraft", &files);
    assert_eq!(raw.len(), 1);
    assert_eq!(raw[0].0.to_string(), "minecraft:a");
}

#[test]
fn block_plan_names_types_fields_and_variants() {
    let entry = BlockEntry {
        properties: Some(vec![
            ("type".to_string(), strings(&["top", "bottom", "double"])),
            ("waterlogged".to_string(), strings(&["true", "false"])),
        ]),
        states: vec![BlockEntryState {
            id: 11,
            properties: Some(vec![
                ("type".to_string(), "double".to_string()),
                ("waterlogged".to_string(), "false".to_string()),
            ]),
        }],
    };
    let plan = plan_block("minecraft:acacia_slab", &entry);
    assert_eq!(plan.block_type, "AcaciaSlab");
    assert_eq!(plan.module_name, "acacia_slab");
    let props = plan.properties.unwrap();
    assert_eq!(props.len(), 2);
    assert_eq!(props[0].enum_name, "Type");
    assert_eq!(props[0].field_name, "kind");
    assert_eq!(props[0].variants, strings(&["Top", "Bottom", "Double"]));
    assert_eq!(props[1].enum_name, "Waterlogged");
    assert_eq!(props[1].field_name, "waterlogged");
    assert_eq!(props[1].variants, strings(&["True", "False"]));
    assert_eq!(plan.states.len(), 1);
    assert_eq!(plan.states[0].id, 11);
    let a = plan.states[0].assignments.as_ref().unwrap();
    assert_eq!(a[0].field_name, "kind");
    assert_eq!(a[0].enum_name, "Type");
    assert_eq!(a[0].variant_name, "Double");
    assert_eq!(a[1].variant_name, "False");
}

#[test]
fn block_plan_without_properties_and_numbered_values() {
    let air = BlockEntry { properties: None, states: vec![BlockEntryState { id: 0, properties: None }] };
    let crop = BlockEntry {
        properties: Some(vec![("age".to_string(), strings(&["0", "7"]))]),
        states: vec![BlockEntryState { id: 5, properties: Some(vec![("age".to_string(), "7".to_string())]) }],
    };
    let plans = plan_blocks(&vec![("minecraft:air".to_string(), air), ("wheat".to_string(), crop)]);
    assert_eq!(plans.len(), 2);
    assert_eq!(plans[0].block_type, "Air");
    assert!(plans[0].properties.is_none());
    assert!(plans[0].states[0].assignments.is_none());
    assert_eq!(plans[1].block_type, "Wheat");
    assert_eq!(plans[1].module_name, "wheat");
    assert_eq!(plans[1].properties.as_ref().unwrap()[0].variants, strings(&["Zero", "Seven"]));
    assert_eq!(plans[1].states[0].assignments.as_ref().unwrap()[0].variant_name, "Seven");
}

#[test]
fn last_segment_follows_the_last_colon() {
    assert_eq!(last_segment("minecraft:stone"), "stone");
    assert_eq!(last_segment("stone"), "stone");
    assert_eq!(last_segment("a:b:c"), "c");
    assert_eq!(last_segment("a:"), "");
}
