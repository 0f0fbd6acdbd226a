use mag::data::MinecraftTagData;
use mag::merge::merge;
use mag::tag::{Error, MinecraftTag, MinecraftTagValue};

fn components(parts: &[&str]) -> Vec<String> {
    parts.iter().map(|p| String::from(*p)).collect()
}

fn record(namespace: &str, tag_type: &str, tag_name: &str, ids: &[&str]) -> MinecraftTagData {
    MinecraftTagData {
        namespace: String::from(namespace),
        tag_type: String::from(tag_type),
        tag_name: String::from(tag_name),
        tag_data: MinecraftTag::new(
            false,
            ids.iter().map(|id| MinecraftTagValue::Plain(String::from(*id))).collect(),
        ),
    }
}

#[test]
fn discovers_a_record_on_the_convention_path() {
    let parts = components(&["data", "minecraft", "tags", "items", "arrows.json"]);
    let body = "{\"values\": [\"minecraft:arrow\"]}";
    let found = MinecraftTagData::try_new(&parts, body).unwrap();
    assert_eq!(found.namespace, "minecraft");
    assert_eq!(found.tag_type, "items");
    assert_eq!(found.tag_name, "arrows");
    assert_eq!(found.tag_data.flatten_value(), vec![String::from("minecraft:arrow")]);
}

#[test]
fn joins_nested_name_components() {
    let parts = components(&["mod.jar", "data", "ns", "tags", "blocks", "sub", "ores.json"]);
    let body = "{\"values\": []}";
    let found = MinecraftTagData::try_new(&parts, body).unwrap();
    assert_eq!(found.namespace, "ns");
    assert_eq!(found.tag_type, "blocks");
    assert_eq!(found.tag_name, "sub/ores");
}

#[test]
fn rejects_a_path_without_the_data_segment() {
    let parts = components(&["other", "minecraft", "tags", "items", "arrows.json"]);
    let body = "{\"values\": [\"minecraft:arrow\"]}";
    match MinecraftTagData::try_new(&parts, body) {
        Err(Error::IllegalDirectoryStructure(p)) => {
            assert_eq!(p, "other/minecraft/tags/items/arrows.json");
        },
        _ => panic!("a path without the data segment must yield no record"),
    }
}

#[test]
fn rejects_a_path_without_the_tags_segment() {
    let parts = components(&["data", "minecraft", "items", "arrows.json"]);
    assert!(MinecraftTagData::try_new(&parts, "{\"values\": []}").is_err());
}

#[test]
fn rejects_a_file_that_is_no_tag_document() {
    let parts = components(&["data", "minecraft", "tags", "items", "arrows.json"]);
    match MinecraftTagData::try_new(&parts, "not json at all") {
        Err(Error::Serde(_)) => {},
        _ => panic!("a malformed body must yield no record"),
    }
}

#[test]
fn rejects_a_wrong_extension() {
    let parts = components(&["data", "minecraft", "tags", "items", "arrows.mcmeta"]);
    assert!(MinecraftTagData::try_new(&parts, "{\"values\": []}").is_err());
}

#[test]
fn merges_two_sources_into_a_sorted_union() {
    let a = record(
        "minecraft",
        "items",
        "arrows",
        &["minecraft:arrow", "minecraft:spectral_arrow"],
    );
    let b = record("minecraft", "items", "arrows", &["minecraft:arrow", "minecraft:tipped_arrow"]);
    let merged = merge(vec![vec![a], vec![b]]);
    assert_eq!(merged.len(), 1);
    assert_eq!(merged[0].namespace, "minecraft");
    assert_eq!(merged[0].tag_type, "items");
    assert_eq!(merged[0].tag_name, "arrows");
    assert_eq!(
        merged[0].tag_data.flatten_value(),
        vec![
            String::from("minecraft:arrow"),
            String::from("minecraft:spectral_arrow"),
            String::from("minecraft:tipped_arrow"),
        ]
    );
}

#[test]
fn deduplicates_complex_and_plain_of_one_identifier() {
    let mut a = record("ns", "items", "one", &[]);
    a.tag_data = MinecraftTag::new(
        false,
        vec![
            MinecraftTagValue::Complex { id: String::from("x"), required: true },
            MinecraftTagValue::Plain(String::from("x")),
        ],
    );
    let merged = merge(vec![vec![a]]);
    assert_eq!(merged.len(), 1);
    assert_eq!(merged[0].tag_data.flatten_value(), vec![String::from("x")]);
    assert_eq!(
        merged[0].tag_data.values,
        vec![MinecraftTagValue::Plain(String::from("x"))]
    );
}

#[test]
fn groups_ignore_the_tag_type() {
    let a = record("ns", "items", "same", &["a"]);
    let b = record("ns", "blocks", "same", &["b"]);
    let merged = merge(vec![vec![a], vec![b]]);
    assert_eq!(merged.len(), 1);
    assert_eq!(merged[0].tag_type, "items");
    assert_eq!(
        merged[0].tag_data.flatten_value(),
        vec![String::from("a"), String::from("b")]
    );
}

#[test]
fn distinct_groups_keep_first_occurrence_order() {
    let a = record("ns", "items", "second", &["2"]);
    let b = record("ns", "items", "first", &["1"]);
    let c = record("ns", "items", "second", &["3"]);
    let merged = merge(vec![vec![a, b], vec![c]]);
    assert_eq!(merged.len(), 2);
    assert_eq!(merged[0].tag_name, "second");
    assert_eq!(merged[0].tag_data.flatten_value(), vec![String::from("2"), String::from("3")]);
    assert_eq!(merged[1].tag_name, "first");
}

#[test]
fn merge_clears_the_replace_flag() {
    let mut a = record("ns", "items", "one", &["a"]);
    a.tag_data.replace = true;
    let merged = merge(vec![vec![a]]);
    assert!(!merged[0].tag_data.replace);
}

#[test]
fn merging_nothing_yields_an_empty_catalog() {
    assert_eq!(merge(Vec::new()), Vec::new());
    assert_eq!(merge(vec![Vec::new(), Vec::new()]), Vec::new());
}

#[test]
fn rejects_a_dot_json_file_without_a_stem() {
    let parts = components(&["data", "minecraft", "tags", "items", ".json"]);
    assert!(MinecraftTagData::try_new(&parts, "{\"values\": []}").is_err());
}

#[test]
fn an_empty_tag_name_is_kept() {
    let parts = components(&["data", "ns", "tags", "items.json"]);
    let found = MinecraftTagData::try_new(&parts, "{\"values\": []}").unwrap();
    assert_eq!(found.namespace, "ns");
    assert_eq!(found.tag_type, "items.json");
    assert_eq!(found.tag_name, "");
}

#[test]
fn merge_is_idempotent_on_a_concrete_source() {
    let a = record("minecraft", "items", "arrows", &["minecraft:spectral_arrow", "minecraft:arrow"]);
    let b = record("minecraft", "blocks", "arrows", &["minecraft:arrow", "minecraft:tipped_arrow"]);
    let c = record("other", "items", "arrows", &["other:bolt"]);
    let once = merge(vec![vec![a, b], vec![c]]);
    let again = merge(vec![once.clone()]);
    assert_eq!(once, again);
}
