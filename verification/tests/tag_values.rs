use mag::tag::{MinecraftTag, MinecraftTagValue};

#[test]
fn plain_value_is_plain() {
    let v = MinecraftTagValue::Plain(String::from("minecraft:arrow"));
    assert!(v.is_plain());
    assert!(!v.is_tag());
}

#[test]
fn complex_value_is_not_plain() {
    let v = MinecraftTagValue::Complex { id: String::from("minecraft:arrow"), required: true };
    assert!(!v.is_plain());
    assert!(!v.is_tag());
}

#[test]
fn reference_value_is_tag() {
    let v = MinecraftTagValue::Plain(String::from("#minecraft:arrows"));
    assert!(v.is_tag());
    let c = MinecraftTagValue::Complex { id: String::from("#minecraft:arrows"), required: false };
    assert!(c.is_tag());
}

#[test]
fn empty_identifier_is_no_tag() {
    let v = MinecraftTagValue::Plain(String::new());
    assert!(!v.is_tag());
}

#[test]
fn to_plain_drops_the_required_flag() {
    let c = MinecraftTagValue::Complex { id: String::from("minecraft:arrow"), required: true };
    assert_eq!(c.to_plain(), MinecraftTagValue::Plain(String::from("minecraft:arrow")));
    let p = MinecraftTagValue::Plain(String::from("minecraft:arrow"));
    assert_eq!(p.to_plain(), p);
}

#[test]
fn flatten_value_lists_identifiers_in_order() {
    let tag = MinecraftTag::new(
        false,
        vec![
            MinecraftTagValue::Plain(String::from("b")),
            MinecraftTagValue::Complex { id: String::from("a"), required: false },
        ],
    );
    assert_eq!(tag.flatten_value(), vec![String::from("b"), String::from("a")]);
}

#[test]
fn parses_a_plain_tag_document() {
    let tag = MinecraftTag::try_new(
        "{\"values\": [\"minecraft:arrow\", \"minecraft:spectral_arrow\"]}",
    )
    .unwrap();
    assert!(!tag.replace);
    assert_eq!(
        tag.flatten_value(),
        vec![String::from("minecraft:arrow"), String::from("minecraft:spectral_arrow")]
    );
}

#[test]
fn parses_replace_and_complex_values() {
    let tag = MinecraftTag::try_new(
        "{\"replace\": true, \"values\": [{\"id\": \"minecraft:arrow\", \"required\": false}]}",
    )
    .unwrap();
    assert!(tag.replace);
    assert_eq!(
        tag.values,
        vec![MinecraftTagValue::Complex { id: String::from("minecraft:arrow"), required: false }]
    );
}

#[test]
fn unknown_keys_are_ignored() {
    let tag = MinecraftTag::try_new("{\"values\": [], \"comment\": 3}").unwrap();
    assert!(!tag.replace);
    assert!(tag.values.is_empty());
}

#[test]
fn rejects_text_that_is_not_json() {
    assert!(MinecraftTag::try_new("{values").is_err());
}

#[test]
fn rejects_a_document_that_is_no_object() {
    assert!(MinecraftTag::try_new("[1, 2]").is_err());
}

#[test]
fn rejects_a_missing_values_list() {
    assert!(MinecraftTag::try_new("{\"replace\": false}").is_err());
}

#[test]
fn rejects_a_non_boolean_replace() {
    assert!(MinecraftTag::try_new("{\"replace\": \"yes\", \"values\": []}").is_err());
}

#[test]
fn rejects_a_value_object_without_required() {
    assert!(MinecraftTag::try_new("{\"values\": [{\"id\": \"minecraft:arrow\"}]}").is_err());
}

#[test]
fn rejects_a_numeric_value_entry() {
    assert!(MinecraftTag::try_new("{\"values\": [7]}").is_err());
}
