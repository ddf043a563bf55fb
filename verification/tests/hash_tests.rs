use ply_engine::engine::{
    hash_data_scalar, hash_number, hash_string, hash_string_contents_with_config,
    hash_string_with_offset,
};

#[test]
fn hash_string_known_values() {
    assert_eq!(hash_string("a", 0).id, 3392050243);
    assert_eq!(hash_string("b", 0).id, 14385564);
    assert_eq!(hash_string("c", 0).id, 4005191002);
    assert_eq!(hash_string("btn", 0).id, 3528212388);
    assert_eq!(hash_string("Ply__RootContainer", 0).id, 133931054);
}

#[test]
fn hash_string_records_label_and_base() {
    let id = hash_string("btn", 0);
    assert_eq!(id.base_id, id.id);
    assert_eq!(id.offset, 0);
    assert_eq!(id.string_id.text, "btn");
}

#[test]
fn hash_string_empty_label_with_seed() {
    assert_eq!(hash_string("", 7).id, 2064448);
}

#[test]
fn hash_string_with_offset_known_values() {
    let id = hash_string_with_offset("item", 3, 0);
    assert_eq!(id.id, 2330664519);
    assert_eq!(id.base_id, 3551748293);
    assert_eq!(id.offset, 3);
    assert_eq!(id.string_id.text, "item");
}

#[test]
fn offset_hash_base_is_label_hash() {
    for offset in [0u32, 1, 2, 17, 1000] {
        let with_offset = hash_string_with_offset("row", offset, 42);
        let plain = hash_string("row", 42);
        assert_eq!(with_offset.base_id, plain.id);
    }
    assert_ne!(hash_string_with_offset("row", 1, 0).id, hash_string_with_offset("row", 2, 0).id);
}

#[test]
fn hash_number_known_values() {
    let id = hash_number(0, 0);
    assert_eq!(id.id, 1849449580);
    assert_eq!(id.base_id, 0);
    let id = hash_number(1, 12345);
    assert_eq!(id.id, 2365951066);
    assert_eq!(id.offset, 1);
    assert_eq!(id.base_id, 12345);
    assert_eq!(id.string_id.text, "");
}

#[test]
fn hash_data_scalar_known_value() {
    assert_eq!(hash_data_scalar(b"hello"), 119065406457763331);
    assert_eq!(hash_data_scalar(b""), 0);
}

#[test]
fn text_config_hash_known_value() {
    assert_eq!(hash_string_contents_with_config("hello world", "fonts/lexend.ttf", 24, 2), 3857325604);
    assert_ne!(
        hash_string_contents_with_config("hello world", "fonts/lexend.ttf", 24, 2),
        hash_string_contents_with_config("hello world", "fonts/lexend.ttf", 25, 2)
    );
}
