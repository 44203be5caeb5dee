use rosten::items::{build_item, parse_u32, rarity_from_code, ItemRarity};

#[test]
fn parse_u32_reads_decimal_digits() {
    assert_eq!(parse_u32(&vec![0x31, 0x32, 0x33]), Some(123));
    assert_eq!(parse_u32(&vec![0x30]), Some(0));
    assert_eq!(parse_u32(&vec![0x34, 0x32, 0x39, 0x34, 0x39, 0x36, 0x37, 0x32, 0x39, 0x35]),
        Some(4294967295));
}

#[test]
fn parse_u32_rejects_bad_input() {
    assert_eq!(parse_u32(&vec![]), None);
    assert_eq!(parse_u32(&vec![0x31, 0x2E, 0x35]), None); // "1.5"
    assert_eq!(parse_u32(&vec![0x2D, 0x31]), None); // "-1"
    // one past the largest value
    assert_eq!(parse_u32(&vec![0x34, 0x32, 0x39, 0x34, 0x39, 0x36, 0x37, 0x32, 0x39, 0x36]),
        None);
}

#[test]
fn rarity_codes_map_in_order() {
    assert_eq!(rarity_from_code(0), ItemRarity::Common);
    assert_eq!(rarity_from_code(1), ItemRarity::Uncommon);
    assert_eq!(rarity_from_code(2), ItemRarity::Rare);
    assert_eq!(rarity_from_code(3), ItemRarity::Epic);
    assert_eq!(rarity_from_code(4), ItemRarity::Legendary);
    assert_eq!(rarity_from_code(99), ItemRarity::Common);
}

#[test]
fn item_defaults_fill_missing_fields() {
    let item = build_item(None, None, 2, 0);
    assert_eq!(item.name, "Unnamed Item".to_string());
    assert_eq!(item.rarity, ItemRarity::Rare);
    // a zero stack size becomes one
    assert_eq!(item.stack_size, 1);
    assert!(item.texture.is_none());

    let named = build_item(Some(String::from("Sword")), None, 0, 16);
    assert_eq!(named.name, "Sword".to_string());
    assert_eq!(named.stack_size, 16);
}
