use tlb_serial::cell::CellSerialize;
use tlb_serial::text::write_directive;
use tlb_serial::ton::{Address, Coins, CurrencyCollection};
use tlb_serial::varuint::{byte_length, encode_varuint16};

fn strings(items: &[&str]) -> Vec<String> {
    items.iter().map(|s| s.to_string()).collect()
}

#[test]
fn coins_zero_writes_empty_value() {
    assert_eq!(Coins(0).serialize(), strings(&["u 0 4bit", "u 0 0bit"]));
}

#[test]
fn currency_collection_appends_trailing_bit() {
    let c = CurrencyCollection::default();
    assert_eq!(c.serialize(), strings(&["u 0 4bit", "u 0 0bit", "u 0 1bit"]));
}

#[test]
fn currency_collection_with_amount() {
    let c = CurrencyCollection { grams: Coins(1_000_000_000) };
    assert_eq!(
        c.serialize(),
        strings(&["u 4 4bit", "u 1000000000 32bit", "u 0 1bit"])
    );
}

#[test]
fn bool_leaves() {
    assert_eq!(true.serialize(), strings(&["u 1 1bit"]));
    assert_eq!(false.serialize(), strings(&["u 0 1bit"]));
}

#[test]
fn integer_leaves() {
    assert_eq!(7u8.serialize(), strings(&["u 7 8bit"]));
    assert_eq!(255u8.serialize(), strings(&["u 255 8bit"]));
    assert_eq!(4_000_000_000u32.serialize(), strings(&["u 4000000000 32bit"]));
    assert_eq!(10001u64.serialize(), strings(&["u 10001 64bit"]));
    assert_eq!(
        u128::MAX.serialize(),
        strings(&["u 340282366920938463463374607431768211455 128bit"])
    );
}

#[test]
fn address_layout() {
    let a = Address { workchain: 255, hash_high: 1, hash_low: 2 };
    assert_eq!(
        a.serialize(),
        strings(&["u 4 3bit", "u 255 8bit", "u 1 128bit", "u 2 128bit"])
    );
    assert_eq!(
        Address::default().serialize(),
        strings(&["u 4 3bit", "u 0 8bit", "u 0 128bit", "u 0 128bit"])
    );
}

#[test]
fn directive_text() {
    assert_eq!(write_directive(0, 0), "u 0 0bit");
    assert_eq!(write_directive(3134984594, 32), "u 3134984594 32bit");
    assert_eq!(write_directive(10, 100), "u 10 100bit");
}

#[test]
fn varuint_byte_counts_are_minimal() {
    assert_eq!(byte_length(0), 0);
    assert_eq!(byte_length(1), 1);
    assert_eq!(byte_length(255), 1);
    assert_eq!(byte_length(256), 2);
    assert_eq!(byte_length(65535), 2);
    assert_eq!(byte_length(65536), 3);
    assert_eq!(byte_length(u128::MAX), 16);
}

#[test]
fn varuint_encodings() {
    assert_eq!(encode_varuint16(255), Some(strings(&["u 1 4bit", "u 255 8bit"])));
    assert_eq!(encode_varuint16(256), Some(strings(&["u 2 4bit", "u 256 16bit"])));
    let largest = (1u128 << 120) - 1;
    assert_eq!(
        encode_varuint16(largest),
        Some(vec!["u 15 4bit".to_string(), format!("u {} 120bit", largest)])
    );
}

#[test]
fn varuint_overflow_is_refused() {
    assert_eq!(encode_varuint16(1u128 << 120), None);
    assert_eq!(encode_varuint16(u128::MAX), None);
}

#[test]
fn serialize_twice_gives_same_directives() {
    let c = CurrencyCollection { grams: Coins(77) };
    assert_eq!(c.serialize(), c.serialize());
    let a = Address { workchain: 1, hash_high: 2, hash_low: 3 };
    assert_eq!(a.serialize(), a.serialize());
}
