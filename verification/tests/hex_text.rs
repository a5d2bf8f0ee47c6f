use storage_keys::storage_key::to_hex_string;

#[test]
fn hex_of_a_few_bytes() {
    assert_eq!(to_hex_string(vec![1, 2, 3, 15, 16]), "0102030f10");
    assert_eq!(to_hex_string(vec![]), "");
    assert_eq!(to_hex_string(vec![0xff, 0x00, 0xab]), "ff00ab");
}
