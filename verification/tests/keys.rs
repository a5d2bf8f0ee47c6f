use frame_support::{Blake2_128Concat, Identity, StorageHasher, Twox128, Twox64Concat};
use storage_keys::codec::{encode, Primitive, ScalarValue};
use storage_keys::error::Error;
use storage_keys::hashing::{hash_bytes, HashKind};
use storage_keys::storage_key::{
    anchor_bytes, build_key, to_hex_string, KeyParam, StorageKeyRequest,
};
use storage_keys::{
    gen_param_hash, get_storage_key_for_double_map, get_storage_key_for_map,
    get_storage_key_for_value,
};

fn u32_bytes(n: u32) -> Vec<u8> {
    encode(ScalarValue::Plain(Primitive::UInt32(n)))
}

fn param(bytes: &[u8], hasher: HashKind) -> KeyParam {
    KeyParam { bytes: bytes.to_vec(), hasher }
}

fn unhex(text: &str) -> Vec<u8> {
    hex::decode(text).unwrap()
}

#[test]
fn the_prefix_hash_is_the_two_seed_xx_hash() {
    assert_eq!(hash_bytes(HashKind::Prefix128, b"Sudo"), unhex("5c0d1176a568c1f92944340dbfed9e9c"));
    assert_eq!(hash_bytes(HashKind::Prefix128, b"Key"), unhex("530ebca703c85910e7164cb7d1c9e47b"));
    assert_eq!(hash_bytes(HashKind::Prefix128, b""), unhex("99e9d85137db46ef4bbea33613baafd5"));
    assert_eq!(
        hash_bytes(HashKind::Prefix128, &[1, 0, 0, 0]),
        unhex("5153cb1f00942ff482c3dd0c442b6044")
    );
}

#[test]
fn the_concatenating_hashers_keep_the_bytes_behind_the_hash() {
    assert_eq!(
        hash_bytes(HashKind::Concat64, &[1, 0, 0, 0]),
        unhex("5153cb1f00942ff401000000")
    );
    assert_eq!(
        hash_bytes(HashKind::Concat64, &[2, 0, 0, 0]),
        unhex("9eb2dcce60f37a2702000000")
    );
    assert_eq!(hash_bytes(HashKind::Concat64, &[]), unhex("99e9d85137db46ef"));
    assert_eq!(
        hash_bytes(HashKind::Concat128, &[1, 0, 0, 0]),
        unhex("d82c12285b5d4551f88e8f6e7eb52b8101000000")
    );
    assert_eq!(
        hash_bytes(HashKind::Concat128, &[2, 0, 0, 0]),
        unhex("754faa9acf0378f8c3543d9f132d85bc02000000")
    );
    assert_eq!(
        hash_bytes(HashKind::Concat128, &[]),
        unhex("cae66941d9efbd404e4d88758ea67670")
    );
}

#[test]
fn identity_leaves_the_bytes_alone() {
    assert_eq!(hash_bytes(HashKind::Identity, &[1, 0, 0, 0]), vec![1, 0, 0, 0]);
    assert_eq!(hash_bytes(HashKind::Identity, &[]), Vec::<u8>::new());
    assert_eq!(hash_bytes(HashKind::Identity, &[0xff; 40]), vec![0xff; 40]);
}

#[test]
fn hashed_lengths() {
    for len in [0usize, 1, 4, 7, 8, 15, 16, 17, 100] {
        let data = vec![0x5a; len];
        assert_eq!(hash_bytes(HashKind::Prefix128, &data).len(), 16);
        assert_eq!(hash_bytes(HashKind::Identity, &data).len(), len);
        assert_eq!(hash_bytes(HashKind::Concat64, &data).len(), 8 + len);
        assert_eq!(hash_bytes(HashKind::Concat128, &data).len(), 16 + len);
    }
}

#[test]
fn hashers_agree_with_frame_support() {
    let inputs: Vec<Vec<u8>> =
        vec![vec![], vec![0], b"Sudo".to_vec(), u32_bytes(7), vec![0xab; 70]];
    for data in inputs {
        assert_eq!(hash_bytes(HashKind::Prefix128, &data), Twox128::hash(&data).to_vec());
        assert_eq!(hash_bytes(HashKind::Identity, &data), Identity::hash(&data));
        assert_eq!(hash_bytes(HashKind::Concat64, &data), Twox64Concat::hash(&data));
        assert_eq!(hash_bytes(HashKind::Concat128, &data), Blake2_128Concat::hash(&data));
    }
}

#[test]
fn selector_names() {
    assert_eq!(HashKind::from_name("identity"), Ok(HashKind::Identity));
    assert_eq!(HashKind::from_name("twox64_concat"), Ok(HashKind::Concat64));
    assert_eq!(HashKind::from_name("blake2_128_concat"), Ok(HashKind::Concat128));
}

#[test]
fn other_names_are_unsupported() {
    for name in [
        "",
        "Identity",
        "identity ",
        "twox_64_concat",
        "twox128",
        "twox_128",
        "blake2_128",
        "blake2_256",
        "prefix128",
        "blake2_128_concat\0",
        "identit\u{e9}",
    ] {
        assert_eq!(HashKind::from_name(name), Err(Error::UnsupportedHasher));
        assert_eq!(gen_param_hash(&[1, 2, 3], name), Err(Error::UnsupportedHasher));
    }
}

#[test]
fn gen_param_hash_goes_by_the_name() {
    assert_eq!(
        gen_param_hash(&[1, 0, 0, 0], "blake2_128_concat"),
        Ok(unhex("d82c12285b5d4551f88e8f6e7eb52b8101000000"))
    );
    assert_eq!(
        gen_param_hash(&[1, 0, 0, 0], "twox64_concat"),
        Ok(unhex("5153cb1f00942ff401000000"))
    );
    assert_eq!(gen_param_hash(&[1, 0, 0, 0], "identity"), Ok(vec![1, 0, 0, 0]));
}

#[test]
fn a_key_without_parameters_is_32_bytes() {
    for (namespace, item) in
        [("Sudo", "Key"), ("", ""), ("ModuleAbc", ""), ("", "Map1"), ("System", "Account")]
    {
        let key = build_key(namespace, item, &[]).unwrap();
        assert_eq!(key.as_bytes().len(), 32);
        assert_eq!(anchor_bytes(namespace, item).len(), 32);
        assert_eq!(key.as_bytes(), &anchor_bytes(namespace, item)[..]);
        assert_eq!(get_storage_key_for_value(namespace, item).len(), 64);
    }
}

#[test]
fn a_key_with_one_parameter_adds_its_segment() {
    for len in [0usize, 1, 4, 33] {
        let payload = vec![7u8; len];
        let key = build_key("ModuleAbc", "Map1", &[param(&payload, HashKind::Concat128)]).unwrap();
        assert_eq!(key.as_bytes().len(), 32 + 16 + len);
        let key = build_key("ModuleAbc", "Map1", &[param(&payload, HashKind::Concat64)]).unwrap();
        assert_eq!(key.as_bytes().len(), 32 + 8 + len);
        let key = build_key("ModuleAbc", "Map1", &[param(&payload, HashKind::Identity)]).unwrap();
        assert_eq!(key.as_bytes().len(), 32 + len);
    }
}

#[test]
fn the_key_of_sudo_key() {
    let expected = "5c0d1176a568c1f92944340dbfed9e9c530ebca703c85910e7164cb7d1c9e47b";
    let key = build_key("Sudo", "Key", &[]).unwrap();
    assert_eq!(key.as_bytes(), &unhex(expected)[..]);
    assert_eq!(key.to_hex(), expected);
    assert_eq!(get_storage_key_for_value("Sudo", "Key"), expected);
    let mut anchor = hash_bytes(HashKind::Prefix128, b"Sudo");
    anchor.extend(hash_bytes(HashKind::Prefix128, b"Key"));
    assert_eq!(key.as_bytes(), &anchor[..]);
}

#[test]
fn empty_names_are_names() {
    assert_eq!(
        get_storage_key_for_value("", ""),
        "99e9d85137db46ef4bbea33613baafd599e9d85137db46ef4bbea33613baafd5"
    );
}

#[test]
fn the_key_of_a_map_entry() {
    let expected = "4ee617ba653a1b87095c394f5d411283a4a396b3ec8979c619cf216662faa991\
                    5153cb1f00942ff401000000";
    let params = [KeyParam::from_value(ScalarValue::Plain(Primitive::UInt32(1)), HashKind::Concat64)];
    let key = build_key("ModuleAbc", "Map2", &params).unwrap();
    assert_eq!(key.to_hex(), expected);
    let mut by_hand = anchor_bytes("ModuleAbc", "Map2");
    by_hand.extend(hash_bytes(HashKind::Concat64, &u32_bytes(1)));
    assert_eq!(key.as_bytes(), &by_hand[..]);
    assert_eq!(
        get_storage_key_for_map("ModuleAbc", "Map2", &u32_bytes(1), "twox64_concat"),
        Ok(expected.to_string())
    );
}

#[test]
fn the_keys_of_the_example_maps() {
    assert_eq!(
        get_storage_key_for_map("ModuleAbc", "Map1", &[0x10, 1, 0, 0, 0], "blake2_128_concat"),
        Ok("4ee617ba653a1b87095c394f5d41128328853a72189ae4f290a9869a054e225a\
            66b55bc98363cf164c96c990d8eb10a81001000000"
            .to_string())
    );
    assert_eq!(
        get_storage_key_for_map("ModuleAbc", "Map3", &u32_bytes(1), "identity"),
        Ok("4ee617ba653a1b87095c394f5d4112834f13c9117b595c775448f894b5b0516c01000000".to_string())
    );
    assert_eq!(
        get_storage_key_for_double_map(
            "ModuleAbc",
            "DoubleMap1",
            &u32_bytes(1),
            "blake2_128_concat",
            &u32_bytes(2),
            "blake2_128_concat"
        ),
        Ok("4ee617ba653a1b87095c394f5d411283c63c595452a3c75489ef352677ad51fa\
            d82c12285b5d4551f88e8f6e7eb52b8101000000\
            754faa9acf0378f8c3543d9f132d85bc02000000"
            .to_string())
    );
    assert_eq!(
        get_storage_key_for_double_map(
            "ModuleAbc",
            "DoubleMap2",
            &u32_bytes(1),
            "blake2_128_concat",
            &u32_bytes(2),
            "twox64_concat"
        ),
        Ok("4ee617ba653a1b87095c394f5d411283fdf2e24b59506516f72546464dd82f88\
            d82c12285b5d4551f88e8f6e7eb52b8101000000\
            9eb2dcce60f37a2702000000"
            .to_string())
    );
}

#[test]
fn keys_agree_with_frame_support() {
    let mut k = [Twox128::hash(b"ModuleAbc"), Twox128::hash(b"DoubleMap2")].concat();
    k.extend(Blake2_128Concat::hash(&u32_bytes(1)));
    k.extend(Twox64Concat::hash(&u32_bytes(2)));
    k.extend(Identity::hash(&u32_bytes(3)));
    let params = [
        param(&u32_bytes(1), HashKind::Concat128),
        param(&u32_bytes(2), HashKind::Concat64),
        param(&u32_bytes(3), HashKind::Identity),
    ];
    let key = build_key("ModuleAbc", "DoubleMap2", &params).unwrap();
    assert_eq!(key.as_bytes(), &k[..]);
    assert_eq!(key.to_hex(), hex::encode(&k));
}

#[test]
fn the_same_request_gives_the_same_key() {
    let params = [param(&[1, 2, 3], HashKind::Concat128), param(&[4, 5], HashKind::Identity)];
    let first = build_key("ModuleAbc", "DoubleMap1", &params).unwrap();
    let second = build_key("ModuleAbc", "DoubleMap1", &params.clone()).unwrap();
    assert_eq!(first, second);
    assert_eq!(first.to_hex(), second.to_hex());
}

#[test]
fn the_order_of_the_parameters_counts() {
    for hasher in [HashKind::Identity, HashKind::Concat64, HashKind::Concat128] {
        let a = param(&u32_bytes(1), hasher);
        let b = param(&u32_bytes(2), hasher);
        let ab = build_key("ModuleAbc", "DoubleMap1", &[a.clone(), b.clone()]).unwrap();
        let ba = build_key("ModuleAbc", "DoubleMap1", &[b, a]).unwrap();
        assert_ne!(ab, ba);
        assert_eq!(ab.as_bytes().len(), ba.as_bytes().len());
    }
    let a = param(&u32_bytes(1), HashKind::Concat128);
    let b = param(&u32_bytes(1), HashKind::Concat64);
    let ab = build_key("ModuleAbc", "DoubleMap2", &[a.clone(), b.clone()]).unwrap();
    let ba = build_key("ModuleAbc", "DoubleMap2", &[b, a]).unwrap();
    assert_ne!(ab, ba);
}

#[test]
fn identity_segments_can_run_together() {
    // under identity nothing marks where one parameter ends
    let ab = build_key("M", "S", &[param(&[1], HashKind::Identity), param(&[1, 1], HashKind::Identity)]);
    let ba = build_key("M", "S", &[param(&[1, 1], HashKind::Identity), param(&[1], HashKind::Identity)]);
    assert_eq!(ab, ba);
}

#[test]
fn any_number_of_parameters() {
    let mut params = Vec::new();
    let mut by_hand = anchor_bytes("ModuleAbc", "Many");
    for n in 0..9u32 {
        let hasher = [HashKind::Identity, HashKind::Concat64, HashKind::Concat128][(n % 3) as usize];
        params.push(param(&u32_bytes(n), hasher));
        by_hand.extend(hash_bytes(hasher, &u32_bytes(n)));
        let key = build_key("ModuleAbc", "Many", &params).unwrap();
        assert_eq!(key.as_bytes(), &by_hand[..]);
    }
    assert_eq!(by_hand.len(), 32 + 3 * 4 + 3 * 12 + 3 * 20);
}

#[test]
fn the_prefix_hash_is_not_for_parameters() {
    assert_eq!(
        build_key("ModuleAbc", "Map1", &[param(&[1], HashKind::Prefix128)]),
        Err(Error::UnsupportedHasher)
    );
    assert_eq!(
        build_key(
            "ModuleAbc",
            "Map1",
            &[param(&[1], HashKind::Identity), param(&[2], HashKind::Prefix128)]
        ),
        Err(Error::UnsupportedHasher)
    );
}

#[test]
fn unknown_hashers_fail_the_call() {
    assert_eq!(
        get_storage_key_for_map("ModuleAbc", "Map1", &[1], "sha256"),
        Err(Error::UnsupportedHasher)
    );
    assert_eq!(
        get_storage_key_for_double_map("ModuleAbc", "Map1", &[1], "sha256", &[2], "identity"),
        Err(Error::UnsupportedHasher)
    );
    assert_eq!(
        get_storage_key_for_double_map("ModuleAbc", "Map1", &[1], "identity", &[2], "sha256"),
        Err(Error::UnsupportedHasher)
    );
}

#[test]
fn a_request_gives_the_key_of_its_parts() {
    let request = StorageKeyRequest {
        namespace: "ModuleAbc".to_string(),
        item: "DoubleMap1".to_string(),
        params: vec![
            param(&u32_bytes(1), HashKind::Concat128),
            param(&u32_bytes(2), HashKind::Concat128),
        ],
    };
    assert_eq!(request.key(), build_key("ModuleAbc", "DoubleMap1", &request.params));
    assert_eq!(
        request.key().unwrap().to_hex(),
        get_storage_key_for_double_map(
            "ModuleAbc",
            "DoubleMap1",
            &u32_bytes(1),
            "blake2_128_concat",
            &u32_bytes(2),
            "blake2_128_concat"
        )
        .unwrap()
    );
}

#[test]
fn a_parameter_from_a_value_holds_its_encoding() {
    let p = KeyParam::from_value(ScalarValue::Optional(Some(Primitive::UInt16(0x0102))), HashKind::Identity);
    assert_eq!(p, param(&[1, 2, 1], HashKind::Identity));
}

#[test]
fn both_ways_to_hexadecimal_agree() {
    let key = build_key("Sudo", "Key", &[param(&[0x00, 0x0f, 0xf0, 0xff], HashKind::Identity)]).unwrap();
    assert_eq!(key.to_hex(), to_hex_string(key.as_bytes().to_vec()));
    assert!(key.to_hex().ends_with("000ff0ff"));
    let all: Vec<u8> = (0..=255).collect();
    assert_eq!(to_hex_string(all.clone()), hex::encode(&all));
}
