use zk_identity::codec::{parse_u64, u64_to_string};
use zk_identity::encoder::hash_to_field;
use zk_identity::field::{field_add, FieldElement};
use zk_identity::keys::SetupKeys;
use zk_identity::zkproof::ZKProof;

#[test]
fn decimal_printing_exact_values() {
    assert_eq!(u64_to_string(0), "0");
    assert_eq!(u64_to_string(7), "7");
    assert_eq!(u64_to_string(2025), "2025");
    assert_eq!(u64_to_string(u64::MAX), "18446744073709551615");
}

#[test]
fn decimal_parsing_exact_and_rejecting() {
    assert_eq!(parse_u64("0"), Some(0));
    assert_eq!(parse_u64("30"), Some(30));
    assert_eq!(parse_u64("18446744073709551615"), Some(u64::MAX));
    assert_eq!(parse_u64("18446744073709551616"), None);
    assert_eq!(parse_u64(""), None);
    assert_eq!(parse_u64("abc"), None);
    assert_eq!(parse_u64("12x"), None);
    assert_eq!(parse_u64("-1"), None);
    assert_eq!(parse_u64("+1"), None);
    assert_eq!(parse_u64(" 1"), None);
}

#[test]
fn decimal_round_trip() {
    for n in [0u64, 1, 9, 10, 255, 1000000, u64::MAX] {
        assert_eq!(parse_u64(&u64_to_string(n)), Some(n));
    }
}

#[test]
fn hex_form_exact_value() {
    let one = FieldElement::from_u64(255);
    let mut expected = String::from("ff");
    for _ in 0..31 {
        expected.push_str("00");
    }
    assert_eq!(one.to_hex(), expected);
}

#[test]
fn hex_round_trip_and_rejection() {
    for input in ["alice", "", "bob", "x"] {
        let f = hash_to_field(input);
        let parsed = FieldElement::from_hex(&f.to_hex()).expect("canonical hex must parse");
        assert!(parsed.equals(&f));
    }
    assert!(FieldElement::from_hex("").is_none());
    assert!(FieldElement::from_hex("zz").is_none());
    let f = hash_to_field("alice");
    let upper = f.to_hex().to_uppercase();
    assert!(FieldElement::from_hex(&upper).is_none());
    let short = &f.to_hex()[..62];
    assert!(FieldElement::from_hex(short).is_none());
}

#[test]
fn proof_json_exact_shape() {
    let p = ZKProof::new(
        vec![0u8, 255],
        FieldElement::from_u64(1),
        2000,
        FieldElement::from_u64(2),
        FieldElement::from_u64(3),
    );
    let json = p.to_json();
    let mut h = |n: u64| FieldElement::from_u64(n).to_hex();
    let expected = format!(
        "{{\"proof_bytes\":[0,255],\"name_hash\":\"{}\",\"dob_year\":2000,\"gender_hash\":\"{}\",\"location_hash\":\"{}\"}}",
        h(1),
        h(2),
        h(3)
    );
    assert_eq!(json, expected);
}

#[test]
fn proof_json_round_trip() {
    let p = ZKProof::new(
        vec![9u8, 0, 42, 200],
        hash_to_field("alice"),
        1990,
        hash_to_field("female"),
        field_add(&hash_to_field("austin"), &hash_to_field("texas")),
    );
    let json = p.to_json();
    let back = ZKProof::from_json(&json).expect("canonical json must parse");
    assert_eq!(back.proof_bytes, p.proof_bytes);
    assert!(back.name_hash.equals(&p.name_hash));
    assert_eq!(back.dob_year, p.dob_year);
    assert!(back.gender_hash.equals(&p.gender_hash));
    assert!(back.location_hash.equals(&p.location_hash));
    assert_eq!(back.to_json(), json);
}

#[test]
fn proof_json_rejects_malformed_and_non_canonical() {
    assert!(ZKProof::from_json("").is_none());
    assert!(ZKProof::from_json("{}").is_none());
    assert!(ZKProof::from_json("not json at all").is_none());
    let p = ZKProof::new(
        vec![1u8],
        FieldElement::from_u64(1),
        2000,
        FieldElement::from_u64(2),
        FieldElement::from_u64(3),
    );
    let json = p.to_json();
    let spaced = json.replace(":", ": ");
    assert!(ZKProof::from_json(&spaced).is_none());
    let trailing = format!("{} ", json);
    assert!(ZKProof::from_json(&trailing).is_none());
}

#[test]
fn keys_json_exact_and_round_trip() {
    let k = SetupKeys::new(vec![1u8, 2], Vec::new());
    assert_eq!(k.to_json(), "{\"proving_key\":[1,2],\"verifying_key\":[]}");

    let k2 = SetupKeys::new(vec![200u8, 0, 17], vec![5u8]);
    let json = k2.to_json();
    let back = SetupKeys::from_json(&json).expect("canonical json must parse");
    assert_eq!(back.proving_key, k2.proving_key);
    assert_eq!(back.verifying_key, k2.verifying_key);
    assert!(SetupKeys::from_json("{\"proving_key\":[1,2]}").is_none());
}

#[test]
fn keys_base64_round_trip_and_rejection() {
    let k = SetupKeys::new(vec![9u8, 8, 7, 6], vec![1u8, 0]);
    let encoded = k.to_base64();
    let back = SetupKeys::from_base64(&encoded).expect("own base64 form must parse");
    assert_eq!(back.proving_key, k.proving_key);
    assert_eq!(back.verifying_key, k.verifying_key);
    assert_eq!(back.to_base64(), encoded);

    assert!(SetupKeys::from_base64("!!!not base64!!!").is_none());
    assert!(SetupKeys::from_base64("aGVsbG8=").is_none());
}

#[test]
fn keys_json_accepts_empty_arrays() {
    let parsed = SetupKeys::from_json("{\"proving_key\":[],\"verifying_key\":[]}")
        .expect("canonical empty form parses");
    assert!(parsed.proving_key.is_empty());
    assert!(parsed.verifying_key.is_empty());
}
