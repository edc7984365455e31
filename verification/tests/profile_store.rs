use base64::Engine;
use base64::prelude::BASE64_STANDARD;
use dotrs::encryption::encrypt_string;
use dotrs::profile::{
    get_applied_profile, DecodeValue, EncryptedValue, Error, Profile, ProfileSource, Value,
};

fn key() -> String {
    BASE64_STANDARD.encode([42u8; 32])
}

fn string_leaf(v: &Value) -> &str {
    match v {
        Value::String(s) => s,
        _ => panic!("expected a string leaf"),
    }
}

fn mapping(v: &Value) -> &Vec<(String, Value)> {
    match v {
        Value::Mapping(entries) => entries,
        _ => panic!("expected a mapping"),
    }
}

fn sample_plain_tree() -> DecodeValue {
    DecodeValue::Mapping(vec![
        ("name".to_string(), DecodeValue::String("max".to_string())),
        ("uid".to_string(), DecodeValue::Int(1000)),
        ("admin".to_string(), DecodeValue::Bool(true)),
        ("ratio".to_string(), DecodeValue::Float(0.5f64.to_bits())),
        (
            "shells".to_string(),
            DecodeValue::List(vec![
                DecodeValue::String("bash".to_string()),
                DecodeValue::String("zsh".to_string()),
            ]),
        ),
        ("extra".to_string(), DecodeValue::Null),
    ])
}

#[test]
fn tree_without_encrypted_leaves_resolves_without_a_key() {
    let tree = sample_plain_tree();
    assert!(!tree.contains_encrypted_value());
    let v = tree.decrypt(None).unwrap();
    let entries = mapping(&v);
    assert_eq!(entries.len(), 6);
    assert_eq!(entries[0].0, "name");
    assert_eq!(string_leaf(&entries[0].1), "max");
    match &entries[1].1 {
        Value::Int(i) => assert_eq!(*i, 1000),
        _ => panic!("expected an int leaf"),
    }
    match &entries[3].1 {
        Value::Float(bits) => assert_eq!(f64::from_bits(*bits), 0.5),
        _ => panic!("expected a float leaf"),
    }
    match &entries[4].1 {
        Value::List(items) => assert_eq!(string_leaf(&items[1]), "zsh"),
        _ => panic!("expected a list"),
    }
    match &entries[5].1 {
        Value::Null => {},
        _ => panic!("expected a null leaf"),
    }
}

#[test]
fn tree_without_encrypted_leaves_resolves_with_any_key_present() {
    let tree = sample_plain_tree();
    let k = key();
    assert!(tree.decrypt(Some(&k)).is_ok());
}

fn tree_with_secret(blob: String) -> DecodeValue {
    DecodeValue::Mapping(vec![
        ("plain".to_string(), DecodeValue::String("visible".to_string())),
        (
            "secret".to_string(),
            DecodeValue::EncryptedValue(EncryptedValue { value: blob }),
        ),
    ])
}

#[test]
fn encrypted_leaf_without_key_always_fails() {
    let blob = encrypt_string("hunter2", &key()).unwrap();
    let tree = tree_with_secret(blob);
    assert!(tree.contains_encrypted_value());
    match tree.decrypt(None) {
        Err(e) => assert_eq!(e, Error::NoEncryptionKey),
        Ok(_) => panic!("resolution must fail without a key"),
    }
}

#[test]
fn encrypted_leaf_resolves_to_plain_string_leaf() {
    let k = key();
    let blob = encrypt_string("hunter2", &k).unwrap();
    let tree = tree_with_secret(blob);
    let v = tree.decrypt(Some(&k)).unwrap();
    let entries = mapping(&v);
    assert_eq!(string_leaf(&entries[0].1), "visible");
    assert_eq!(entries[1].0, "secret");
    assert_eq!(string_leaf(&entries[1].1), "hunter2");
}

#[test]
fn encrypted_leaf_under_wrong_key_fails_resolution() {
    let blob = encrypt_string("hunter2", &key()).unwrap();
    let tree = tree_with_secret(blob);
    let wrong = BASE64_STANDARD.encode([9u8; 32]);
    match tree.decrypt(Some(&wrong)) {
        Err(e) => assert_eq!(e, Error::Decrypt(dotrs::encryption::Error::Decrypt)),
        Ok(_) => panic!("resolution must fail under the wrong key"),
    }
}

#[test]
fn nested_encrypted_leaf_is_found() {
    let inner = DecodeValue::List(vec![DecodeValue::EncryptedValue(EncryptedValue {
        value: "xx".to_string(),
    })]);
    let tree = DecodeValue::Mapping(vec![("deep".to_string(), inner)]);
    assert!(tree.contains_encrypted_value());
}

#[test]
fn checked_resolution_refuses_short_keys() {
    let blob = encrypt_string("s", &key()).unwrap();
    let tree = tree_with_secret(blob);
    let short = BASE64_STANDARD.encode([1u8; 8]);
    assert!(tree.try_decrypt(Some(&short)).is_none());
    assert!(tree.try_decrypt(Some(&key())).unwrap().is_ok());
    // without encrypted leaves the key is never inspected
    assert!(sample_plain_tree().try_decrypt(Some(&short)).is_some());
}

#[test]
fn lookup_prefers_yaml_over_yml() {
    let p = Profile::new("/stage".to_string(), true);
    assert_eq!(p.load("work", true, true), Ok(ProfileSource::Yaml));
    assert_eq!(p.load("work", true, false), Ok(ProfileSource::Yaml));
    assert_eq!(p.load("work", false, true), Ok(ProfileSource::Yml));
}

#[test]
fn absent_default_profile_yields_null_source() {
    let p = Profile::new("/stage".to_string(), false);
    assert_eq!(p.load("default", false, false), Ok(ProfileSource::Absent));
}

#[test]
fn absent_named_profile_fails() {
    let p = Profile::new("/stage".to_string(), true);
    match p.load("work", false, false) {
        Err(Error::NoProfileWithName(n)) => assert_eq!(n, "work"),
        other => panic!("expected NoProfileWithName, got {:?}", other),
    }
}

#[test]
fn candidate_paths_follow_the_profiles_directory_layout() {
    let p = Profile::new("/stage".to_string(), true);
    let (yaml, yml) = p.candidate_paths("work");
    assert_eq!(yaml, "/stage/.dotrs-profiles/work.yaml");
    assert_eq!(yml, "/stage/.dotrs-profiles/work.yml");
}

#[test]
fn applied_profile_record_is_trimmed() {
    assert_eq!(get_applied_profile(None), None);
    assert_eq!(get_applied_profile(Some("  work \n")), Some("work".to_string()));
    assert_eq!(get_applied_profile(Some("")), Some("".to_string()));
}
