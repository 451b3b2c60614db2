use bolt::entry::Entry;
use bolt::persist::{magic_tag, seal, store_from_decoded, store_or_empty, unseal, LoadError};
use bolt::store::{Slot, Store};

#[test]
fn tag_is_the_four_letters() {
    assert_eq!(magic_tag(), b"BOLT".to_vec());
}

#[test]
fn seal_puts_the_tag_first() {
    assert_eq!(seal(&b"{}".to_vec()), b"BOLT{}".to_vec());
    assert_eq!(seal(&Vec::new()), b"BOLT".to_vec());
}

#[test]
fn unseal_gives_the_payload_back() {
    let payload = b"{\"a\":{\"value\":\"1\",\"expire_at\":null}}".to_vec();
    assert_eq!(unseal(&seal(&payload)), Ok(payload));
    assert_eq!(unseal(&b"BOLT".to_vec()), Ok(Vec::new()));
}

#[test]
fn wrong_tag_is_a_format_error() {
    assert_eq!(unseal(&b"BOLD{}".to_vec()), Err(LoadError::WrongFormat));
    assert_eq!(unseal(&b"bolt{}".to_vec()), Err(LoadError::WrongFormat));
    assert_eq!(unseal(&b"XBOLT".to_vec()), Err(LoadError::WrongFormat));
}

#[test]
fn short_input_is_truncated() {
    assert_eq!(unseal(&Vec::new()), Err(LoadError::Truncated));
    assert_eq!(unseal(&b"BOL".to_vec()), Err(LoadError::Truncated));
}

#[test]
fn wrong_tag_and_bad_payload_fail_differently() {
    let wrong_tag = unseal(&b"JUNK{}".to_vec()).err().unwrap();
    let payload = unseal(&b"BOLTnot json".to_vec()).unwrap();
    assert_eq!(payload, b"not json".to_vec());
    let decoded: Option<Vec<Slot>> = None;
    let bad_payload = store_from_decoded(decoded).err().unwrap();
    assert_eq!(wrong_tag, LoadError::WrongFormat);
    assert_eq!(bad_payload, LoadError::MalformedPayload);
    assert_ne!(wrong_tag, bad_payload);
}

#[test]
fn decoded_slots_become_the_store() {
    let slots = vec![Slot { key: "a".to_string(), entry: Entry::new("1".to_string(), None) }];
    let mut store = store_from_decoded(Some(slots)).ok().unwrap();
    assert_eq!(store.get("a").unwrap().value, "1");
}

#[test]
fn failed_load_starts_empty() {
    let empty = store_or_empty(Err(LoadError::WrongFormat));
    assert!(empty.keys().is_empty());
    let also_empty = store_or_empty(Err(LoadError::MalformedPayload));
    assert!(also_empty.keys().is_empty());
    let mut store = Store::new();
    store.set("a".to_string(), Entry::new("1".to_string(), None));
    let kept = store_or_empty(Ok(store));
    assert_eq!(kept.keys(), vec!["a".to_string()]);
}

#[test]
fn json_payload_survives_the_container() {
    let mut object = serde_json::Map::new();
    object.insert("value".to_string(), serde_json::Value::String("1".to_string()));
    object.insert("expire_at".to_string(), serde_json::Value::Null);
    let mut root = serde_json::Map::new();
    root.insert("a".to_string(), serde_json::Value::Object(object));
    let payload = serde_json::to_vec(&serde_json::Value::Object(root)).unwrap();
    let opened = unseal(&seal(&payload)).unwrap();
    let back: serde_json::Value = serde_json::from_slice(&opened).unwrap();
    assert_eq!(back["a"]["value"].as_str(), Some("1"));
    assert!(back["a"]["expire_at"].is_null());
}
