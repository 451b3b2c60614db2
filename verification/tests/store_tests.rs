use bolt::entry::Entry;
use bolt::store::{Slot, Store};
use bolt::time::Timestamp;

fn at(secs: u64) -> Option<Timestamp> {
    Some(Timestamp::new(secs, 0))
}

fn text(s: &str) -> String {
    s.to_string()
}

fn sorted(mut keys: Vec<String>) -> Vec<String> {
    keys.sort();
    keys
}

#[test]
fn set_then_get_without_ttl_returns_value() {
    let mut store = Store::new();
    store.set(text("k"), Entry::new(text("v"), None));
    let found = store.get("k").unwrap();
    assert_eq!(found.value, "v");
    assert_eq!(found.expire_at.map(|t| t.secs), None);
    let later = store.get_at("k", at(u64::MAX)).unwrap();
    assert_eq!(later.value, "v");
    assert_eq!(store.keys(), vec![text("k")]);
}

#[test]
fn set_with_ttl_is_found_until_it_elapses() {
    let mut store = Store::new();
    store.set(text("k"), Entry::new_at(text("v"), Some(10), at(100)));
    assert_eq!(store.get_at("k", at(100)).unwrap().value, "v");
    assert_eq!(store.get_at("k", at(110)).unwrap().value, "v");
    assert_eq!(store.get_at("k", Some(Timestamp::new(110, 1))).map(|e| e.value), None);
    assert!(store.keys().is_empty());
    assert_eq!(store.get_at("k", at(100)).map(|e| e.value), None);
}

#[test]
fn set_with_real_clock_is_found_at_once() {
    let mut store = Store::new();
    store.set(text("k"), Entry::new(text("v"), Some(3600)));
    assert_eq!(store.get("k").unwrap().value, "v");
}

#[test]
fn set_overwrites_value_and_ttl() {
    let mut store = Store::new();
    store.set(text("k"), Entry::new_at(text("old"), Some(1), at(0)));
    store.set(text("k"), Entry::new_at(text("new"), None, at(0)));
    assert_eq!(store.keys(), vec![text("k")]);
    assert_eq!(store.get_at("k", at(1_000)).unwrap().value, "new");
}

#[test]
fn delete_reports_whether_the_key_was_there() {
    let mut store = Store::new();
    store.set(text("a"), Entry::new(text("1"), None));
    store.set(text("b"), Entry::new(text("2"), None));
    assert!(!store.delete("missing"));
    assert_eq!(sorted(store.keys()), vec![text("a"), text("b")]);
    assert!(store.delete("a"));
    assert_eq!(store.keys(), vec![text("b")]);
    assert!(!store.delete("a"));
    assert_eq!(store.get("a").map(|e| e.value), None);
    assert_eq!(store.get("b").unwrap().value, "2");
}

#[test]
fn get_of_an_absent_key_is_not_found() {
    let mut store = Store::new();
    assert!(store.get("nothing").is_none());
    assert!(store.keys().is_empty());
}

#[test]
fn purge_removes_exactly_the_dead() {
    let mut store = Store::new();
    store.set(text("forever"), Entry::new_at(text("1"), None, at(0)));
    store.set(text("short"), Entry::new_at(text("2"), Some(5), at(0)));
    store.set(text("edge"), Entry::new_at(text("3"), Some(10), at(0)));
    store.set(text("long"), Entry::new_at(text("4"), Some(100), at(0)));
    store.purge_expired_at(at(10));
    assert_eq!(sorted(store.keys()), vec![text("edge"), text("forever"), text("long")]);
    store.purge_expired_at(Some(Timestamp::new(10, 1)));
    assert_eq!(sorted(store.keys()), vec![text("forever"), text("long")]);
    assert_eq!(store.get_at("long", at(11)).unwrap().value, "4");
}

#[test]
fn purge_with_real_clock_keeps_entries_without_ttl() {
    let mut store = Store::new();
    store.set(text("forever"), Entry::new(text("1"), None));
    store.set(text("dead"), Entry::new_at(text("2"), Some(1), at(0)));
    store.set(text("fresh"), Entry::new(text("3"), Some(3600)));
    store.purge_expired();
    assert_eq!(sorted(store.keys()), vec![text("forever"), text("fresh")]);
}

#[test]
fn unreadable_clock_counts_as_expired() {
    let mut store = Store::new();
    store.set(text("forever"), Entry::new_at(text("1"), None, None));
    store.set(text("timed"), Entry::new_at(text("2"), Some(1_000), at(0)));
    let timed = Entry::new_at(text("2"), Some(1_000), at(0));
    assert!(!timed.is_alive_at(None));
    assert!(timed.is_alive_at(at(1_000)));
    assert_eq!(store.get_at("timed", None).map(|e| e.value), None);
    assert_eq!(store.get_at("forever", None).unwrap().value, "1");
    assert_eq!(store.keys(), vec![text("forever")]);
}

#[test]
fn check_ttl_of_entries() {
    assert!(Store::check_ttl(&Entry::new(text("v"), None)));
    assert!(Store::check_ttl(&Entry::new(text("v"), Some(3600))));
    assert!(!Store::check_ttl(&Entry::new_at(text("v"), Some(1), at(0))));
}

#[test]
fn keys_lists_expired_entries_until_they_are_read() {
    let mut store = Store::new();
    store.set(text("a"), Entry::new_at(text("1"), Some(1), at(50)));
    assert_eq!(store.get_at("a", at(50)).unwrap().value, "1");
    assert_eq!(store.keys(), vec![text("a")]);
    assert_eq!(store.expired_keys_at(at(52)), vec![text("a")]);
    assert_eq!(store.keys(), vec![text("a")]);
    assert_eq!(store.get_at("a", at(52)).map(|e| e.value), None);
    assert!(store.keys().is_empty());
}

#[test]
fn delete_given_keys_removes_each_stored_one() {
    let mut store = Store::new();
    store.set(text("a"), Entry::new(text("1"), None));
    store.set(text("b"), Entry::new(text("2"), None));
    store.set(text("c"), Entry::new(text("3"), None));
    store.delete_given_keys(&vec![text("a"), text("zzz"), text("c"), text("a")]);
    assert_eq!(store.keys(), vec![text("b")]);
}

#[test]
fn from_hashmap_keeps_the_last_entry_of_a_key() {
    let slots = vec![
        Slot { key: text("a"), entry: Entry::new(text("1"), None) },
        Slot { key: text("b"), entry: Entry::new(text("2"), None) },
        Slot { key: text("a"), entry: Entry::new(text("3"), None) },
    ];
    let mut store = Store::from_hashmap(slots);
    assert_eq!(sorted(store.keys()), vec![text("a"), text("b")]);
    assert_eq!(store.get("a").unwrap().value, "3");
    assert_eq!(store.get("b").unwrap().value, "2");
}

#[test]
fn many_sets_to_distinct_keys_are_all_read_back() {
    let mut store = Store::new();
    let n = 64u32;
    for i in 0..n {
        store.set(format!("key{}", i), Entry::new(format!("value{}", i), None));
    }
    for i in 0..n {
        assert_eq!(store.get(&format!("key{}", i)).unwrap().value, format!("value{}", i));
    }
    assert_eq!(store.keys().len(), 64);
}

#[test]
fn snapshot_then_reload_keeps_what_was_alive() {
    let mut store = Store::new();
    store.set(text("forever"), Entry::new_at(text("1"), None, at(0)));
    store.set(text("dead"), Entry::new_at(text("2"), Some(5), at(0)));
    store.set(text("alive"), Entry::new_at(text("3"), Some(500), at(0)));
    let saved = store.save_snapshot_at(at(100));
    assert_eq!(saved.len(), 2);
    let mut reloaded = Store::from_hashmap(saved);
    assert_eq!(sorted(reloaded.keys()), vec![text("alive"), text("forever")]);
    assert_eq!(reloaded.get_at("forever", at(100)).unwrap().value, "1");
    let alive = reloaded.get_at("alive", at(100)).unwrap();
    assert_eq!(alive.value, "3");
    assert_eq!(alive.expire_at.map(|t| (t.secs, t.nanos)), Some((500, 0)));
    assert_eq!(reloaded.get_at("alive", at(501)).map(|e| e.value), None);
    assert_eq!(reloaded.get_at("dead", at(0)).map(|e| e.value), None);
}

#[test]
fn snapshot_with_real_clock_drops_the_dead() {
    let mut store = Store::new();
    store.set(text("forever"), Entry::new(text("1"), None));
    store.set(text("dead"), Entry::new_at(text("2"), Some(1), at(0)));
    let saved = store.save_snapshot();
    assert_eq!(saved.len(), 1);
    assert_eq!(saved[0].key, "forever");
    assert_eq!(store.keys(), vec![text("forever")]);
}
