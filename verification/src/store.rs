//! The store: a mapping from unique string keys to entries, with lazy and
//! eager expiration.

use crate::entry::Entry;
use crate::time::{now, Timestamp};
use vstd::prelude::*;

verus! {

/// One key with the entry stored under it.
#[derive(Debug)]
pub struct Slot {
    pub key: String,
    pub entry: Entry,
}

/// A mapping from keys to entries, held as a list of slots in which no key
/// occurs twice.
pub struct Store {
    slots: Vec<Slot>,
}

/// The keys of a sequence of slots, in order.
pub open spec fn keys_of(slots: Seq<Slot>) -> Seq<Seq<char>> {
    Seq::new(slots.len(), |i: int| slots[i].key@)
}

/// The mapping that a sequence of slots stands for: each key with the entry
/// of the last slot that holds it.
pub open spec fn map_of(slots: Seq<Slot>) -> Map<Seq<char>, Entry>
    decreases slots.len(),
{
    if slots.len() == 0 {
        Map::empty()
    } else {
        map_of(slots.drop_last()).insert(slots.last().key@, slots.last().entry)
    }
}

/// Every entry in a sequence of slots is well formed.
pub open spec fn entries_wf(slots: Seq<Slot>) -> bool {
    forall|i: int| 0 <= i < slots.len() ==> (#[trigger] slots[i]).entry.wf()
}

/// What a lookup of `key` at clock reading `now` returns from the mapping `m`.
pub open spec fn lookup(m: Map<Seq<char>, Entry>, key: Seq<char>, now: Option<Timestamp>)
    -> Option<Entry> {
    if m.contains_key(key) && m[key].alive_at(now) {
        Some(m[key])
    } else {
        None
    }
}

/// The mapping that a lookup of `key` at clock reading `now` leaves behind:
/// `m` itself, but without `key` where its entry was found dead.
pub open spec fn after_lookup(m: Map<Seq<char>, Entry>, key: Seq<char>, now: Option<Timestamp>)
    -> Map<Seq<char>, Entry> {
    if m.contains_key(key) && !m[key].alive_at(now) {
        m.remove(key)
    } else {
        m
    }
}

/// The mapping `m` without the entries that are dead at clock reading `now`.
pub open spec fn purged(m: Map<Seq<char>, Entry>, now: Option<Timestamp>) -> Map<
    Seq<char>,
    Entry,
> {
    Map::new(|k: Seq<char>| m.contains_key(k) && m[k].alive_at(now), |k: Seq<char>| m[k])
}

/// A key is in the mapping exactly when some slot holds it.
pub proof fn lemma_map_of_dom(slots: Seq<Slot>, key: Seq<char>)
    ensures
        map_of(slots).contains_key(key) <==> exists|i: int|
            0 <= i < slots.len() && (#[trigger] slots[i]).key@ == key,
    decreases slots.len(),
{
    if slots.len() > 0 {
        let front = slots.drop_last();
        lemma_map_of_dom(front, key);
        if map_of(slots).contains_key(key) {
            if slots.last().key@ == key {
                assert(slots[slots.len() - 1].key@ == key);
            } else {
                let i = choose|i: int| 0 <= i < front.len() && (#[trigger] front[i]).key@ == key;
                assert(slots[i].key@ == key);
            }
        }
        if exists|i: int| 0 <= i < slots.len() && (#[trigger] slots[i]).key@ == key {
            let i = choose|i: int| 0 <= i < slots.len() && (#[trigger] slots[i]).key@ == key;
            if i < slots.len() - 1 {
                assert(front[i].key@ == key);
            }
        }
    }
}

/// Where no key occurs twice, each slot's key is mapped to that slot's entry.
pub proof fn lemma_map_of_at(slots: Seq<Slot>, i: int)
    requires
        keys_of(slots).no_duplicates(),
        0 <= i < slots.len(),
    ensures
        map_of(slots).contains_key(slots[i].key@),
        map_of(slots)[slots[i].key@] == slots[i].entry,
    decreases slots.len(),
{
    let front = slots.drop_last();
    let last = slots.len() - 1;
    if i < last {
        assert forall|a: int, b: int|
            0 <= a < front.len() && 0 <= b < front.len() && a != b implies keys_of(front)[a]
            != keys_of(front)[b] by {
            assert(keys_of(slots)[a] == front[a].key@);
            assert(keys_of(slots)[b] == front[b].key@);
        }
        lemma_map_of_at(front, i);
        assert(keys_of(slots)[i] == slots[i].key@);
        assert(keys_of(slots)[last] == slots[last].key@);
        assert(front[i] == slots[i]);
    }
}

/// A mapping that agrees with every slot and holds no other key is the one
/// that the slots stand for.
pub proof fn lemma_map_of_is(slots: Seq<Slot>, m: Map<Seq<char>, Entry>)
    requires
        keys_of(slots).no_duplicates(),
        forall|i: int|
            0 <= i < slots.len() ==> m.contains_key((#[trigger] slots[i]).key@) && m[slots[i].key@]
                == slots[i].entry,
        forall|k: Seq<char>| #[trigger]
            m.contains_key(k) ==> exists|i: int|
                0 <= i < slots.len() && (#[trigger] slots[i]).key@ == k,
    ensures
        map_of(slots) == m,
{
    assert forall|k: Seq<char>| map_of(slots).contains_key(k) <==> m.contains_key(k) by {
        lemma_map_of_dom(slots, k);
    }
    assert forall|k: Seq<char>| map_of(slots).contains_key(k) implies map_of(slots)[k] == m[k] by {
        lemma_map_of_dom(slots, k);
        let i = choose|i: int| 0 <= i < slots.len() && (#[trigger] slots[i]).key@ == k;
        lemma_map_of_at(slots, i);
    }
    assert(map_of(slots) =~= m);
}

/// Whether one of the first `upto` slots holds `key` with an entry that is
/// dead at clock reading `now`.
pub open spec fn dead_among(slots: Seq<Slot>, upto: int, now: Option<Timestamp>, key: Seq<char>)
    -> bool {
    exists|a: int|
        0 <= a < upto && a < slots.len() && (#[trigger] slots[a]).key@ == key
            && !slots[a].entry.alive_at(now)
}

/// The keys that occur in a list of keys.
pub open spec fn key_set(keys: Seq<String>) -> Set<Seq<char>> {
    Set::new(|k: Seq<char>| exists|i: int| 0 <= i < keys.len() && (#[trigger] keys[i])@ == k)
}

impl View for Store {
    type V = Map<Seq<char>, Entry>;

    closed spec fn view(&self) -> Map<Seq<char>, Entry> {
        map_of(self.slots@)
    }
}

impl Store {
    /// No key occurs twice, and every entry is well formed.
    pub closed spec fn wf(&self) -> bool {
        &&& keys_of(self.slots@).no_duplicates()
        &&& entries_wf(self.slots@)
    }

    /// The stored keys in the order in which `keys` lists them.
    pub closed spec fn key_order(&self) -> Seq<Seq<char>> {
        keys_of(self.slots@)
    }

    /// The key order lists each stored key once and nothing else, and every
    /// stored entry is well formed.
    pub proof fn lemma_wf(&self)
        requires
            self.wf(),
        ensures
            self.key_order().no_duplicates(),
            self.key_order().to_set() == self@.dom(),
            self@.dom().finite(),
            forall|k: Seq<char>| self@.contains_key(k) ==> (#[trigger] self@[k]).wf(),
    {
        let slots = self.slots@;
        assert forall|k: Seq<char>| keys_of(slots).to_set().contains(k) <==> map_of(
            slots,
        ).dom().contains(k) by {
            lemma_map_of_dom(slots, k);
            if keys_of(slots).contains(k) {
                let i = choose|i: int| 0 <= i < keys_of(slots).len() && keys_of(slots)[i] == k;
                assert(slots[i].key@ == k);
            }
            if map_of(slots).contains_key(k) {
                let i = choose|i: int| 0 <= i < slots.len() && (#[trigger] slots[i]).key@ == k;
                assert(keys_of(slots)[i] == k);
            }
        }
        assert(keys_of(slots).to_set() =~= map_of(slots).dom());
        vstd::seq_lib::seq_to_set_is_finite(keys_of(slots));
        assert forall|k: Seq<char>| self@.contains_key(k) implies (#[trigger] self@[k]).wf() by {
            lemma_map_of_dom(slots, k);
            let i = choose|i: int| 0 <= i < slots.len() && (#[trigger] slots[i]).key@ == k;
            lemma_map_of_at(slots, i);
        }
    }

    /// An empty store.
    pub fn new() -> (s: Store)
        ensures
            s.wf(),
            s@ == Map::<Seq<char>, Entry>::empty(),
            s.key_order() == Seq::<Seq<char>>::empty(),
    {
        let s = Store { slots: Vec::new() };
        assert(keys_of(s.slots@) =~= Seq::<Seq<char>>::empty());
        s
    }

    /// The position of the slot that holds `key`, if there is one.
    fn position(&self, key: &str) -> (at: Option<usize>)
        requires
            self.wf(),
        ensures
            match at {
                Some(i) => i < self.slots.len() && self.slots[i as int].key@ == key@
                    && self@.contains_key(key@) && self@[key@] == self.slots[i as int].entry,
                None => !self@.contains_key(key@) && forall|j: int|
                    0 <= j < self.slots.len() ==> (#[trigger] self.slots[j]).key@ != key@,
            },
    {
        let wanted = String::from_str(key);
        let mut i: usize = 0;
        while i < self.slots.len()
            invariant
                self.wf(),
                i <= self.slots.len(),
                wanted@ == key@,
                forall|j: int| 0 <= j < i ==> (#[trigger] self.slots[j]).key@ != key@,
            decreases self.slots.len() - i,
        {
            if self.slots[i].key == wanted {
                proof {
                    lemma_map_of_at(self.slots@, i as int);
                }
                return Some(i);
            }
            i += 1;
        }
        proof {
            lemma_map_of_dom(self.slots@, key@);
        }
        None
    }

    /// Takes out the slot at position `at`.
    fn remove_slot(&mut self, at: usize)
        requires
            old(self).wf(),
            at < old(self).slots.len(),
        ensures
            final(self).wf(),
            final(self).slots@ == old(self).slots@.remove(at as int),
            final(self)@ == old(self)@.remove(old(self).slots[at as int].key@),
    {
        let ghost before = self.slots@;
        self.slots.remove(at);
        proof {
            let after = self.slots@;
            let gone = before[at as int].key@;
            let m = map_of(before).remove(gone);
            assert forall|a: int, b: int|
                0 <= a < after.len() && 0 <= b < after.len() && a != b implies keys_of(after)[a]
                != keys_of(after)[b] by {
                let a0 = if a < at { a } else { a + 1 };
                let b0 = if b < at { b } else { b + 1 };
                assert(keys_of(before)[a0] == after[a].key@);
                assert(keys_of(before)[b0] == after[b].key@);
            }
            assert forall|i: int| 0 <= i < after.len() implies m.contains_key(
                (#[trigger] after[i]).key@,
            ) && m[after[i].key@] == after[i].entry && after[i].entry.wf() by {
                let i0 = if i < at { i } else { i + 1 };
                assert(after[i] == before[i0]);
                assert(keys_of(before)[i0] == before[i0].key@);
                assert(keys_of(before)[at as int] == gone);
                lemma_map_of_at(before, i0);
            }
            assert forall|k: Seq<char>| #[trigger] m.contains_key(k) implies exists|i: int|
                0 <= i < after.len() && (#[trigger] after[i]).key@ == k by {
                lemma_map_of_dom(before, k);
                let i0 = choose|i: int| 0 <= i < before.len() && (#[trigger] before[i]).key@ == k;
                let i = if i0 < at { i0 } else { i0 - 1 };
                assert(after[i] == before[i0]);
            }
            lemma_map_of_is(after, m);
        }
    }

    /// Inserts `entry` under `key`, in place of any entry that the key had.
    pub fn set(&mut self, key: String, entry: Entry)
        requires
            old(self).wf(),
            entry.wf(),
        ensures
            final(self).wf(),
            final(self)@ == old(self)@.insert(key@, entry),
    {
        let ghost before = self.slots@;
        let ghost m = map_of(before).insert(key@, entry);
        let ghost wanted = key@;
        match self.position(key.as_str()) {
            Some(i) => {
                self.slots.set(i, Slot { key, entry });
                proof {
                    let after = self.slots@;
                    assert(keys_of(after) =~= keys_of(before));
                    assert forall|j: int| 0 <= j < after.len() implies m.contains_key(
                        (#[trigger] after[j]).key@,
                    ) && m[after[j].key@] == after[j].entry && after[j].entry.wf() by {
                        if j != i {
                            assert(after[j] == before[j]);
                            assert(keys_of(before)[j] == before[j].key@);
                            assert(keys_of(before)[i as int] == wanted);
                            lemma_map_of_at(before, j);
                        }
                    }
                    assert forall|k: Seq<char>| #[trigger] m.contains_key(k) implies exists|j: int|
                        0 <= j < after.len() && (#[trigger] after[j]).key@ == k by {
                        if k == wanted {
                            assert(after[i as int].key@ == k);
                        } else {
                            lemma_map_of_dom(before, k);
                            let j = choose|j: int|
                                0 <= j < before.len() && (#[trigger] before[j]).key@ == k;
                            assert(after[j].key@ == k);
                        }
                    }
                    lemma_map_of_is(after, m);
                }
            },
            None => {
                self.slots.push(Slot { key, entry });
                proof {
                    let after = self.slots@;
                    assert(after.drop_last() =~= before);
                    assert forall|a: int, b: int|
                        0 <= a < after.len() && 0 <= b < after.len() && a != b implies keys_of(
                        after,
                    )[a] != keys_of(after)[b] by {
                        if a < before.len() {
                            assert(keys_of(before)[a] == before[a].key@);
                        }
                        if b < before.len() {
                            assert(keys_of(before)[b] == before[b].key@);
                        }
                    }
                    assert forall|j: int| 0 <= j < after.len() implies (#[trigger] after[j]).entry.wf() by {
                        if j < before.len() {
                            assert(after[j] == before[j]);
                        }
                    }
                }
            },
        }
    }

    /// Removes `key` if it is stored, and says whether it was.
    pub fn delete(&mut self, key: &str) -> (removed: bool)
        requires
            old(self).wf(),
        ensures
            final(self).wf(),
            removed == old(self)@.contains_key(key@),
            final(self)@ == old(self)@.remove(key@),
            !final(self)@.contains_key(key@),
            !removed ==> final(self)@ == old(self)@,
    {
        match self.position(key) {
            Some(i) => {
                self.remove_slot(i);
                true
            },
            None => {
                assert(self@.remove(key@) =~= self@);
                false
            },
        }
    }

    /// Looks `key` up at a given clock reading. An entry that is found dead
    /// is removed, and the lookup answers as if it had never been there.
    pub fn get_at(&mut self, key: &str, now: Option<Timestamp>) -> (found: Option<Entry>)
        requires
            old(self).wf(),
            now matches Some(at) ==> at.wf(),
        ensures
            final(self).wf(),
            found == lookup(old(self)@, key@, now),
            final(self)@ == after_lookup(old(self)@, key@, now),
    {
        match self.position(key) {
            Some(i) => {
                if self.slots[i].entry.is_alive_at(now) {
                    Some(self.slots[i].entry.clone())
                } else {
                    self.remove_slot(i);
                    None
                }
            },
            None => None,
        }
    }

    /// Looks `key` up at the current wall-clock time. A key that is absent,
    /// or whose entry has expired, is not found; an expired entry is removed
    /// on the way. An entry without a time-to-live is always found.
    pub fn get(&mut self, key: &str) -> (found: Option<Entry>)
        requires
            old(self).wf(),
        ensures
            final(self).wf(),
            !old(self)@.contains_key(key@) ==> found is None && final(self)@ == old(self)@,
            old(self)@.contains_key(key@) && old(self)@[key@].expire_at is None ==> found == Some(
                old(self)@[key@],
            ) && final(self)@ == old(self)@,
            found matches Some(e) ==> old(self)@.contains_key(key@) && e == old(self)@[key@]
                && final(self)@ == old(self)@,
            found is None ==> final(self)@ == old(self)@.remove(key@),
            exists|at: Option<Timestamp>|
                (at matches Some(t) ==> t.wf()) && found == #[trigger] lookup(
                    old(self)@,
                    key@,
                    at,
                ) && final(self)@ == after_lookup(old(self)@, key@, at),
    {
        let ghost before = self@;
        let at = now();
        let found = self.get_at(key, at);
        assert(!before.contains_key(key@) ==> before.remove(key@) =~= before);
        assert(found == lookup(before, key@, at) && self@ == after_lookup(before, key@, at));
        found
    }

    /// Decides at the current wall-clock time whether `entry` is alive: an
    /// entry without an expiration instant always is, and one with an
    /// expiration instant is not where the clock cannot be read.
    pub fn check_ttl(entry: &Entry) -> (alive: bool)
        requires
            entry.wf(),
        ensures
            entry.expire_at is None ==> alive,
            exists|at: Option<Timestamp>|
                (at matches Some(t) ==> t.wf()) && alive == #[trigger] entry.alive_at(at),
    {
        let at = now();
        let alive = entry.is_alive_at(at);
        assert(alive == entry.alive_at(at));
        alive
    }

    /// The keys whose entries are dead at clock reading `now`.
    pub fn expired_keys_at(&self, now: Option<Timestamp>) -> (dead: Vec<String>)
        requires
            self.wf(),
            now matches Some(at) ==> at.wf(),
        ensures
            key_set(dead@) == Set::new(
                |k: Seq<char>| self@.contains_key(k) && !self@[k].alive_at(now),
            ),
    {
        let mut dead: Vec<String> = Vec::new();
        let mut i: usize = 0;
        while i < self.slots.len()
            invariant
                self.wf(),
                now matches Some(at) ==> at.wf(),
                i <= self.slots.len(),
                forall|j: int|
                    0 <= j < dead.len() ==> dead_among(self.slots@, i as int, now, (#[trigger] dead[j])@),
                forall|a: int|
                    0 <= a < i && !(#[trigger] self.slots[a]).entry.alive_at(now) ==> key_set(
                        dead@,
                    ).contains(self.slots[a].key@),
            decreases self.slots.len() - i,
        {
            if !self.slots[i].entry.is_alive_at(now) {
                let ghost prior = dead@;
                dead.push(self.slots[i].key.clone());
                proof {
                    assert forall|j: int| 0 <= j < dead.len() implies dead_among(
                        self.slots@,
                        i + 1,
                        now,
                        (#[trigger] dead[j])@,
                    ) by {
                        if j < prior.len() {
                            assert(dead[j] == prior[j]);
                            assert(dead_among(self.slots@, i as int, now, prior[j]@));
                            let a = choose|a: int|
                                0 <= a < i && a < self.slots.len() && (
                                #[trigger] self.slots@[a]).key@ == prior[j]@
                                    && !self.slots@[a].entry.alive_at(now);
                            assert(self.slots@[a].key@ == dead[j]@);
                        } else {
                            assert(self.slots@[i as int].key@ == dead[j]@);
                        }
                    }
                    assert forall|a: int|
                        0 <= a < i + 1 && !(#[trigger] self.slots[a]).entry.alive_at(
                            now,
                        ) implies key_set(dead@).contains(self.slots[a].key@) by {
                        if a < i {
                            assert(key_set(prior).contains(self.slots[a].key@));
                            let j = choose|j: int|
                                0 <= j < prior.len() && (#[trigger] prior[j])@
                                    == self.slots[a].key@;
                            assert(dead[j] == prior[j]);
                        } else {
                            assert(dead[prior.len() as int]@ == self.slots[a].key@);
                        }
                    }
                }
            } else {
                proof {
                    assert forall|j: int| 0 <= j < dead.len() implies dead_among(
                        self.slots@,
                        i + 1,
                        now,
                        (#[trigger] dead[j])@,
                    ) by {
                        assert(dead_among(self.slots@, i as int, now, dead[j]@));
                        let a = choose|a: int|
                            0 <= a < i && a < self.slots.len() && (
                            #[trigger] self.slots@[a]).key@ == dead[j]@
                                && !self.slots@[a].entry.alive_at(now);
                        assert(self.slots@[a].key@ == dead[j]@);
                    }
                }
            }
            i += 1;
        }
        proof {
            let target = Set::new(
                |k: Seq<char>| self@.contains_key(k) && !self@[k].alive_at(now),
            );
            assert forall|k: Seq<char>| key_set(dead@).contains(k) <==> target.contains(k) by {
                lemma_map_of_dom(self.slots@, k);
                if key_set(dead@).contains(k) {
                    let j = choose|j: int| 0 <= j < dead.len() && (#[trigger] dead[j])@ == k;
                    assert(dead_among(self.slots@, i as int, now, dead[j]@));
                    let a = choose|a: int|
                        0 <= a < i && a < self.slots.len() && (#[trigger] self.slots@[a]).key@
                            == dead[j]@ && !self.slots@[a].entry.alive_at(now);
                    lemma_map_of_at(self.slots@, a);
                }
                if target.contains(k) {
                    let a = choose|a: int|
                        0 <= a < self.slots.len() && (#[trigger] self.slots@[a]).key@ == k;
                    lemma_map_of_at(self.slots@, a);
                    assert(key_set(dead@).contains(self.slots[a].key@));
                }
            }
            assert(key_set(dead@) =~= target);
        }
        dead
    }

    /// Removes each of the given keys that is stored.
    pub fn delete_given_keys(&mut self, keys: &Vec<String>)
        requires
            old(self).wf(),
        ensures
            final(self).wf(),
            final(self)@ == old(self)@.remove_keys(key_set(keys@)),
    {
        let ghost before = self@;
        let mut i: usize = 0;
        assert(key_set(keys@.take(0)) =~= Set::<Seq<char>>::empty());
        assert(before.remove_keys(Set::<Seq<char>>::empty()) =~= before);
        while i < keys.len()
            invariant
                self.wf(),
                i <= keys.len(),
                self@ == before.remove_keys(key_set(keys@.take(i as int))),
            decreases keys.len() - i,
        {
            let ghost sofar = key_set(keys@.take(i as int));
            self.delete(keys[i].as_str());
            proof {
                let next = key_set(keys@.take(i + 1));
                assert forall|k: Seq<char>| next.contains(k) <==> (sofar.contains(k) || k
                    == keys[i as int]@) by {
                    if next.contains(k) {
                        let j = choose|j: int|
                            0 <= j < i + 1 && (#[trigger] keys@.take(i + 1)[j])@ == k;
                        if j < i {
                            assert(keys@.take(i as int)[j]@ == k);
                        }
                    }
                    if sofar.contains(k) {
                        let j = choose|j: int|
                            0 <= j < i && (#[trigger] keys@.take(i as int)[j])@ == k;
                        assert(keys@.take(i + 1)[j]@ == k);
                    }
                    if k == keys[i as int]@ {
                        assert(keys@.take(i + 1)[i as int]@ == k);
                    }
                }
                assert(self@ =~= before.remove_keys(next));
            }
            i += 1;
        }
        assert(keys@.take(keys.len() as int) =~= keys@);
    }

    /// Removes exactly the entries that are dead at clock reading `now`.
    pub fn purge_expired_at(&mut self, now: Option<Timestamp>)
        requires
            old(self).wf(),
            now matches Some(at) ==> at.wf(),
        ensures
            final(self).wf(),
            final(self)@ == purged(old(self)@, now),
    {
        let dead = self.expired_keys_at(now);
        let ghost before = self@;
        self.delete_given_keys(&dead);
        assert(self@ =~= purged(before, now));
    }

    /// Removes the entries that have expired at the current wall-clock time.
    /// Nothing is added or changed, and an entry without a time-to-live
    /// always stays.
    pub fn purge_expired(&mut self)
        requires
            old(self).wf(),
        ensures
            final(self).wf(),
            final(self)@.submap_of(old(self)@),
            forall|k: Seq<char>|
                old(self)@.contains_key(k) && (#[trigger] old(self)@[k]).expire_at is None
                    ==> final(self)@.contains_key(k),
            exists|at: Option<Timestamp>|
                (at matches Some(t) ==> t.wf()) && final(self)@ == #[trigger] purged(
                    old(self)@,
                    at,
                ),
    {
        let at = now();
        self.purge_expired_at(at);
        assert(self@ == purged(old(self)@, at));
    }

    /// Builds a store from a list of slots. Where a key occurs more than
    /// once, the last of its entries is kept.
    pub fn from_hashmap(data: Vec<Slot>) -> (s: Store)
        requires
            entries_wf(data@),
        ensures
            s.wf(),
            s@ == map_of(data@),
    {
        let mut s = Store::new();
        let mut i: usize = 0;
        while i < data.len()
            invariant
                s.wf(),
                entries_wf(data@),
                i <= data.len(),
                s@ == map_of(data@.take(i as int)),
            decreases data.len() - i,
        {
            s.set(data[i].key.clone(), data[i].entry.clone());
            proof {
                assert(data@.take(i + 1).drop_last() =~= data@.take(i as int));
            }
            i += 1;
        }
        assert(data@.take(data.len() as int) =~= data@);
        s
    }

    /// Prepares the store for saving at clock reading `now`: purges what is
    /// dead and hands out what is left, so that no dead entry is written.
    pub fn save_snapshot_at(&mut self, now: Option<Timestamp>) -> (all: Vec<Slot>)
        requires
            old(self).wf(),
            now matches Some(at) ==> at.wf(),
        ensures
            final(self).wf(),
            final(self)@ == purged(old(self)@, now),
            entries_wf(all@),
            map_of(all@) == final(self)@,
    {
        self.purge_expired_at(now);
        self.entries()
    }

    /// Prepares the store for saving at the current wall-clock time. What is
    /// handed out is what the store holds afterwards: nothing new, and every
    /// entry without a time-to-live.
    pub fn save_snapshot(&mut self) -> (all: Vec<Slot>)
        requires
            old(self).wf(),
        ensures
            final(self).wf(),
            entries_wf(all@),
            map_of(all@) == final(self)@,
            final(self)@.submap_of(old(self)@),
            forall|k: Seq<char>|
                old(self)@.contains_key(k) && (#[trigger] old(self)@[k]).expire_at is None
                    ==> final(self)@.contains_key(k),
            exists|at: Option<Timestamp>|
                (at matches Some(t) ==> t.wf()) && final(self)@ == #[trigger] purged(
                    old(self)@,
                    at,
                ),
    {
        let at = now();
        let all = self.save_snapshot_at(at);
        assert(self@ == purged(old(self)@, at));
        all
    }

    /// The stored slots, in key order.
    pub fn entries(&self) -> (all: Vec<Slot>)
        requires
            self.wf(),
        ensures
            entries_wf(all@),
            keys_of(all@) == self.key_order(),
            map_of(all@) == self@,
    {
        let mut all: Vec<Slot> = Vec::new();
        let mut i: usize = 0;
        while i < self.slots.len()
            invariant
                self.wf(),
                i <= self.slots.len(),
                all@ == self.slots@.take(i as int),
            decreases self.slots.len() - i,
        {
            all.push(Slot { key: self.slots[i].key.clone(), entry: self.slots[i].entry.clone() });
            proof {
                assert(all@ =~= self.slots@.take(i + 1));
            }
            i += 1;
        }
        assert(self.slots@.take(self.slots.len() as int) =~= self.slots@);
        all
    }

    /// All stored keys, whether or not their entries have expired.
    pub fn keys(&self) -> (keys: Vec<String>)
        requires
            self.wf(),
        ensures
            keys.len() == self.key_order().len(),
            forall|i: int| 0 <= i < keys.len() ==> (#[trigger] keys[i])@ == self.key_order()[i],
            self.key_order().no_duplicates(),
            self.key_order().to_set() == self@.dom(),
            key_set(keys@) == self@.dom(),
    {
        let mut keys: Vec<String> = Vec::new();
        let mut i: usize = 0;
        while i < self.slots.len()
            invariant
                i <= self.slots.len(),
                keys.len() == i,
                forall|j: int| 0 <= j < i ==> (#[trigger] keys[j])@ == self.slots[j].key@,
            decreases self.slots.len() - i,
        {
            keys.push(self.slots[i].key.clone());
            i += 1;
        }
        proof {
            self.lemma_wf();
            let order = self.key_order();
            assert forall|k: Seq<char>| key_set(keys@).contains(k) <==> order.to_set().contains(
                k,
            ) by {
                if key_set(keys@).contains(k) {
                    let j = choose|j: int| 0 <= j < keys.len() && (#[trigger] keys[j])@ == k;
                    assert(order[j] == k);
                }
                if order.contains(k) {
                    let j = choose|j: int| 0 <= j < order.len() && order[j] == k;
                    assert(keys[j]@ == k);
                }
            }
            assert(key_set(keys@) =~= order.to_set());
        }
        keys
    }
}

/// A key set to an entry without a time-to-live is found with that entry at
/// every clock reading, and the lookup leaves the mapping as it is.
pub proof fn law_set_get_without_ttl(
    m: Map<Seq<char>, Entry>,
    key: Seq<char>,
    entry: Entry,
    later: Option<Timestamp>,
)
    requires
        entry.expire_at is None,
    ensures
        lookup(m.insert(key, entry), key, later) == Some(entry),
        after_lookup(m.insert(key, entry), key, later) == m.insert(key, entry),
{
}

/// A key set at `now` with a time-to-live of `ttl_secs` seconds is found at
/// `now`, and at `later` exactly when no more than `ttl_secs` seconds have
/// passed; once more have passed, the lookup removes the key.
pub proof fn law_set_get_with_ttl(
    m: Map<Seq<char>, Entry>,
    key: Seq<char>,
    value: String,
    ttl_secs: u64,
    now: Timestamp,
    later: Timestamp,
)
    requires
        now.wf(),
        later.wf(),
    ensures
        ({
            let entry = Entry { value, expire_at: Entry::spec_deadline(Some(ttl_secs), Some(now)) };
            let set = m.insert(key, entry);
            let elapsed = later.as_nanos() > now.as_nanos() + ttl_secs as int * 1_000_000_000;
            &&& lookup(set, key, Some(now)) == Some(entry)
            &&& !elapsed ==> lookup(set, key, Some(later)) == Some(entry)
            &&& elapsed ==> lookup(set, key, Some(later)) is None && !after_lookup(
                set,
                key,
                Some(later),
            ).contains_key(key)
        }),
{
    crate::entry::law_ttl_window(value, ttl_secs, now, later);
}

/// A purge removes exactly the keys whose entries are dead: what stays is
/// unchanged, nothing is added, an entry without a time-to-live always
/// stays, and a second purge at the same clock reading removes nothing.
pub proof fn law_purge_exact(m: Map<Seq<char>, Entry>, now: Option<Timestamp>)
    ensures
        forall|k: Seq<char>|
            purged(m, now).contains_key(k) <==> m.contains_key(k) && (#[trigger] m[k]).alive_at(now),
        forall|k: Seq<char>| #[trigger] purged(m, now).contains_key(k) ==> purged(m, now)[k] == m[k],
        forall|k: Seq<char>|
            m.contains_key(k) && (#[trigger] m[k]).expire_at is None ==> purged(m, now).contains_key(
                k,
            ),
        purged(purged(m, now), now) == purged(m, now),
{
    assert(purged(purged(m, now), now) =~= purged(m, now));
}

/// Saving at `now` and loading again keeps exactly the entries that were
/// alive at `now`, each as it was: the slots written are those of the purged
/// mapping, a store built from them holds that mapping, and every later
/// lookup of a kept key answers as it would have without the save.
pub proof fn law_save_then_load(
    m: Map<Seq<char>, Entry>,
    saved: Seq<Slot>,
    now: Option<Timestamp>,
    key: Seq<char>,
    later: Option<Timestamp>,
)
    requires
        map_of(saved) == purged(m, now),
    ensures
        map_of(saved).contains_key(key) <==> m.contains_key(key) && m[key].alive_at(now),
        map_of(saved).contains_key(key) ==> map_of(saved)[key] == m[key] && lookup(
            map_of(saved),
            key,
            later,
        ) == lookup(m, key, later),
        m.contains_key(key) && m[key].expire_at is None ==> map_of(saved).contains_key(key),
{
}

} // verus!
