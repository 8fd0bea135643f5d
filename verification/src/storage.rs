//! Local key-value storage of already-structured race and odds records.
//!
//! The repository is an explicitly constructed instance holding a map from
//! string keys to serialized payloads; persistence of that map is the
//! caller's concern.  Keys are built from the (date, place, race) triple.

use vstd::prelude::*;
use crate::textutil::{
    dec_str, u32_to_string, str_eq, str_contains, str_ends_with, contains_seq, ends_with,
};

verus! {

/// The key under which one record of `kind` for (date, place, race) is held.
pub open spec fn spec_race_key(
    date: Seq<char>,
    place: int,
    race: int,
    kind: Seq<char>,
) -> Seq<char> {
    "race_"@ + date + seq!['_'] + dec_str(place as nat) + seq!['_'] + dec_str(race as nat) + seq![
        '_',
    ] + kind
}

/// Builds the storage key for one record.
pub fn race_key(date: &str, place: u32, race: u32, kind: &str) -> (r: String)
    ensures
        r@ == spec_race_key(date@, place as int, race as int, kind@),
{
    let mut s = String::from_str("race_");
    s.append(date);
    s.push('_');
    s.append(u32_to_string(place).as_str());
    s.push('_');
    s.append(u32_to_string(race).as_str());
    s.push('_');
    s.append(kind);
    proof {
        reveal_strlit("race_");
        assert(s@ =~= spec_race_key(date@, place as int, race as int, kind@));
    }
    s
}

/// The first entry (before `k`) holding the given key.
pub open spec fn spec_kv_find(entries: Seq<(String, String)>, key: Seq<char>, k: int) -> Option<
    int,
>
    decreases k,
{
    if k <= 0 {
        None
    } else {
        match spec_kv_find(entries, key, k - 1) {
            Some(i) => Some(i),
            None => if entries[k - 1].0@ == key {
                Some(k - 1)
            } else {
                None
            },
        }
    }
}

/// No two entries share a key.
pub open spec fn kv_unique(entries: Seq<(String, String)>) -> bool {
    forall|i: int, j: int|
        0 <= i < j < entries.len() ==> (#[trigger] entries[i]).0@ != (#[trigger] entries[j]).0@
}

/// The local repository: a keyed store of serialized records.
pub struct LocalDbRepository {
    pub entries: Vec<(String, String)>,
}

impl LocalDbRepository {
    /// Repository invariant: keys are unique.
    pub open spec fn wf(self) -> bool {
        kv_unique(self.entries@)
    }

    /// The value held under `key`, if any.
    pub open spec fn spec_get(self, key: Seq<char>) -> Option<Seq<char>> {
        match spec_kv_find(self.entries@, key, self.entries@.len() as int) {
            Some(i) => Some(self.entries@[i].1@),
            None => None,
        }
    }

    /// An empty repository.
    pub fn new() -> (r: LocalDbRepository)
        ensures
            r.wf(),
            r.entries@.len() == 0,
    {
        LocalDbRepository { entries: Vec::new() }
    }

    /// Finds the entry holding `key`, if any.
    fn find(&self, key: &str) -> (r: Option<usize>)
        ensures
            match r {
                Some(i) => i < self.entries@.len() && spec_kv_find(
                    self.entries@,
                    key@,
                    self.entries@.len() as int,
                ) == Some(i as int),
                None => spec_kv_find(self.entries@, key@, self.entries@.len() as int) is None,
            },
    {
        let mut i: usize = 0;
        while i < self.entries.len()
            invariant
                i <= self.entries@.len(),
                spec_kv_find(self.entries@, key@, i as int) is None,
            decreases self.entries@.len() - i,
        {
            if str_eq(self.entries[i].0.as_str(), key) {
                proof {
                    lemma_kv_find_stable(
                        self.entries@,
                        key@,
                        i as int + 1,
                        self.entries@.len() as int,
                    );
                }
                return Some(i);
            }
            i = i + 1;
        }
        None
    }

    /// Stores `value` under `key`, replacing any earlier value.
    pub fn put(&mut self, key: String, value: String)
        requires
            old(self).wf(),
        ensures
            final(self).wf(),
            final(self).spec_get(key@) == Some(value@),
            forall|k2: Seq<char>|
                k2 != key@ ==> final(self).spec_get(k2) == old(self).spec_get(k2),
    {
        let ghost keyv = key@;
        let found = self.find(key.as_str());
        let ghost oentries = self.entries@;
        match found {
            Some(i) => {
                proof {
                    lemma_kv_find_first(oentries, keyv, oentries.len() as int);
                }
                self.entries.set(i, (key, value));
                proof {
                    lemma_kv_update(oentries, i as int, self.entries@[i as int]);
                    assert forall|k2: Seq<char>| k2 != keyv implies final(self).spec_get(k2)
                        == old(self).spec_get(k2) by {
                        assert(lookup(self.entries@, k2) == lookup(oentries, k2));
                    }
                }
            },
            None => {
                self.entries.push((key, value));
                proof {
                    lemma_kv_find_none_all(oentries, self.entries@[oentries.len() as int].0@);
                    lemma_kv_push(oentries, self.entries@[oentries.len() as int]);
                    assert forall|k2: Seq<char>| k2 != keyv implies final(self).spec_get(k2)
                        == old(self).spec_get(k2) by {
                        assert(lookup(self.entries@, k2) == lookup(oentries, k2));
                    }
                }
            },
        }
    }

    /// The value under `key`, copied out.
    pub fn get(&self, key: &str) -> (r: Option<String>)
        ensures
            match r {
                Some(v) => self.spec_get(key@) == Some(v@),
                None => self.spec_get(key@) is None,
            },
    {
        match self.find(key) {
            Some(i) => Some(self.entries[i].1.clone()),
            None => None,
        }
    }

    /// Removes the entry under `key`, if one exists; absent keys are not an
    /// error.
    pub fn delete(&mut self, key: &str)
        requires
            old(self).wf(),
        ensures
            final(self).wf(),
            final(self).spec_get(key@) is None,
            forall|k2: Seq<char>|
                k2 != key@ ==> final(self).spec_get(k2) == old(self).spec_get(k2),
    {
        let found = self.find(key);
        let ghost oentries = self.entries@;
        match found {
            Some(i) => {
                self.entries.remove(i);
                proof {
                    lemma_kv_remove(oentries, i as int, key@);
                    assert forall|k2: Seq<char>| k2 != key@ implies final(self).spec_get(k2)
                        == old(self).spec_get(k2) by {
                        assert(lookup(self.entries@, k2) == lookup(oentries, k2));
                    }
                }
            },
            None => {
                proof {
                    lemma_kv_find_none_all(oentries, key@);
                }
            },
        }
    }

    /// All keys, in table order.
    pub fn keys(&self) -> (r: Vec<String>)
        ensures
            r@.len() == self.entries@.len(),
            forall|i: int|
                0 <= i < r@.len() ==> (#[trigger] r@[i])@ == self.entries@[i].0@,
    {
        let mut out: Vec<String> = Vec::new();
        let mut i: usize = 0;
        while i < self.entries.len()
            invariant
                i <= self.entries@.len(),
                out@.len() == i,
                forall|q: int|
                    0 <= q < i ==> (#[trigger] out@[q])@ == self.entries@[q].0@,
            decreases self.entries@.len() - i,
        {
            out.push(self.entries[i].0.clone());
            i = i + 1;
        }
        out
    }

    /// Removes every entry.
    pub fn clear(&mut self)
        ensures
            final(self).wf(),
            final(self).entries@.len() == 0,
    {
        self.entries.clear();
    }
}

proof fn lemma_kv_find_stable(entries: Seq<(String, String)>, key: Seq<char>, k: int, n: int)
    requires
        0 < k <= n <= entries.len(),
        (spec_kv_find(entries, key, k) is Some),
    ensures
        spec_kv_find(entries, key, n) == spec_kv_find(entries, key, k),
    decreases n - k,
{
    if k < n {
        lemma_kv_find_stable(entries, key, k + 1, n);
    }
}

proof fn lemma_kv_find_none_all(entries: Seq<(String, String)>, key: Seq<char>)
    requires
        (spec_kv_find(entries, key, entries.len() as int) is None),
    ensures
        forall|j: int| 0 <= j < entries.len() ==> (#[trigger] entries[j]).0@ != key,
{
    lemma_kv_find_none_upto(entries, key, entries.len() as int);
}

proof fn lemma_kv_find_none_upto(entries: Seq<(String, String)>, key: Seq<char>, k: int)
    requires
        k <= entries.len(),
        (spec_kv_find(entries, key, k) is None),
    ensures
        forall|j: int| 0 <= j < k ==> (#[trigger] entries[j]).0@ != key,
    decreases k,
{
    if k > 0 {
        lemma_kv_find_none_upto(entries, key, k - 1);
    }
}

proof fn lemma_kv_find_first(entries: Seq<(String, String)>, key: Seq<char>, k: int)
    requires
        k <= entries.len(),
        (spec_kv_find(entries, key, k) is Some),
    ensures
        ({
            let i = spec_kv_find(entries, key, k)->0;
            0 <= i < k && entries[i].0@ == key
        }),
    decreases k,
{
    if k > 0 && (match spec_kv_find(entries, key, k - 1) {
        Some(_) => true,
        None => false,
    }) {
        lemma_kv_find_first(entries, key, k - 1);
    }
}

/// After an in-place update at the key's slot, lookups behave like a map
/// update.
proof fn lemma_kv_update(entries: Seq<(String, String)>, i: int, e: (String, String))
    requires
        kv_unique(entries),
        0 <= i < entries.len(),
        entries[i].0@ == e.0@,
    ensures
        kv_unique(entries.update(i, e)),
        ({
            let upd = entries.update(i, e);
            &&& spec_kv_find(upd, e.0@, upd.len() as int) matches Some(q) && upd[q].1@ == e.1@
            &&& forall|k2: Seq<char>|
                k2 != e.0@ ==> #[trigger] lookup(upd, k2) == lookup(entries, k2)
        }),
{
    let upd = entries.update(i, e);
    assert(kv_unique(upd));
    lemma_kv_lookup_unique(upd, e.0@, i);
    assert forall|k2: Seq<char>| k2 != e.0@ implies #[trigger] lookup(upd, k2) == lookup(
        entries,
        k2,
    ) by {
        lemma_kv_find_agrees(entries, upd, k2, entries.len() as int);
    }
}

/// The looked-up value under a key, as one spec term.
pub open spec fn lookup(entries: Seq<(String, String)>, key: Seq<char>) -> Option<Seq<char>> {
    match spec_kv_find(entries, key, entries.len() as int) {
        Some(i) => Some(entries[i].1@),
        None => None,
    }
}

/// Two tables that agree on which positions hold a key agree on lookups of
/// that key.
proof fn lemma_kv_find_agrees(
    a: Seq<(String, String)>,
    b: Seq<(String, String)>,
    key: Seq<char>,
    k: int,
)
    requires
        a.len() == b.len(),
        k <= a.len(),
        forall|j: int|
            0 <= j < a.len() ==> ((#[trigger] a[j]).0@ == key <==> (#[trigger] b[j]).0@ == key),
        forall|j: int| 0 <= j < a.len() && a[j].0@ == key ==> a[j].1@ == b[j].1@,
    ensures
        spec_kv_find(a, key, k) == spec_kv_find(b, key, k),
        k == a.len() ==> lookup(a, key) == lookup(b, key),
    decreases k,
{
    if k > 0 {
        lemma_kv_find_agrees(a, b, key, k - 1);
    }
    if k == a.len() {
        match spec_kv_find(a, key, k) {
            Some(i) => {
                lemma_kv_find_first(a, key, k);
                assert(a[i].1@ == b[i].1@) by {
                    assert(a[i].0@ == key);
                }
            },
            None => {},
        }
    }
}

/// In a unique table, the found index for a present key is the key's slot.
proof fn lemma_kv_lookup_unique(entries: Seq<(String, String)>, key: Seq<char>, i: int)
    requires
        kv_unique(entries),
        0 <= i < entries.len(),
        entries[i].0@ == key,
    ensures
        spec_kv_find(entries, key, entries.len() as int) matches Some(q) && q == i,
{
    lemma_kv_some_from(entries, key, i);
    lemma_kv_find_first(entries, key, entries.len() as int);
    let q = spec_kv_find(entries, key, entries.len() as int)->0;
    if q != i {
        assert(entries[q].0@ == key);
        assert(false);
    }
}

proof fn lemma_kv_some_from(entries: Seq<(String, String)>, key: Seq<char>, i: int)
    requires
        0 <= i < entries.len(),
        entries[i].0@ == key,
    ensures
        (spec_kv_find(entries, key, entries.len() as int) is Some),
{
    assert(spec_kv_find(entries, key, i + 1) is Some);
    lemma_kv_find_stable(entries, key, i + 1, entries.len() as int);
}

/// After appending a fresh key, lookups behave like a map insert.
proof fn lemma_kv_push(entries: Seq<(String, String)>, e: (String, String))
    requires
        kv_unique(entries),
        forall|j: int| 0 <= j < entries.len() ==> (#[trigger] entries[j]).0@ != e.0@,
    ensures
        kv_unique(entries.push(e)),
        lookup(entries.push(e), e.0@) == Some(e.1@),
        forall|k2: Seq<char>|
            k2 != e.0@ ==> #[trigger] lookup(entries.push(e), k2) == lookup(entries, k2),
{
    let p = entries.push(e);
    assert(kv_unique(p)) by {
        assert(forall|j: int| 0 <= j < entries.len() ==> p[j] == entries[j]);
    }
    lemma_kv_lookup_unique(p, e.0@, entries.len() as int);
    assert forall|k2: Seq<char>| k2 != e.0@ implies #[trigger] lookup(p, k2) == lookup(
        entries,
        k2,
    ) by {
        lemma_kv_find_push_other(entries, e, k2, entries.len() as int);
    }
}

proof fn lemma_kv_find_push_other(
    entries: Seq<(String, String)>,
    e: (String, String),
    key: Seq<char>,
    k: int,
)
    requires
        key != e.0@,
        k <= entries.len(),
    ensures
        spec_kv_find(entries.push(e), key, k) == spec_kv_find(entries, key, k),
        k == entries.len() ==> lookup(entries.push(e), key) == lookup(entries, key),
    decreases k,
{
    if k > 0 {
        lemma_kv_find_push_other(entries, e, key, k - 1);
        assert(entries.push(e)[k - 1] == entries[k - 1]);
    }
    if k == entries.len() {
        let p = entries.push(e);
        assert(spec_kv_find(p, key, p.len() as int) == spec_kv_find(p, key, k)) by {
            assert(p[p.len() - 1] == e);
        }
        match spec_kv_find(entries, key, k) {
            Some(i) => {
                lemma_kv_find_first(entries, key, k);
                assert(p[i] == entries[i]);
            },
            None => {},
        }
    }
}

/// After removing the key's slot, lookups behave like a map remove.
proof fn lemma_kv_remove(entries: Seq<(String, String)>, i: int, key: Seq<char>)
    requires
        kv_unique(entries),
        0 <= i < entries.len(),
        spec_kv_find(entries, key, entries.len() as int) == Some(i),
    ensures
        kv_unique(entries.remove(i)),
        lookup(entries.remove(i), key) is None,
        forall|k2: Seq<char>|
            k2 != key ==> #[trigger] lookup(entries.remove(i), k2) == lookup(entries, k2),
{
    lemma_kv_find_first(entries, key, entries.len() as int);
    assert(entries[i].0@ == key);
    let rem = entries.remove(i);
    assert(kv_unique(rem)) by {
        assert(forall|j: int| 0 <= j < i ==> rem[j] == entries[j]);
        assert(forall|j: int| i <= j < rem.len() ==> rem[j] == entries[j + 1]);
    }
    assert(forall|j: int| 0 <= j < rem.len() ==> (#[trigger] rem[j]).0@ != key) by {
        assert(forall|j: int| 0 <= j < i ==> rem[j] == entries[j]);
        assert(forall|j: int| i <= j < rem.len() ==> rem[j] == entries[j + 1]);
    }
    lemma_kv_none_when_absent(rem, key, rem.len() as int);
    assert forall|k2: Seq<char>| k2 != key implies #[trigger] lookup(rem, k2) == lookup(
        entries,
        k2,
    ) by {
        match spec_kv_find(entries, k2, entries.len() as int) {
            Some(q) => {
                lemma_kv_find_first(entries, k2, entries.len() as int);
                if q < i {
                    assert(rem[q] == entries[q]);
                    lemma_kv_lookup_unique(rem, k2, q);
                } else {
                    assert(q != i);
                    assert(rem[q - 1] == entries[q]);
                    lemma_kv_lookup_unique(rem, k2, q - 1);
                }
                lemma_kv_lookup_unique(entries, k2, q);
            },
            None => {
                lemma_kv_find_none_all(entries, k2);
                assert(forall|j: int| 0 <= j < rem.len() ==> (#[trigger] rem[j]).0@ != k2) by {
                    assert(forall|j: int| 0 <= j < i ==> rem[j] == entries[j]);
                    assert(forall|j: int| i <= j < rem.len() ==> rem[j] == entries[j + 1]);
                }
                lemma_kv_none_when_absent(rem, k2, rem.len() as int);
            },
        }
    }
}

proof fn lemma_kv_none_when_absent(entries: Seq<(String, String)>, key: Seq<char>, k: int)
    requires
        k <= entries.len(),
        forall|j: int| 0 <= j < entries.len() ==> (#[trigger] entries[j]).0@ != key,
    ensures
        (spec_kv_find(entries, key, k) is None),
    decreases k,
{
    if k > 0 {
        lemma_kv_none_when_absent(entries, key, k - 1);
    }
}

// ------------------------------------------------------------------
// The storage service
// ------------------------------------------------------------------

/// The storage service: race and odds records keyed by (date, place, race),
/// held as serialized payloads.
pub struct StorageService {
    pub repo: LocalDbRepository,
}

impl StorageService {
    /// Opens the storage service over a fresh repository.
    pub fn new() -> (r: Result<StorageService, String>)
        ensures
            r matches Ok(s) && s.repo.wf() && s.repo.entries@.len() == 0,
    {
        Ok(StorageService { repo: LocalDbRepository::new() })
    }

    /// Stores one race record's serialized payload.
    pub fn save_race(&mut self, date: &str, place: u32, race: u32, payload: String) -> (r: Result<
        (),
        String,
    >)
        requires
            old(self).repo.wf(),
        ensures
            final(self).repo.wf(),
            r is Ok,
            final(self).repo.spec_get(spec_race_key(date@, place as int, race as int, "data"@))
                == Some(payload@),
            forall|k2: Seq<char>|
                k2 != spec_race_key(date@, place as int, race as int, "data"@) ==> final(self).repo.spec_get(k2)
                    == old(self).repo.spec_get(k2),
    {
        let key = race_key(date, place, race, "data");
        proof {
            reveal_strlit("data");
        }
        self.repo.put(key, payload);
        Ok(())
    }

    /// The serialized payload of one race record, if stored.
    pub fn get_race(&self, date: &str, place: u32, race: u32) -> (r: Option<String>)
        ensures
            match r {
                Some(v) => self.repo.spec_get(
                    spec_race_key(date@, place as int, race as int, "data"@),
                ) == Some(v@),
                None => self.repo.spec_get(
                    spec_race_key(date@, place as int, race as int, "data"@),
                ) is None,
            },
    {
        let key = race_key(date, place, race, "data");
        proof {
            reveal_strlit("data");
        }
        self.repo.get(key.as_str())
    }

    /// Stores one odds record's serialized payload.
    pub fn save_odds(&mut self, date: &str, place: u32, race: u32, payload: String) -> (r: Result<
        (),
        String,
    >)
        requires
            old(self).repo.wf(),
        ensures
            final(self).repo.wf(),
            r is Ok,
            final(self).repo.spec_get(spec_race_key(date@, place as int, race as int, "odds"@))
                == Some(payload@),
            forall|k2: Seq<char>|
                k2 != spec_race_key(date@, place as int, race as int, "odds"@) ==> final(self).repo.spec_get(k2)
                    == old(self).repo.spec_get(k2),
    {
        let key = race_key(date, place, race, "odds");
        proof {
            reveal_strlit("odds");
        }
        self.repo.put(key, payload);
        Ok(())
    }

    /// The serialized payload of one odds record, if stored.
    pub fn get_odds(&self, date: &str, place: u32, race: u32) -> (r: Option<String>)
        ensures
            match r {
                Some(v) => self.repo.spec_get(
                    spec_race_key(date@, place as int, race as int, "odds"@),
                ) == Some(v@),
                None => self.repo.spec_get(
                    spec_race_key(date@, place as int, race as int, "odds"@),
                ) is None,
            },
    {
        let key = race_key(date, place, race, "odds");
        proof {
            reveal_strlit("odds");
        }
        self.repo.get(key.as_str())
    }

    /// All stored race-related keys: those containing the race prefix and
    /// ending in the data or odds kind.
    pub fn get_all_race_keys(&self) -> (r: Result<Vec<String>, String>)
        ensures
            r matches Ok(keys) && keys@.len() <= self.repo.entries@.len() && (forall|q: int|
                0 <= q < keys@.len() ==> contains_seq((#[trigger] keys@[q])@, "race_"@) && (
                ends_with(keys@[q]@, "_data"@) || ends_with(keys@[q]@, "_odds"@))),
    {
        let all = self.repo.keys();
        let mut out: Vec<String> = Vec::new();
        let mut i: usize = 0;
        while i < all.len()
            invariant
                i <= all@.len(),
                out@.len() <= i,
                forall|q: int|
                    0 <= q < out@.len() ==> contains_seq((#[trigger] out@[q])@, "race_"@) && (
                    ends_with(out@[q]@, "_data"@) || ends_with(out@[q]@, "_odds"@)),
            decreases all@.len() - i,
        {
            let keep = str_contains(all[i].as_str(), "race_") && (str_ends_with(
                all[i].as_str(),
                "_data",
            ) || str_ends_with(all[i].as_str(), "_odds"));
            if keep {
                out.push(all[i].clone());
            }
            i = i + 1;
        }
        proof {
            assert(all@.len() == self.repo.entries@.len());
        }
        Ok(out)
    }

    /// Deletes the race and odds records of one (date, place, race) key;
    /// absent records are not an error.
    pub fn delete_race(&mut self, date: &str, place: u32, race: u32) -> (r: Result<(), String>)
        requires
            old(self).repo.wf(),
        ensures
            final(self).repo.wf(),
            r is Ok,
            final(self).repo.spec_get(spec_race_key(date@, place as int, race as int, "data"@))
                is None,
            final(self).repo.spec_get(spec_race_key(date@, place as int, race as int, "odds"@))
                is None,
            forall|k2: Seq<char>|
                k2 != spec_race_key(date@, place as int, race as int, "data"@) && k2
                    != spec_race_key(date@, place as int, race as int, "odds"@) ==> final(self).repo.spec_get(k2)
                    == old(self).repo.spec_get(k2),
    {
        let data_key = race_key(date, place, race, "data");
        let odds_key = race_key(date, place, race, "odds");
        proof {
            reveal_strlit("data");
            reveal_strlit("odds");
        }
        self.repo.delete(data_key.as_str());
        self.repo.delete(odds_key.as_str());
        proof {
            reveal_strlit("data");
            reveal_strlit("odds");
            assert(spec_race_key(date@, place as int, race as int, "data"@) != spec_race_key(
                date@,
                place as int,
                race as int,
                "odds"@,
            )) by {
                let a = spec_race_key(date@, place as int, race as int, "data"@);
                let b = spec_race_key(date@, place as int, race as int, "odds"@);
                assert(a.len() == b.len());
                assert(a[a.len() - 4] == 'd');
                assert(b[b.len() - 4] == 'o');
            }
        }
        Ok(())
    }

    /// Removes every stored record.
    pub fn clear_all(&mut self) -> (r: Result<(), String>)
        ensures
            final(self).repo.wf(),
            r is Ok,
            final(self).repo.entries@.len() == 0,
    {
        self.repo.clear();
        Ok(())
    }
}

} // verus!
