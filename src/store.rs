//! The key-to-envelope mapping, its file text, and the get/set operations
//! that pass values through the codec.
use crate::codec::{decrypt, encrypt, opened_envelope, sealed_envelope, CipherError, NONCE_LEN};
use std::collections::BTreeMap;
use vstd::prelude::*;
use vstd::string::*;

verus! {

/// No key occurs twice among `entries`.
pub open spec fn keys_unique(entries: Seq<(String, String)>) -> bool {
    forall|i: int, j: int|
        0 <= i < j < entries.len() ==> #[trigger] entries[i].0@ != #[trigger] entries[j].0@
}

/// Some entry has key `key`.
pub open spec fn has_key(entries: Seq<(String, String)>, key: Seq<char>) -> bool {
    exists|i: int| 0 <= i < entries.len() && #[trigger] entries[i].0@ == key
}

/// The mapping that a list of entries with unique keys stands for.
pub open spec fn map_of(entries: Seq<(String, String)>) -> Map<Seq<char>, Seq<char>> {
    Map::new(
        |k: Seq<char>| has_key(entries, k),
        |k: Seq<char>|
            entries[choose|i: int| 0 <= i < entries.len() && #[trigger] entries[i].0@ == k].1@,
    )
}

/// The text that `serde_json` writes, pretty-printed, for a string-to-string map.
pub uninterp spec fn json_text_of(m: Map<Seq<char>, Seq<char>>) -> Seq<char>;

/// The string-to-string map that `serde_json` reads from `text`, if it reads one.
pub uninterp spec fn json_parsed(text: Seq<char>) -> Option<Map<Seq<char>, Seq<char>>>;

/// Relies on `serde_json::to_string_pretty` over a `BTreeMap<String, String>`:
/// documented to fail only on a failing `Serialize` impl or on non-string
/// keys, neither of which a string map has; `serde_json::from_str` reads
/// the written text back to the same map.
#[verifier::external_body]
fn json_write(entries: &Vec<(String, String)>) -> (r: Option<String>)
    requires
        keys_unique(entries@),
    ensures
        r is Some,
        r matches Some(t) ==> t@ == json_text_of(map_of(entries@)),
        r matches Some(t) ==> json_parsed(t@) == Some(map_of(entries@)),
{
    let m: BTreeMap<String, String> = entries.iter().cloned().collect();
    serde_json::to_string_pretty(&m).ok()
}

/// Relies on `serde_json::from_str` into a `BTreeMap<String, String>`, whose
/// entries come out one per key.
#[verifier::external_body]
fn json_read(text: &str) -> (r: Option<Vec<(String, String)>>)
    ensures
        r is Some <==> json_parsed(text@) is Some,
        r matches Some(v) ==> keys_unique(v@) && map_of(v@) == json_parsed(text@)->0,
{
    match serde_json::from_str::<BTreeMap<String, String>>(text) {
        Ok(m) => Some(m.into_iter().collect()),
        Err(_) => None,
    }
}

proof fn lemma_map_of_at(entries: Seq<(String, String)>, i: int)
    requires
        keys_unique(entries),
        0 <= i < entries.len(),
    ensures
        map_of(entries).contains_key(entries[i].0@),
        map_of(entries)[entries[i].0@] == entries[i].1@,
{
    let k = entries[i].0@;
    assert(has_key(entries, k));
    let j = choose|j: int| 0 <= j < entries.len() && #[trigger] entries[j].0@ == k;
    if j < i {
        assert(entries[j].0@ != entries[i].0@);
    } else if i < j {
        assert(entries[i].0@ != entries[j].0@);
    }
}

proof fn lemma_map_of_len(entries: Seq<(String, String)>)
    requires
        keys_unique(entries),
    ensures
        map_of(entries).dom().finite(),
        map_of(entries).len() == entries.len(),
{
    let keys = entries.map_values(|e: (String, String)| e.0@);
    assert(keys.no_duplicates()) by {
        assert forall|i: int, j: int|
            0 <= i < keys.len() && 0 <= j < keys.len() && i != j implies keys[i] != keys[j] by {
            if i < j {
                assert(entries[i].0@ != entries[j].0@);
            } else {
                assert(entries[j].0@ != entries[i].0@);
            }
        }
    }
    keys.unique_seq_to_set();
    assert forall|k: Seq<char>| #[trigger] map_of(entries).dom().contains(k) == keys.to_set().contains(k) by {
        if has_key(entries, k) {
            let i = choose|i: int| 0 <= i < entries.len() && #[trigger] entries[i].0@ == k;
            assert(keys[i] == k);
        }
        if keys.to_set().contains(k) {
            let i = choose|i: int| 0 <= i < keys.len() && keys[i] == k;
            assert(entries[i].0@ == k);
        }
    }
    assert(map_of(entries).dom() =~= keys.to_set());
}

/// The in-memory mapping from key to envelope text.
pub struct Store {
    entries: Vec<(String, String)>,
}

impl View for Store {
    type V = Map<Seq<char>, Seq<char>>;

    closed spec fn view(&self) -> Map<Seq<char>, Seq<char>> {
        map_of(self.entries@)
    }
}

impl Store {
    /// Every key occurs once.
    pub closed spec fn wf(&self) -> bool {
        keys_unique(self.entries@)
    }

    /// An empty store.
    pub fn new() -> (r: Store)
        ensures
            r.wf(),
            r@ == Map::<Seq<char>, Seq<char>>::empty(),
    {
        let r = Store { entries: Vec::new() };
        assert(r@ =~= Map::<Seq<char>, Seq<char>>::empty());
        r
    }

    /// The number of keys in the store.
    pub fn len(&self) -> (r: usize)
        requires
            self.wf(),
        ensures
            r == self@.len(),
    {
        proof {
            lemma_map_of_len(self.entries@);
        }
        self.entries.len()
    }

    fn position(&self, key: &String) -> (r: Option<usize>)
        requires
            self.wf(),
        ensures
            r is None <==> !self@.contains_key(key@),
            r matches Some(i) ==> i < self.entries@.len() && self.entries@[i as int].0@ == key@,
    {
        let mut i: usize = 0;
        while i < self.entries.len()
            invariant
                self.wf(),
                i <= self.entries@.len(),
                forall|j: int| 0 <= j < i ==> #[trigger] self.entries@[j].0@ != key@,
            decreases self.entries@.len() - i,
        {
            if self.entries[i].0 == *key {
                proof {
                    lemma_map_of_at(self.entries@, i as int);
                }
                return Some(i);
            }
            i = i + 1;
        }
        None
    }

    /// The envelope stored under `key`, if any.
    pub fn envelope(&self, key: &str) -> (r: Option<String>)
        requires
            self.wf(),
        ensures
            r is Some <==> self@.contains_key(key@),
            r matches Some(e) ==> e@ == self@[key@],
    {
        let k = key.to_owned();
        match self.position(&k) {
            None => None,
            Some(i) => {
                proof {
                    lemma_map_of_at(self.entries@, i as int);
                }
                Some(self.entries[i].1.clone())
            },
        }
    }

    /// Stores `envelope` under `key`, replacing what was there.
    pub fn insert(&mut self, key: &str, envelope: String)
        requires
            old(self).wf(),
        ensures
            final(self).wf(),
            final(self)@ == old(self)@.insert(key@, envelope@),
    {
        let k = key.to_owned();
        let ghost before = self.entries@;
        let ghost v = envelope@;
        match self.position(&k) {
            Some(i) => {
                self.entries.set(i, (k, envelope));
                proof {
                    let after = self.entries@;
                    assert(keys_unique(after)) by {
                        assert forall|a: int, b: int| 0 <= a < b < after.len() implies
                            #[trigger] after[a].0@ != #[trigger] after[b].0@ by {
                            assert(before[a].0@ != before[b].0@);
                        }
                    }
                    assert forall|q: Seq<char>| #[trigger] has_key(after, q) == (q == key@ || has_key(before, q)) by {
                        if has_key(before, q) {
                            let j = choose|j: int| 0 <= j < before.len() && #[trigger] before[j].0@ == q;
                            assert(after[j].0@ == q);
                        }
                        if has_key(after, q) {
                            let j = choose|j: int| 0 <= j < after.len() && #[trigger] after[j].0@ == q;
                            if j != i {
                                assert(before[j].0@ == q);
                            }
                        }
                    }
                    assert forall|q: Seq<char>| #[trigger] map_of(after).contains_key(q) implies
                        map_of(after)[q] == map_of(before).insert(key@, v)[q] by {
                        let j = choose|j: int| 0 <= j < after.len() && #[trigger] after[j].0@ == q;
                        lemma_map_of_at(after, j);
                        if j != i {
                            lemma_map_of_at(before, j);
                        }
                    }
                    assert(map_of(after) =~= map_of(before).insert(key@, v));
                }
            },
            None => {
                self.entries.push((k, envelope));
                proof {
                    let after = self.entries@;
                    let n = before.len() as int;
                    assert(keys_unique(after)) by {
                        assert forall|a: int, b: int| 0 <= a < b < after.len() implies
                            #[trigger] after[a].0@ != #[trigger] after[b].0@ by {
                            if b == n {
                                assert(before[a].0@ != key@) by {
                                    if before[a].0@ == key@ {
                                        assert(has_key(before, key@));
                                    }
                                }
                            } else {
                                assert(before[a].0@ != before[b].0@);
                            }
                        }
                    }
                    assert forall|q: Seq<char>| #[trigger] has_key(after, q) == (q == key@ || has_key(before, q)) by {
                        if has_key(before, q) {
                            let j = choose|j: int| 0 <= j < before.len() && #[trigger] before[j].0@ == q;
                            assert(after[j].0@ == q);
                        }
                        if q == key@ {
                            assert(after[n].0@ == q);
                        }
                        if has_key(after, q) {
                            let j = choose|j: int| 0 <= j < after.len() && #[trigger] after[j].0@ == q;
                            if j != n {
                                assert(before[j].0@ == q);
                            }
                        }
                    }
                    assert forall|q: Seq<char>| #[trigger] map_of(after).contains_key(q) implies
                        map_of(after)[q] == map_of(before).insert(key@, v)[q] by {
                        let j = choose|j: int| 0 <= j < after.len() && #[trigger] after[j].0@ == q;
                        lemma_map_of_at(after, j);
                        if j != n {
                            lemma_map_of_at(before, j);
                        }
                    }
                    assert(map_of(after) =~= map_of(before).insert(key@, v));
                }
            },
        }
    }
}

/// The mapping that file text stands for: what `serde_json` reads from it,
/// or the empty mapping when it does not read as a string-to-string map.
pub open spec fn stored_mapping(text: Seq<char>) -> Map<Seq<char>, Seq<char>> {
    match json_parsed(text) {
        Some(m) => m,
        None => Map::empty(),
    }
}

/// What looking `key` up in mapping `m` and opening it under `secret` gives:
/// nothing for an absent key, else the opened plaintext or its error.
pub open spec fn looked_up(m: Map<Seq<char>, Seq<char>>, key: Seq<char>, secret: Seq<u8>) -> Option<
    Result<Seq<char>, CipherError>,
> {
    if m.contains_key(key) {
        Some(opened_envelope(m[key], secret))
    } else {
        None
    }
}

/// The view of a lookup result.
pub open spec fn lookup_view(r: Result<Option<String>, CipherError>) -> Option<
    Result<Seq<char>, CipherError>,
> {
    match r {
        Ok(None) => None,
        Ok(Some(s)) => Some(Ok(s@)),
        Err(e) => Some(Err(e)),
    }
}

/// Reads a store from file text; `None` when the text is not a
/// string-to-string JSON object.
pub fn parse_store(text: &str) -> (r: Option<Store>)
    ensures
        r is Some <==> json_parsed(text@) is Some,
        r matches Some(s) ==> s.wf() && s@ == json_parsed(text@)->0,
{
    match json_read(text) {
        None => None,
        Some(entries) => Some(Store { entries }),
    }
}

/// The store at startup: empty when there is no file (`None`) or when its
/// text does not parse, else the mapping the file holds.
pub fn load_env_variables(content: Option<&str>) -> (r: Store)
    ensures
        r.wf(),
        r@ == match content {
            None => Map::<Seq<char>, Seq<char>>::empty(),
            Some(t) => stored_mapping(t@),
        },
{
    match content {
        None => Store::new(),
        Some(text) => match parse_store(text) {
            Some(store) => store,
            None => Store::new(),
        },
    }
}

/// The file text for the whole store. Loading that text gives the same
/// mapping back.
pub fn save_env_variables(store: &Store) -> (r: String)
    requires
        store.wf(),
    ensures
        r@ == json_text_of(store@),
        stored_mapping(r@) == store@,
{
    match json_write(&store.entries) {
        Some(text) => text,
        None => String::new(),
    }
}

/// Looks `key` up and opens its envelope under `encryption_key`:
/// `Ok(None)` for an absent key, the plaintext for a present one, or the
/// codec's error when the envelope does not open.
pub fn get_env_variable(store: &Store, key: &str, encryption_key: &str) -> (r: Result<
    Option<String>,
    CipherError,
>)
    requires
        store.wf(),
    ensures
        lookup_view(r) == looked_up(store@, key@, encryption_key.spec_bytes()),
{
    match store.envelope(key) {
        None => Ok(None),
        Some(envelope) => match decrypt(envelope.as_str(), encryption_key) {
            Ok(value) => Ok(Some(value)),
            Err(e) => Err(e),
        },
    }
}

/// Seals `value` under `encryption_key` with a fresh nonce and stores the
/// envelope under `key`, replacing what was there. On success the stored
/// envelope opens back to `value`; on failure the store is unchanged.
pub fn set_env_variable(store: &mut Store, key: &str, value: &str, encryption_key: &str) -> (r:
    Result<(), CipherError>)
    requires
        old(store).wf(),
    ensures
        final(store).wf(),
        exists|nonce: Seq<u8>|
            nonce.len() == NONCE_LEN && match #[trigger] sealed_envelope(
                value@,
                encryption_key.spec_bytes(),
                nonce,
            ) {
                Ok(e) => r is Ok && final(store)@ == old(store)@.insert(key@, e),
                Err(err) => r == Err::<(), CipherError>(err) && final(store)@ == old(store)@,
            },
        r is Ok ==> opened_envelope(final(store)@[key@], encryption_key.spec_bytes()) == Ok::<
            Seq<char>,
            CipherError,
        >(value@),
{
    let sealed = encrypt(value, encryption_key);
    match sealed {
        Ok(envelope) => {
            store.insert(key, envelope);
            Ok(())
        },
        Err(e) => Err(e),
    }
}

/// Storing under a second key leaves the first key's value readable: after
/// envelopes that open to `va` and `vb` are stored under distinct keys `a`
/// and then `b`, looking up `a` gives `va` and looking up `b` gives `vb`.
pub proof fn lemma_set_isolation(
    m: Map<Seq<char>, Seq<char>>,
    a: Seq<char>,
    ea: Seq<char>,
    va: Seq<char>,
    b: Seq<char>,
    eb: Seq<char>,
    vb: Seq<char>,
    secret: Seq<u8>,
)
    requires
        a != b,
        opened_envelope(ea, secret) == Ok::<Seq<char>, CipherError>(va),
        opened_envelope(eb, secret) == Ok::<Seq<char>, CipherError>(vb),
    ensures
        looked_up(m.insert(a, ea).insert(b, eb), a, secret) == Some(Ok::<Seq<char>, CipherError>(va)),
        looked_up(m.insert(a, ea).insert(b, eb), b, secret) == Some(Ok::<Seq<char>, CipherError>(vb)),
{
}

/// The last write wins: after storing two envelopes under the same key, the
/// second of which opens to `v`, looking the key up gives `v`.
pub proof fn lemma_set_overwrite(
    m: Map<Seq<char>, Seq<char>>,
    k: Seq<char>,
    first: Seq<char>,
    second: Seq<char>,
    v: Seq<char>,
    secret: Seq<u8>,
)
    requires
        opened_envelope(second, secret) == Ok::<Seq<char>, CipherError>(v),
    ensures
        looked_up(m.insert(k, first).insert(k, second), k, secret) == Some(Ok::<Seq<char>, CipherError>(v)),
{
}

/// A store that nothing was stored in finds no key.
pub proof fn lemma_empty_lookup(k: Seq<char>, secret: Seq<u8>)
    ensures
        looked_up(Map::empty(), k, secret) == None::<Result<Seq<char>, CipherError>>,
{
}

} // verus!
