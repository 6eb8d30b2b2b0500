use vstd::prelude::*;
use crate::text::str_equal;

verus! {

/// Lifecycle of a key held by the store.
#[derive(Debug, Clone, Copy, PartialEq, Eq, Structural)]
pub enum KeyState {
    Available,
    Reserved,
    Retrieved,
}

/// A key together with its bookkeeping.
#[derive(Debug, Clone)]
pub struct StoredKey {
    pub key_id: String,
    pub key_value: String,
    pub reservable: bool,
    pub state: KeyState,
}

/// The mathematical content of a stored key.
pub struct KeyRecord {
    pub key_id: Seq<char>,
    pub key_value: Seq<char>,
    pub reservable: bool,
    pub state: KeyState,
}

impl View for StoredKey {
    type V = KeyRecord;

    open spec fn view(&self) -> KeyRecord {
        KeyRecord {
            key_id: self.key_id@,
            key_value: self.key_value@,
            reservable: self.reservable,
            state: self.state,
        }
    }
}

impl KeyRecord {
    pub open spec fn with_state(self, state: KeyState) -> KeyRecord {
        KeyRecord { state, ..self }
    }

    /// A key that `reserve_keys` may hand out.
    pub open spec fn is_reservable_now(self) -> bool {
        self.state == KeyState::Available && self.reservable
    }

    /// A key that `retrieve_key` hands out for the identifier `id`.
    pub open spec fn is_retrievable_as(self, id: Seq<char>) -> bool {
        self.key_id == id && self.state == KeyState::Available
    }

    pub open spec fn pair(self) -> (Seq<char>, Seq<char>) {
        (self.key_id, self.key_value)
    }
}

/// Number of keys in `keys` whose state is `Available`.
pub open spec fn count_available(keys: Seq<KeyRecord>) -> nat
    decreases keys.len(),
{
    if keys.len() == 0 {
        0
    } else {
        count_available(keys.drop_last()) + if keys.last().state == KeyState::Available {
            1nat
        } else {
            0nat
        }
    }
}

/// Number of keys in `keys` that `reserve_keys` could hand out.
pub open spec fn count_reservable(keys: Seq<KeyRecord>) -> nat
    decreases keys.len(),
{
    if keys.len() == 0 {
        0
    } else {
        count_reservable(keys.drop_last()) + if keys.last().is_reservable_now() {
            1nat
        } else {
            0nat
        }
    }
}

/// The effect of reserving up to `count` keys, scanning `keys` from the front:
/// the new key list and the (identifier, value) pairs handed out, in order.
pub open spec fn reserve_scan(keys: Seq<KeyRecord>, count: nat) -> (
    Seq<KeyRecord>,
    Seq<(Seq<char>, Seq<char>)>,
)
    decreases keys.len(),
{
    if keys.len() == 0 {
        (Seq::empty(), Seq::empty())
    } else {
        let (front, picked) = reserve_scan(keys.drop_last(), count);
        let k = keys.last();
        if picked.len() < count && k.is_reservable_now() {
            (front.push(k.with_state(KeyState::Reserved)), picked.push(k.pair()))
        } else {
            (front.push(k), picked)
        }
    }
}

/// Adding an available key makes exactly one more key available.
pub proof fn lemma_add_key_count(keys: Seq<KeyRecord>, key_id: Seq<char>, key_value: Seq<char>, reservable: bool)
    ensures
        count_available(
            keys.push(KeyRecord { key_id, key_value, reservable, state: KeyState::Available }),
        ) == count_available(keys) + 1,
{
    let r = KeyRecord { key_id, key_value, reservable, state: KeyState::Available };
    assert(keys.push(r).drop_last() =~= keys);
}

/// Taking one available key out of circulation lowers the available count by one.
pub proof fn lemma_take_out_of_circulation(keys: Seq<KeyRecord>, i: int, state: KeyState)
    requires
        0 <= i < keys.len(),
        keys[i].state == KeyState::Available,
        state != KeyState::Available,
    ensures
        count_available(keys.update(i, keys[i].with_state(state))) + 1 == count_available(keys),
    decreases keys.len(),
{
    let upd = keys.update(i, keys[i].with_state(state));
    if i == keys.len() - 1 {
        assert(upd.drop_last() =~= keys.drop_last());
    } else {
        lemma_take_out_of_circulation(keys.drop_last(), i, state);
        assert(upd.drop_last() =~= keys.drop_last().update(i, keys[i].with_state(state)));
    }
}

/// Reserving scans the keys in order: it keeps their number, hands out
/// min(count, reservable keys) pairs, turns exactly the handed-out keys from
/// available to reserved, leaves every other key as it was, and passes over
/// a reservable key only once `count` keys are handed out, so that no
/// reservable key is passed over for a later one.
pub proof fn lemma_reserve_scan(keys: Seq<KeyRecord>, count: nat)
    ensures
        reserve_scan(keys, count).0.len() == keys.len(),
        reserve_scan(keys, count).1.len() == if count < count_reservable(keys) {
            count
        } else {
            count_reservable(keys)
        },
        count_available(reserve_scan(keys, count).0) + reserve_scan(keys, count).1.len()
            == count_available(keys),
        forall|i: int|
            0 <= i < keys.len() ==> #[trigger] reserve_scan(keys, count).0[i] == keys[i] || (
            keys[i].is_reservable_now() && reserve_scan(keys, count).0[i] == keys[i].with_state(
                KeyState::Reserved,
            )),
        forall|i: int|
            0 <= i < keys.len() && keys[i].is_reservable_now() && #[trigger] reserve_scan(
                keys,
                count,
            ).0[i] == keys[i] ==> reserve_scan(keys, count).1.len() == count,
        forall|i: int, j: int|
            0 <= i < j < keys.len() && keys[i].is_reservable_now() && #[trigger] reserve_scan(
                keys,
                count,
            ).0[j] != keys[j] ==> #[trigger] reserve_scan(keys, count).0[i] != keys[i],
    decreases keys.len(),
{
    if keys.len() > 0 {
        let prefix = keys.drop_last();
        lemma_reserve_scan(prefix, count);
        let (front, picked) = reserve_scan(prefix, count);
        let k = keys.last();
        let after = reserve_scan(keys, count).0;
        let n = keys.len() - 1;
        assert(after.drop_last() =~= front);
        assert forall|i: int| 0 <= i < keys.len() implies #[trigger] after[i] == keys[i] || (
        keys[i].is_reservable_now() && after[i] == keys[i].with_state(KeyState::Reserved)) by {
            if i < n {
                assert(after[i] == front[i]);
                assert(keys[i] == prefix[i]);
            }
        }
        assert forall|i: int|
            0 <= i < keys.len() && keys[i].is_reservable_now() && #[trigger] after[i] == keys[i]
            implies reserve_scan(keys, count).1.len() == count by {
            if i < n {
                assert(after[i] == front[i]);
                assert(keys[i] == prefix[i]);
            } else {
                assert(k.with_state(KeyState::Reserved) != k);
            }
        }
        assert forall|i: int, j: int|
            0 <= i < j < keys.len() && keys[i].is_reservable_now() && #[trigger] after[j] != keys[j]
            implies #[trigger] after[i] != keys[i] by {
            assert(after[i] == front[i]);
            assert(keys[i] == prefix[i]);
            if j < n {
                assert(after[j] == front[j]);
                assert(keys[j] == prefix[j]);
            } else if front[i] == prefix[i] {
                assert(picked.len() == count);
            }
        }
    }
}

/// The (identifier, value) pairs of the keys that differ between `before`
/// and `after`, in store order; `after` is read at the same positions.
pub open spec fn changed_pairs(before: Seq<KeyRecord>, after: Seq<KeyRecord>) -> Seq<(Seq<char>, Seq<char>)>
    decreases before.len(),
{
    if before.len() == 0 {
        Seq::empty()
    } else {
        let n = before.len() - 1;
        let front = changed_pairs(before.drop_last(), after.take(n));
        if after[n] != before[n] {
            front.push((before[n].key_id, before[n].key_value))
        } else {
            front
        }
    }
}

/// Reserving hands out exactly the identifier and the whole value of each
/// key it turns from available to reserved, in store order.
pub proof fn lemma_reserve_hands_out_changed(keys: Seq<KeyRecord>, count: nat)
    ensures
        reserve_scan(keys, count).1 == changed_pairs(keys, reserve_scan(keys, count).0),
    decreases keys.len(),
{
    if keys.len() > 0 {
        let prefix = keys.drop_last();
        lemma_reserve_hands_out_changed(prefix, count);
        lemma_reserve_scan(prefix, count);
        let (front, picked) = reserve_scan(prefix, count);
        let after = reserve_scan(keys, count).0;
        let n = keys.len() - 1;
        assert(after.take(n) =~= front);
        let k = keys.last();
        if picked.len() < count && k.is_reservable_now() {
            assert(k.with_state(KeyState::Reserved) != k);
        }
    }
}

/// Every operation of the store only moves keys out of `Available`: a key
/// that is reserved or retrieved stays exactly as it is.
pub open spec fn only_leaves_available(before: Seq<KeyRecord>, after: Seq<KeyRecord>) -> bool {
    &&& before.len() <= after.len()
    &&& forall|i: int|
        0 <= i < before.len() ==> {
            ||| #[trigger] after[i] == before[i]
            ||| before[i].state == KeyState::Available && after[i].key_id == before[i].key_id
                && after[i].key_value == before[i].key_value && after[i].reservable
                == before[i].reservable
        }
}

/// No operation of the store ever makes a handed-out key available again.
pub proof fn lemma_handed_out_keys_stay_out(
    keys: Seq<KeyRecord>,
    count: nat,
    i: int,
    key_id: Seq<char>,
    key_value: Seq<char>,
    reservable: bool,
    state: KeyState,
)
    ensures
        only_leaves_available(
            keys,
            keys.push(KeyRecord { key_id, key_value, reservable, state: KeyState::Available }),
        ),
        only_leaves_available(keys, reserve_scan(keys, count).0),
        0 <= i < keys.len() && keys[i].state == KeyState::Available ==> only_leaves_available(
            keys,
            keys.update(i, keys[i].with_state(state)),
        ),
{
    lemma_reserve_scan(keys, count);
}

/// Views of the pairs handed out by the store.
pub open spec fn pair_views(v: Seq<(String, String)>) -> Seq<(Seq<char>, Seq<char>)> {
    v.map_values(|p: (String, String)| (p.0@, p.1@))
}

/// An in-memory store of keys, kept in the order they were added.
pub struct KeyStore {
    keys: Vec<StoredKey>,
}

impl View for KeyStore {
    type V = Seq<KeyRecord>;

    closed spec fn view(&self) -> Seq<KeyRecord> {
        self.keys@.map_values(|k: StoredKey| k@)
    }
}

impl KeyStore {
    /// An empty store.
    pub fn new() -> (store: Self)
        ensures
            store@ == Seq::<KeyRecord>::empty(),
    {
        let store = KeyStore { keys: Vec::new() };
        assert(store@ =~= Seq::<KeyRecord>::empty());
        store
    }

    /// Number of keys held, whatever their state.
    pub fn len(&self) -> (n: usize)
        ensures
            n == self@.len(),
    {
        self.keys.len()
    }

    /// Appends a new available key.
    pub fn add_key(&mut self, key_id: &str, key_value: &str, reservable: bool)
        ensures
            final(self)@ == old(self)@.push(
                KeyRecord {
                    key_id: key_id@,
                    key_value: key_value@,
                    reservable,
                    state: KeyState::Available,
                },
            ),
            count_available(final(self)@) == count_available(old(self)@) + 1,
    {
        let k = StoredKey {
            key_id: key_id.to_owned(),
            key_value: key_value.to_owned(),
            reservable,
            state: KeyState::Available,
        };
        self.keys.push(k);
        assert(self@ =~= old(self)@.push(
            KeyRecord {
                key_id: key_id@,
                key_value: key_value@,
                reservable,
                state: KeyState::Available,
            },
        ));
        proof {
            lemma_add_key_count(old(self)@, key_id@, key_value@, reservable);
        }
    }

    fn set_state(&mut self, i: usize, state: KeyState)
        requires
            i < old(self)@.len(),
        ensures
            final(self)@ == old(self)@.update(i as int, old(self)@[i as int].with_state(state)),
    {
        let ghost before = self.keys@;
        let old_key = self.keys.remove(i);
        let k = StoredKey {
            key_id: old_key.key_id,
            key_value: old_key.key_value,
            reservable: old_key.reservable,
            state,
        };
        self.keys.insert(i, k);
        assert(self.keys@ =~= before.update(i as int, k));
        assert(self@ =~= old(self)@.update(i as int, old(self)@[i as int].with_state(state)));
    }

    /// Marks up to `count` available, reservable keys as reserved, scanning in
    /// insertion order, and returns their identifiers and values.
    pub fn reserve_keys(&mut self, count: usize) -> (picked: Vec<(String, String)>)
        ensures
            final(self)@ == reserve_scan(old(self)@, count as nat).0,
            pair_views(picked@) == reserve_scan(old(self)@, count as nat).1,
            pair_views(picked@) == changed_pairs(old(self)@, final(self)@),
            picked@.len() == if count < count_reservable(old(self)@) {
                count as nat
            } else {
                count_reservable(old(self)@)
            },
            count_available(final(self)@) + picked@.len() == count_available(old(self)@),
    {
        let mut result: Vec<(String, String)> = Vec::new();
        let n = self.keys.len();
        let mut i: usize = 0;
        while i < n
            invariant
                n == self@.len(),
                n == old(self)@.len(),
                i <= n,
                reserve_scan(old(self)@.take(i as int), count as nat).0 == self@.take(i as int),
                self@.skip(i as int) == old(self)@.skip(i as int),
                reserve_scan(old(self)@.take(i as int), count as nat).1 == pair_views(result@),
            decreases n - i,
        {
            proof {
                assert(old(self)@.take(i + 1).drop_last() =~= old(self)@.take(i as int));
                assert(old(self)@[i as int] == self@.skip(i as int)[0]);
            }
            if result.len() < count && self.keys[i].state == KeyState::Available
                && self.keys[i].reservable {
                let id = self.keys[i].key_id.clone();
                let val = self.keys[i].key_value.clone();
                let ghost prev = result@;
                result.push((id, val));
                assert(pair_views(result@) =~= pair_views(prev).push((id@, val@)));
                let ghost mid = self@;
                self.set_state(i, KeyState::Reserved);
                assert(self@.take(i + 1) =~= mid.take(i as int).push(
                    mid[i as int].with_state(KeyState::Reserved),
                ));
                assert(self@.skip(i + 1) =~= mid.skip(i + 1));
                assert(mid.skip(i + 1) =~= mid.skip(i as int).skip(1));
                assert(old(self)@.skip(i + 1) =~= old(self)@.skip(i as int).skip(1));
            } else {
                assert(self@.take(i + 1) =~= self@.take(i as int).push(self@[i as int]));
                assert(self@.skip(i + 1) =~= self@.skip(i as int).skip(1));
                assert(old(self)@.skip(i + 1) =~= old(self)@.skip(i as int).skip(1));
            }
            i = i + 1;
        }
        assert(old(self)@.take(n as int) =~= old(self)@);
        assert(self@.take(n as int) =~= self@);
        proof {
            lemma_reserve_scan(old(self)@, count as nat);
            lemma_reserve_hands_out_changed(old(self)@, count as nat);
            assert(pair_views(result@).len() == result@.len());
        }
        result
    }

    /// Hands out the first available key with identifier `key_id`, marking it
    /// retrieved; `None` when there is no such key.
    pub fn retrieve_key(&mut self, key_id: &str) -> (found: Option<(String, String)>)
        ensures
            found is None <==> (forall|i: int|
                0 <= i < old(self)@.len() ==> !(#[trigger] old(self)@[i]).is_retrievable_as(
                    key_id@,
                )),
            found is None ==> final(self)@ == old(self)@,
            found matches Some(p) ==> exists|i: int|
                0 <= i < old(self)@.len() && (#[trigger] old(self)@[i]).is_retrievable_as(key_id@)
                    && (forall|j: int| 0 <= j < i ==> !old(self)@[j].is_retrievable_as(key_id@))
                    && p.0@ == key_id@ && p.1@ == old(self)@[i].key_value && final(self)@
                    == old(self)@.update(i, old(self)@[i].with_state(KeyState::Retrieved)),
            found is Some ==> count_available(final(self)@) + 1 == count_available(old(self)@),
    {
        let n = self.keys.len();
        let mut i: usize = 0;
        while i < n
            invariant
                n == self@.len(),
                self@ == old(self)@,
                i <= n,
                forall|j: int| 0 <= j < i ==> !(#[trigger] old(self)@[j]).is_retrievable_as(key_id@),
            decreases n - i,
        {
            if str_equal(self.keys[i].key_id.as_str(), key_id) && self.keys[i].state
                == KeyState::Available {
                let id = self.keys[i].key_id.clone();
                let val = self.keys[i].key_value.clone();
                self.set_state(i, KeyState::Retrieved);
                assert(old(self)@[i as int].is_retrievable_as(key_id@));
                proof {
                    lemma_take_out_of_circulation(old(self)@, i as int, KeyState::Retrieved);
                }
                return Some((id, val));
            }
            i = i + 1;
        }
        None
    }

    /// Number of keys whose state is `Available`, reservable or not.
    pub fn available_count(&self) -> (n: usize)
        ensures
            n == count_available(self@),
    {
        let len = self.keys.len();
        let mut i: usize = 0;
        let mut c: usize = 0;
        while i < len
            invariant
                len == self@.len(),
                i <= len,
                c == count_available(self@.take(i as int)),
                c <= i,
            decreases len - i,
        {
            assert(self@.take(i + 1).drop_last() =~= self@.take(i as int));
            if self.keys[i].state == KeyState::Available {
                c = c + 1;
            }
            i = i + 1;
        }
        assert(self@.take(len as int) =~= self@);
        c
    }
}

} // verus!
