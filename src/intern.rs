//! String interning: equal character sequences share one dense integer id.
//!
//! `InternBuilder` collects keys in a `DashMap` and hands out ids `0, 1, 2, ...` in order
//! of first insertion; `build` turns it into an `InternRegistry`, the reverse index from
//! id to key. `Interner` is a small sequential interner that keeps both directions.
use vstd::prelude::*;
use dashmap::DashMap;

verus! {

#[verifier::external_type_specification]
#[verifier::external_body]
#[verifier::reject_recursive_types(K)]
#[verifier::reject_recursive_types(V)]
#[verifier::reject_recursive_types(S)]
pub struct ExDashMap<K, V, S>(dashmap::DashMap<K, V, S>);

/// The entries of a key map, each key seen as its characters.
pub uninterp spec fn key_ids(m: DashMap<Vec<char>, usize>) -> Map<Seq<char>, usize>;

/// Relies on `DashMap::new`: a new map holds no entry.
#[verifier::external_body]
fn new_key_map() -> (r: DashMap<Vec<char>, usize>)
    ensures
        key_ids(r).dom() == Set::<Seq<char>>::empty(),
{
    DashMap::new()
}

/// Relies on `DashMap::get`: the value stored under `key`, if any.
#[verifier::external_body]
fn key_map_get(m: &DashMap<Vec<char>, usize>, key: &Vec<char>) -> (r: Option<usize>)
    ensures
        r == (if key_ids(*m).contains_key(key@) {
            Some(key_ids(*m)[key@])
        } else {
            None::<usize>
        }),
{
    m.get(key).map(|v| *v)
}

/// Relies on `DashMap::insert`: afterwards `key` maps to `id`, other entries unchanged.
#[verifier::external_body]
fn key_map_insert(m: &mut DashMap<Vec<char>, usize>, key: Vec<char>, id: usize)
    ensures
        key_ids(*final(m)) == key_ids(*old(m)).insert(key@, id),
{
    m.insert(key, id);
}

/// Relies on `DashMap::into_iter`: every entry exactly once, in an unspecified order.
#[verifier::external_body]
fn key_map_into_pairs(m: DashMap<Vec<char>, usize>) -> (r: Vec<(Vec<char>, usize)>)
    ensures
        forall|i: int|
            0 <= i < r@.len() ==> key_ids(m).contains_key((#[trigger] r@[i]).0@) && key_ids(m)[r@[i].0@]
                == r@[i].1,
        forall|i: int, j: int|
            0 <= i < j < r@.len() ==> (#[trigger] r@[i]).0@ != (#[trigger] r@[j]).0@,
        forall|k: Seq<char>|
            key_ids(m).contains_key(k) ==> exists|i: int| 0 <= i < r@.len() && (#[trigger] r@[i]).0@ == k,
{
    m.into_iter().collect()
}

/// Collects keys and gives each distinct key the next free id.
pub struct InternBuilder {
    next_id: usize,
    string_to_id: DashMap<Vec<char>, usize>,
    id_to_key: Ghost<Seq<Seq<char>>>,
}

impl InternBuilder {
    /// The id of each key interned so far.
    pub closed spec fn ids(&self) -> Map<Seq<char>, usize> {
        key_ids(self.string_to_id)
    }

    /// The key of each id, in order of first insertion.
    pub closed spec fn keys(&self) -> Seq<Seq<char>> {
        self.id_to_key@
    }

    /// `ids` and `keys` are inverse to each other and the ids are exactly `0..keys().len()`.
    pub closed spec fn wf(&self) -> bool {
        &&& self.id_to_key@.len() == self.next_id
        &&& forall|i: int|
            0 <= i < self.next_id ==> self.ids().contains_key(#[trigger] self.id_to_key@[i])
                && self.ids()[self.id_to_key@[i]] == i
        &&& forall|k: Seq<char>|
            #[trigger] self.ids().contains_key(k) ==> self.ids()[k] < self.next_id
                && self.id_to_key@[self.ids()[k] as int] == k
    }

    pub fn new() -> (r: InternBuilder)
        ensures
            r.wf(),
            r.keys() == Seq::<Seq<char>>::empty(),
    {
        InternBuilder { next_id: 0, string_to_id: new_key_map(), id_to_key: Ghost(Seq::empty()) }
    }

    /// Number of distinct keys interned so far.
    pub fn len(&self) -> (r: usize)
        requires
            self.wf(),
        ensures
            r == self.keys().len(),
    {
        self.next_id
    }

    /// Returns the id of `string`, giving it the next id if it is new.
    pub fn intern(&mut self, string: Vec<char>) -> (id: usize)
        requires
            old(self).wf(),
            old(self).keys().len() < usize::MAX,
        ensures
            final(self).wf(),
            final(self).ids().contains_key(string@),
            final(self).ids()[string@] == id,
            old(self).ids().contains_key(string@) ==> id == old(self).ids()[string@]
                && final(self).keys() == old(self).keys(),
            !old(self).ids().contains_key(string@) ==> id == old(self).keys().len()
                && final(self).keys() == old(self).keys().push(string@),
    {
        match key_map_get(&self.string_to_id, &string) {
            Some(id) => id,
            None => {
                let id = self.next_id;
                let ghost key = string@;
                let ghost old_ids = self.ids();
                key_map_insert(&mut self.string_to_id, string, id);
                self.next_id = id + 1;
                self.id_to_key = Ghost(self.id_to_key@.push(key));
                proof {
                    assert forall|i: int| 0 <= i < self.next_id implies self.ids().contains_key(
                        #[trigger] self.id_to_key@[i],
                    ) && self.ids()[self.id_to_key@[i]] == i by {
                        if i < id {
                            assert(old_ids.contains_key(self.id_to_key@[i]));
                            assert(self.id_to_key@[i] != key);
                        }
                    }
                }
                id
            },
        }
    }

    /// Freezes the builder into the reverse index from id to key.
    pub fn build(self) -> (r: InternRegistry)
        requires
            self.wf(),
        ensures
            r@ == self.keys(),
    {
        let len = self.next_id;
        let ghost keys = self.id_to_key@;
        let ghost ids = self.ids();
        assert(forall|i: int| 0 <= i < len ==> ids.contains_key(#[trigger] keys[i]) && ids[keys[i]] == i);
        let mut slots: Vec<Option<Vec<char>>> = Vec::new();
        let mut k: usize = 0;
        while k < len
            invariant
                k <= len,
                slots@.len() == k,
                forall|i: int| 0 <= i < k ==> slots@[i] is None,
            decreases len - k,
        {
            slots.push(None);
            k = k + 1;
        }
        let mut pairs = key_map_into_pairs(self.string_to_id);
        let ghost all_pairs = pairs@;
        assert(forall|k: Seq<char>|
            ids.contains_key(k) ==> exists|i: int| 0 <= i < all_pairs.len() && (#[trigger] all_pairs[i]).0@ == k);
        while pairs.len() > 0
            invariant
                slots@.len() == len,
                keys.len() == len,
                pairs@.len() <= all_pairs.len(),
                pairs@ == all_pairs.subrange(0, pairs@.len() as int),
                forall|k: Seq<char>|
                    #[trigger] ids.contains_key(k) ==> ids[k] < len && keys[ids[k] as int] == k,
                forall|i: int|
                    0 <= i < all_pairs.len() ==> ids.contains_key((#[trigger] all_pairs[i]).0@)
                        && ids[all_pairs[i].0@] == all_pairs[i].1,
                forall|i: int|
                    0 <= i < len ==> (#[trigger] slots@[i] matches Some(v) ==> v@ == keys[i]),
                forall|p: int|
                    pairs@.len() <= p < all_pairs.len() ==> slots@[(#[trigger] all_pairs[p]).1 as int]
                        is Some,
            decreases pairs@.len(),
        {
            let (key, id) = pairs.pop().unwrap();
            let ghost p = pairs@.len() as int;
            assert(all_pairs[p] == (key, id));
            assert(ids.contains_key(key@));
            slots.set(id, Some(key));
        }
        proof {
            assert forall|j: int| 0 <= j < slots@.len() implies (#[trigger] slots@[j]) is Some by {
                assert(ids.contains_key(keys[j]) && ids[keys[j]] == j);
                let p = choose|p: int| 0 <= p < all_pairs.len() && (#[trigger] all_pairs[p]).0@ == keys[j];
                assert(all_pairs[p].1 == j);
            }
        }
        let mut slots = slots;
        let mut reversed: Vec<Vec<char>> = Vec::new();
        while slots.len() > 0
            invariant
                slots@.len() + reversed@.len() == len,
                keys.len() == len,
                forall|j: int|
                    0 <= j < reversed@.len() ==> (#[trigger] reversed@[j])@ == keys[len - 1 - j],
                forall|j: int|
                    0 <= j < slots@.len() ==> (#[trigger] slots@[j] matches Some(v) ==> v@ == keys[j]),
                forall|j: int| 0 <= j < slots@.len() ==> (#[trigger] slots@[j]) is Some,
            decreases slots@.len(),
        {
            match slots.pop().unwrap() {
                Some(key) => reversed.push(key),
                None => {
                    assert(false);
                },
            }
        }
        let mut id_to_string: Vec<Vec<char>> = Vec::new();
        while reversed.len() > 0
            invariant
                id_to_string@.len() + reversed@.len() == len,
                keys.len() == len,
                forall|j: int|
                    0 <= j < reversed@.len() ==> (#[trigger] reversed@[j])@ == keys[len - 1 - j],
                forall|j: int| 0 <= j < id_to_string@.len() ==> (#[trigger] id_to_string@[j])@ == keys[j],
            decreases reversed@.len(),
        {
            let key = reversed.pop().unwrap();
            id_to_string.push(key);
        }
        let r = InternRegistry { id_to_string };
        assert(r@ =~= keys);
        r
    }
}

/// The reverse index of a frozen interner: the key of each id.
pub struct InternRegistry {
    id_to_string: Vec<Vec<char>>,
}

impl View for InternRegistry {
    type V = Seq<Seq<char>>;

    closed spec fn view(&self) -> Seq<Seq<char>> {
        self.id_to_string@.map_values(|v: Vec<char>| v@)
    }
}

impl InternRegistry {
    /// Number of ids.
    pub fn len(&self) -> (r: usize)
        ensures
            r == self@.len(),
    {
        self.id_to_string.len()
    }

    /// The key of `id`, or `None` when `id` is out of range.
    pub fn resolve(&self, id: usize) -> (r: Option<&Vec<char>>)
        ensures
            r is Some <==> id < self@.len(),
            r matches Some(v) ==> v@ == self@[id as int],
    {
        if id < self.id_to_string.len() {
            Some(&self.id_to_string[id])
        } else {
            None
        }
    }
}

/// Whatever keys were interned, in whatever order and with whatever repetition, the id
/// handed out for a key is below the number of distinct keys and the frozen registry
/// (whose view is `keys()`) resolves it back to that key.
pub proof fn lemma_intern_resolves(b: &InternBuilder, k: Seq<char>)
    requires
        b.wf(),
        b.ids().contains_key(k),
    ensures
        b.ids()[k] < b.keys().len(),
        b.keys()[b.ids()[k] as int] == k,
{
}

/// The ids handed out are exactly `0..N`, where `N` is the number of distinct keys.
pub proof fn lemma_ids_dense(b: &InternBuilder)
    requires
        b.wf(),
    ensures
        forall|i: int|
            0 <= i < b.keys().len() ==> b.ids().contains_key(#[trigger] b.keys()[i]) && b.ids()[b.keys()[i]]
                == i,
        forall|k: Seq<char>| #[trigger] b.ids().contains_key(k) ==> b.ids()[k] < b.keys().len(),
        forall|i: int, j: int|
            0 <= i < j < b.keys().len() ==> #[trigger] b.keys()[i] != #[trigger] b.keys()[j],
{
    assert forall|i: int, j: int| 0 <= i < j < b.keys().len() implies #[trigger] b.keys()[i]
        != #[trigger] b.keys()[j] by {
        assert(b.ids()[b.keys()[i]] == i);
        assert(b.ids()[b.keys()[j]] == j);
    }
}

/// Whether two character vectors hold the same characters.
fn same_chars(a: &Vec<char>, b: &Vec<char>) -> (r: bool)
    ensures
        r == (a@ == b@),
{
    if a.len() != b.len() {
        return false;
    }
    let mut i: usize = 0;
    while i < a.len()
        invariant
            a@.len() == b@.len(),
            i <= a@.len(),
            forall|k: int| 0 <= k < i ==> a@[k] == b@[k],
        decreases a@.len() - i,
    {
        if a[i] != b[i] {
            return false;
        }
        i = i + 1;
    }
    assert(a@ =~= b@);
    true
}

/// A sequential interner with `u32` ids, keeping the key of each id in insertion order.
pub struct Interner {
    id_to_string: Vec<Vec<char>>,
}

impl View for Interner {
    type V = Seq<Seq<char>>;

    closed spec fn view(&self) -> Seq<Seq<char>> {
        self.id_to_string@.map_values(|v: Vec<char>| v@)
    }
}

impl Interner {
    /// No key occurs twice and every id fits in `u32`.
    pub closed spec fn wf(&self) -> bool {
        &&& self@.len() <= u32::MAX
        &&& forall|i: int, j: int|
            0 <= i < j < self@.len() ==> #[trigger] self@[i] != #[trigger] self@[j]
    }

    pub fn new() -> (r: Interner)
        ensures
            r.wf(),
            r@ == Seq::<Seq<char>>::empty(),
    {
        let r = Interner { id_to_string: Vec::new() };
        assert(r@ =~= Seq::<Seq<char>>::empty());
        r
    }

    /// Number of distinct keys.
    pub fn len(&self) -> (r: u32)
        requires
            self.wf(),
        ensures
            r == self@.len(),
    {
        self.id_to_string.len() as u32
    }

    /// Returns the id of `string`, giving it the next id if it is new.
    pub fn intern(&mut self, string: Vec<char>) -> (id: u32)
        requires
            old(self).wf(),
            old(self)@.len() < u32::MAX,
        ensures
            final(self).wf(),
            id < final(self)@.len(),
            final(self)@[id as int] == string@,
            old(self)@.contains(string@) ==> final(self)@ == old(self)@,
            !old(self)@.contains(string@) ==> final(self)@ == old(self)@.push(string@),
    {
        let mut i: usize = 0;
        while i < self.id_to_string.len()
            invariant
                i <= self@.len(),
                self.wf(),
                self@ == old(self)@,
                self@.len() < u32::MAX,
                forall|k: int| 0 <= k < i ==> self@[k] != string@,
            decreases self@.len() - i,
        {
            if same_chars(&self.id_to_string[i], &string) {
                proof {
                    assert(self@[i as int] == string@);
                }
                return i as u32;
            }
            i = i + 1;
        }
        let id = self.id_to_string.len();
        let ghost before = self@;
        self.id_to_string.push(string);
        proof {
            assert(self@ =~= before.push(string@));
            assert(!before.contains(string@)) by {
                if before.contains(string@) {
                    let k = choose|k: int| 0 <= k < before.len() && before[k] == string@;
                    assert(before[k] != string@);
                }
            }
        }
        id as u32
    }

    /// The key of `id`, or `None` when `id` was never handed out.
    pub fn resolve(&self, id: u32) -> (r: Option<&Vec<char>>)
        ensures
            r is Some <==> id < self@.len(),
            r matches Some(v) ==> v@ == self@[id as int],
    {
        let index = id as usize;
        if index < self.id_to_string.len() {
            Some(&self.id_to_string[index])
        } else {
            None
        }
    }
}

} // verus!
