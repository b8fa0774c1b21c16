//! A map from names to values that answers most lookups from a read-only part and keeps recent
//! additions in a second part, which takes over once lookups have missed often enough.

use std::sync::Arc;
use vstd::hash_map::StringHashMap;
use vstd::prelude::*;

use crate::atomic_value::AtomicValueUnchecked;
use crate::atomic_value::Pointer;
use crate::atomic_value::Value;

verus! {

/// The mark of an entry that the read-only part still lists and the second part does not.
pub fn expunged<T>() -> (p: Pointer<T>)
    ensures
        p is Expunged,
{
    Pointer::Expunged
}

/// Whether `ptr` is the mark of an expunged entry.
pub fn is_expunged<T>(ptr: &Pointer<T>) -> (res: bool)
    ensures
        res == (ptr is Expunged),
{
    match ptr {
        Pointer::Expunged => true,
        _ => false,
    }
}

/// The value a pointer leads to, if it leads to one.
pub open spec fn target<V>(p: Pointer<V>) -> Option<V> {
    match p {
        Pointer::To(v) => Some(*v),
        _ => None,
    }
}

/// A slot for one key's value.
pub struct Entry<V> {
    pub p: Value<V>,
}

impl<V> Entry<V> {
    /// An entry that points where `ptr` does.
    pub fn from_ptr(ptr: Pointer<V>) -> (e: Self)
        ensures
            e.p.ptr == ptr,
    {
        Entry { p: Value::from_ptr(ptr) }
    }

    /// The value, unless it was deleted or expunged.
    pub fn load(&self) -> (res: Option<Arc<V>>)
        ensures
            match res {
                Some(v) => target(self.p.ptr) == Some(*v),
                None => target(self.p.ptr) is None,
            },
    {
        match &self.p.ptr {
            Pointer::To(v) => Some(v.clone()),
            _ => None,
        }
    }

    /// Points the entry at `ptr` unless it is expunged; returns whether it did.
    pub fn try_store(&mut self, ptr: Pointer<V>) -> (res: bool)
        ensures
            res == !(old(self).p.ptr is Expunged),
            final(self).p.ptr == (if res { ptr } else { old(self).p.ptr }),
    {
        if is_expunged(&self.p.ptr) {
            false
        } else {
            self.p.ptr = ptr;
            true
        }
    }

    /// Turns an expunged entry into a deleted one; returns whether it was expunged.
    pub fn unexpunge_locked(&mut self) -> (res: bool)
        ensures
            res == (old(self).p.ptr is Expunged),
            final(self).p.ptr == (if res { Pointer::Null } else { old(self).p.ptr }),
    {
        if is_expunged(&self.p.ptr) {
            self.p.ptr = Pointer::Null;
            true
        } else {
            false
        }
    }

    /// Points the entry at `ptr`.
    pub fn store_locked(&mut self, ptr: Pointer<V>)
        ensures
            final(self).p.ptr == ptr,
    {
        self.p.ptr = ptr;
    }

    /// Expunges a deleted entry; returns whether the entry is expunged afterwards.
    pub fn try_expunge_locked(&mut self) -> (res: bool)
        ensures
            res == !(old(self).p.ptr is To),
            final(self).p.ptr == (if res { Pointer::Expunged } else { old(self).p.ptr }),
    {
        match &self.p.ptr {
            Pointer::To(_) => false,
            _ => {
                self.p.ptr = expunged();
                true
            },
        }
    }

    /// Loads the value if there is one, and stores `ptr` in a deleted entry.
    ///
    /// Returns `(None, false)` if the entry is expunged, `(None, true)` if `ptr` was stored and
    /// `(Some(v), true)` if `v` was loaded.
    pub fn try_load_or_store(&mut self, ptr: Pointer<V>) -> (res: (Option<Arc<V>>, bool))
        ensures
            match old(self).p.ptr {
                Pointer::Expunged => res == (None::<Arc<V>>, false) && *final(self) == *old(self),
                Pointer::To(v) => res == (Some(v), true) && *final(self) == *old(self),
                Pointer::Null => res == (None::<Arc<V>>, true) && final(self).p.ptr == ptr,
            },
    {
        match &self.p.ptr {
            Pointer::Expunged => (None, false),
            Pointer::To(v) => (Some(v.clone()), true),
            Pointer::Null => {
                self.p.ptr = ptr;
                (None, true)
            },
        }
    }

    /// Deletes the value and returns it; an entry without a value stays as it is.
    pub fn delete(&mut self) -> (res: Option<Arc<V>>)
        ensures
            match old(self).p.ptr {
                Pointer::To(v) => res == Some(v) && final(self).p.ptr == Pointer::<V>::Null,
                _ => res is None && *final(self) == *old(self),
            },
    {
        match &self.p.ptr {
            Pointer::To(v) => {
                let v: Arc<V> = v.clone();
                self.p.ptr = Pointer::Null;
                Some(v)
            },
            _ => None,
        }
    }
}

/// How a [`SyncMap`] has its entries laid out: the pointers that the two parts lead to, whether
/// the second part lists keys that the first does not, and how many lookups had to go past the
/// first part since it was last replaced.
#[verifier::ext_equal]
pub struct Layout<V> {
    pub read: Map<Seq<char>, Pointer<V>>,
    pub amended: bool,
    pub dirty: Map<Seq<char>, Pointer<V>>,
    pub misses: nat,
}

impl<V> Layout<V> {
    /// The layout of an empty map.
    pub open spec fn empty() -> Self {
        Layout { read: Map::empty(), amended: false, dirty: Map::empty(), misses: 0 }
    }

    /// The value stored under `k`, if there is one.
    pub open spec fn lookup(self, k: Seq<char>) -> Option<V> {
        if self.read.contains_key(k) {
            target(self.read[k])
        } else if self.amended && self.dirty.contains_key(k) {
            target(self.dirty[k])
        } else {
            None
        }
    }

    /// What the map holds, however it is laid out.
    pub open spec fn contents(self) -> Map<Seq<char>, V> {
        Map::new(|k: Seq<char>| self.lookup(k) is Some, |k: Seq<char>| self.lookup(k)->0)
    }

    /// The second part lists the entries of the first that are not expunged, with the same
    /// pointers, and of its own only entries that have a value.
    pub open spec fn parts_agree(self) -> bool {
        &&& forall|k: Seq<char>| #[trigger]
            self.read.contains_key(k) ==> (self.read[k] is Expunged <==> !self.dirty.contains_key(
                k,
            ))
        &&& forall|k: Seq<char>|
            self.read.contains_key(k) && #[trigger] self.dirty.contains_key(k) ==> self.dirty[k]
                == self.read[k]
        &&& forall|k: Seq<char>|
            !self.read.contains_key(k) && #[trigger] self.dirty.contains_key(k)
                ==> self.dirty[k] is To
    }

    /// What every operation keeps.
    ///
    /// The second part is empty unless it lists keys that the first does not; then it lists every
    /// entry of the first that is not expunged, and the misses are fewer than its entries.
    pub open spec fn inv(self) -> bool {
        &&& self.read.dom().finite()
        &&& self.dirty.dom().finite()
        &&& if self.amended {
            &&& self.misses < self.dirty.len()
            &&& self.parts_agree()
        } else {
            &&& self.misses == 0
            &&& self.dirty == Map::<Seq<char>, Pointer<V>>::empty()
            &&& forall|k: Seq<char>| #[trigger]
                self.read.contains_key(k) ==> !(self.read[k] is Expunged)
        }
    }

    /// The second part takes the place of the first.
    pub open spec fn promoted(self) -> Self {
        Layout { read: self.dirty, amended: false, dirty: Map::empty(), misses: 0 }
    }

    /// One more lookup went past the first part; with as many of them as the second part has
    /// entries, that part takes over.
    pub open spec fn missed(self) -> Self {
        if self.misses + 1 >= self.dirty.len() {
            self.promoted()
        } else {
            Layout { misses: self.misses + 1, ..self }
        }
    }

    /// The second part is filled with the entries of the first that have a value; the others are
    /// expunged.
    pub open spec fn amended_with_read(self) -> Self {
        Layout {
            read: self.read.map_values(
                |p: Pointer<V>|
                    if p is To {
                        p
                    } else {
                        Pointer::Expunged
                    },
            ),
            amended: true,
            dirty: Map::new(
                |k: Seq<char>| self.read.contains_key(k) && self.read[k] is To,
                |k: Seq<char>| self.read[k],
            ),
            misses: self.misses,
        }
    }

    /// The layout after a lookup of `k`.
    pub open spec fn after_load(self, k: Seq<char>) -> Self {
        if self.read.contains_key(k) || !self.amended {
            self
        } else {
            self.missed()
        }
    }

    /// The layout after `v` was stored under `k`.
    pub open spec fn after_store(self, k: Seq<char>, v: V) -> Self {
        let p = Pointer::To(Arc::new(v));
        if self.read.contains_key(k) {
            Layout {
                read: self.read.insert(k, p),
                dirty: if self.amended {
                    self.dirty.insert(k, p)
                } else {
                    self.dirty
                },
                ..self
            }
        } else {
            let base = if self.amended {
                self
            } else {
                self.amended_with_read()
            };
            Layout { dirty: base.dirty.insert(k, p), ..base }
        }
    }

    /// The layout after an attempt to load the value under `k` and to store `v` without one.
    pub open spec fn after_load_or_store(self, k: Seq<char>, v: V) -> Self {
        if self.lookup(k) is Some {
            self.after_load(k)
        } else {
            self.after_store(k, v)
        }
    }

    /// The layout after `k` was deleted.
    pub open spec fn after_delete(self, k: Seq<char>) -> Self {
        if self.read.contains_key(k) {
            if self.read[k] is To {
                Layout {
                    read: self.read.insert(k, Pointer::Null),
                    dirty: if self.amended {
                        self.dirty.insert(k, Pointer::Null)
                    } else {
                        self.dirty
                    },
                    ..self
                }
            } else {
                self
            }
        } else if self.amended {
            Layout { dirty: self.dirty.remove(k), ..self }.missed()
        } else {
            self
        }
    }

    /// The layout after all keys were listed.
    pub open spec fn after_listing(self) -> Self {
        if self.amended {
            self.promoted()
        } else {
            self
        }
    }
}

/// A miss keeps what the map holds, also when it makes the parts change places.
proof fn lemma_missed<V>(l: Layout<V>)
    requires
        l.amended,
        l.parts_agree(),
        l.read.dom().finite(),
        l.dirty.dom().finite(),
    ensures
        l.promoted().inv(),
        l.promoted().contents() == l.contents(),
        l.missed().inv(),
        l.missed().contents() == l.contents(),
{
    assert forall|k: Seq<char>| l.promoted().lookup(k) == l.lookup(k) by {
        assert(l.read.contains_key(k) ==> (l.read[k] is Expunged <==> !l.dirty.contains_key(k)));
        if l.dirty.contains_key(k) && l.read.contains_key(k) {
            assert(l.dirty[k] == l.read[k]);
        }
    }
    assert(l.promoted().contents() =~= l.contents());
    assert forall|k: Seq<char>| #[trigger] l.dirty.contains_key(k) implies !(
    l.dirty[k] is Expunged) by {
        if l.read.contains_key(k) {
            assert(l.dirty[k] == l.read[k]);
        }
    }
    assert(l.missed().contents() =~= l.contents());
}

/// Looking a key up changes nothing that the map holds, whether or not the parts change places.
pub proof fn load_keeps_contents<V>(l: Layout<V>, k: Seq<char>)
    requires
        l.inv(),
    ensures
        l.after_load(k).inv(),
        l.after_load(k).contents() == l.contents(),
{
    if l.amended {
        lemma_missed(l);
    }
}

/// Storing a value makes the map hold it under its key, and leaves every other key alone.
pub proof fn store_inserts<V>(l: Layout<V>, k: Seq<char>, v: V)
    requires
        l.inv(),
    ensures
        l.after_store(k, v).inv(),
        l.after_store(k, v).contents() == l.contents().insert(k, v),
{
    let a = l.after_store(k, v);
    let r = l.amended_with_read();
    assert(r.dirty.dom().subset_of(l.read.dom()));
    vstd::set_lib::lemma_set_subset_finite(l.read.dom(), r.dirty.dom());
    assert(r.read.dom() =~= l.read.dom());
    assert(a.contents() =~= l.contents().insert(k, v));
}

/// Deleting a key removes it from what the map holds, and leaves every other key alone.
pub proof fn delete_removes<V>(l: Layout<V>, k: Seq<char>)
    requires
        l.inv(),
    ensures
        l.after_delete(k).inv(),
        l.after_delete(k).contents() == l.contents().remove(k),
{
    if !l.read.contains_key(k) && l.amended {
        let r = Layout { dirty: l.dirty.remove(k), ..l };
        lemma_missed(r);
        assert(r.contents() =~= l.contents().remove(k));
    } else {
        assert(l.after_delete(k).contents() =~= l.contents().remove(k));
    }
}

/// What was stored under a key is what a lookup of that key finds, and a lookup of any other key
/// finds what it found before.
pub proof fn stored_value_is_found<V>(l: Layout<V>, k: Seq<char>, v: V, other: Seq<char>)
    requires
        l.inv(),
    ensures
        l.after_store(k, v).lookup(k) == Some(v),
        other != k ==> l.after_store(k, v).lookup(other) == l.lookup(other),
{
    store_inserts(l, k, v);
    lemma_lookup(l, other);
    lemma_lookup(l.after_store(k, v), other);
    lemma_lookup(l.after_store(k, v), k);
}

/// A deleted key is not found, and a lookup of any other key finds what it found before.
pub proof fn deleted_key_is_gone<V>(l: Layout<V>, k: Seq<char>, other: Seq<char>)
    requires
        l.inv(),
    ensures
        l.after_delete(k).lookup(k) is None,
        other != k ==> l.after_delete(k).lookup(other) == l.lookup(other),
{
    delete_removes(l, k);
    lemma_lookup(l, other);
    lemma_lookup(l.after_delete(k), other);
    lemma_lookup(l.after_delete(k), k);
}

/// Of several attempts to load or store under one key, the first to store decides what the later
/// ones find.
pub proof fn first_load_or_store_wins<V>(l: Layout<V>, k: Seq<char>, v: V, w: V)
    requires
        l.inv(),
    ensures
        ({
            let once = l.after_load_or_store(k, v);
            let twice = once.after_load_or_store(k, w);
            &&& once.inv() && twice.inv()
            &&& once.lookup(k) == Some(
                if l.lookup(k) is Some {
                    l.lookup(k)->0
                } else {
                    v
                },
            )
            &&& twice.contents() == once.contents()
        }),
{
    store_inserts(l, k, v);
    load_keeps_contents(l, k);
    lemma_lookup(l, k);
    lemma_lookup(l.after_store(k, v), k);
    lemma_lookup(l.after_load(k), k);
    load_keeps_contents(l.after_load_or_store(k, v), k);
}

/// What the map holds, key by key.
proof fn lemma_lookup<V>(l: Layout<V>, k: Seq<char>)
    ensures
        l.contents().contains_key(k) <==> l.lookup(k) is Some,
        l.contents().contains_key(k) ==> l.contents()[k] == l.lookup(k)->0,
{
}

/// Listing the keys changes nothing that the map holds.
pub proof fn listing_keeps_contents<V>(l: Layout<V>)
    requires
        l.inv(),
    ensures
        l.after_listing().inv(),
        l.after_listing().contents() == l.contents(),
{
    if l.amended {
        lemma_missed(l);
    }
}

/// The layout after `n` lookups of `k`, one after the other.
pub open spec fn after_loads<V>(l: Layout<V>, k: Seq<char>, n: nat) -> Layout<V>
    decreases n,
{
    if n == 0 {
        l
    } else {
        after_loads(l, k, (n - 1) as nat).after_load(k)
    }
}

/// Lookups that go past the first part are counted. The second part takes over with the lookup
/// that makes them as many as that part has entries, and not before.
pub proof fn enough_misses_change_parts<V>(l: Layout<V>, k: Seq<char>, n: nat)
    requires
        l.inv(),
        l.amended,
        !l.read.contains_key(k),
        n <= l.dirty.len() - l.misses,
    ensures
        ({
            let after = after_loads(l, k, n);
            if n < l.dirty.len() - l.misses {
                &&& after.amended && after.read == l.read && after.dirty == l.dirty
                &&& after.misses == l.misses + n
            } else {
                &&& !after.amended && after.read == l.dirty && after.misses == 0
                &&& after.dirty == Map::<Seq<char>, Pointer<V>>::empty()
            }
        }),
    decreases n,
{
    if n > 0 {
        enough_misses_change_parts(l, k, (n - 1) as nat);
    }
}

/// Lookups that the first part answers, and lookups when it lists every key, change nothing at
/// all.
pub proof fn answered_lookup_changes_nothing<V>(l: Layout<V>, k: Seq<char>)
    requires
        l.read.contains_key(k) || !l.amended,
    ensures
        l.after_load(k) == l,
{
}

/// A key that was deleted from the first part is listed there as long as that part stays; once a
/// new key is stored, the part that takes over lists it no more. Keys that have a value stay
/// listed.
pub proof fn deleted_key_is_dropped<V>(l: Layout<V>, k: Seq<char>, new: Seq<char>, v: V)
    requires
        l.inv(),
        !l.amended,
        !l.read.contains_key(new),
    ensures
        ({
            let stored = l.after_store(new, v);
            &&& stored.amended && stored.misses == 0
            &&& stored.read.dom() == l.read.dom()
            &&& stored.promoted().read.contains_key(new)
            &&& k != new ==> (stored.promoted().read.contains_key(k) <==> l.lookup(k) is Some)
            &&& l.after_delete(k).read.dom() == l.read.dom()
            &&& l.after_delete(k).amended == l.amended
        }),
{
    assert(l.after_store(new, v).read.dom() =~= l.read.dom());
    assert(l.after_delete(k).read.dom() =~= l.read.dom());
}

/// Storing under a key that the first part lists leaves both parts' keys as they are, but for the
/// key itself, which the second part then lists if it is in use.
pub proof fn listed_key_stays_listed<V>(l: Layout<V>, k: Seq<char>, v: V)
    requires
        l.inv(),
        l.read.contains_key(k),
    ensures
        ({
            let stored = l.after_store(k, v);
            &&& stored.read.dom() == l.read.dom()
            &&& stored.amended == l.amended && stored.misses == l.misses
            &&& l.amended ==> stored.dirty.dom() == l.dirty.dom().insert(k)
            &&& !l.amended ==> stored.dirty == l.dirty
        }),
{
    let stored = l.after_store(k, v);
    assert(stored.read.dom() =~= l.read.dom());
    if l.amended {
        assert(stored.dirty.dom() =~= l.dirty.dom().insert(k));
    }
}

/// Once the keys are listed, the first part lists them all.
pub proof fn listing_empties_the_second_part<V>(l: Layout<V>)
    requires
        l.inv(),
    ensures
        ({
            let listed = l.after_listing();
            &&& !listed.amended && listed.misses == 0
            &&& listed.dirty == Map::<Seq<char>, Pointer<V>>::empty()
            &&& listed.read == (if l.amended { l.dirty } else { l.read })
        }),
{
}

/// The read-only part: which entry each of its keys has, and whether the second part lists more.
pub struct ReadOnly {
    m: Arc<StringHashMap<usize>>,
    amended: bool,
}

/// An entry with its key. Both parts name entries by their place in one list, so that an entry
/// that both list is one and the same.
struct Keyed<V> {
    key: Arc<String>,
    entry: Entry<V>,
}

/// A map from strings to values.
pub struct SyncMap<V> {
    read: AtomicValueUnchecked<ReadOnly>,
    dirty: StringHashMap<usize>,
    misses: usize,
    entries: Vec<Keyed<V>>,
}

impl<V> View for SyncMap<V> {
    type V = Map<Seq<char>, V>;

    open spec fn view(&self) -> Map<Seq<char>, V> {
        self.layout().contents()
    }
}

/// The pointers that a part leads to.
spec fn resolve<V>(m: Map<Seq<char>, usize>, entries: Seq<Keyed<V>>) -> Map<
    Seq<char>,
    Pointer<V>,
> {
    m.map_values(|i: usize| entries[i as int].entry.p.ptr)
}

/// Every key of a part names an entry of its own key.
spec fn indexes<V>(m: Map<Seq<char>, usize>, entries: Seq<Keyed<V>>) -> bool {
    forall|k: Seq<char>| #[trigger]
        m.contains_key(k) ==> m[k] < entries.len() && entries[m[k] as int].key@ == k
}

impl<V> SyncMap<V> {
    /// How the entries are laid out.
    pub closed spec fn layout(&self) -> Layout<V> {
        Layout {
            read: resolve(self.read@.m@, self.entries@),
            amended: self.read@.amended,
            dirty: resolve(self.dirty@, self.entries@),
            misses: self.misses as nat,
        }
    }

    /// Both parts name entries of their keys, and the same entry for a key that both list.
    closed spec fn indexed(&self) -> bool {
        &&& indexes(self.read@.m@, self.entries@)
        &&& indexes(self.dirty@, self.entries@)
        &&& forall|k: Seq<char>| #[trigger]
            self.read@.m@.contains_key(k) && #[trigger] self.dirty@.contains_key(k)
                ==> self.read@.m@[k] == self.dirty@[k]
    }

    /// The map is as the operations leave it.
    pub closed spec fn wf(&self) -> bool {
        &&& self.indexed()
        &&& self.layout().inv()
    }

    /// An empty map.
    pub fn new() -> (map: Self)
        ensures
            map.wf(),
            map@ == Map::<Seq<char>, V>::empty(),
            map.layout() == Layout::<V>::empty(),
    {
        let map = SyncMap {
            read: AtomicValueUnchecked::new(
                ReadOnly { m: Arc::new(StringHashMap::new()), amended: false },
            ),
            dirty: StringHashMap::new(),
            misses: 0,
            entries: Vec::new(),
        };
        assert(map.layout() =~= Layout::<V>::empty());
        assert(map@ =~= Map::<Seq<char>, V>::empty());
        map
    }

    /// The second part takes the place of the first.
    fn promote(&mut self)
        requires
            old(self).indexed(),
        ensures
            final(self).indexed(),
            final(self).layout() == old(self).layout().promoted(),
    {
        let mut m: StringHashMap<usize> = StringHashMap::new();
        std::mem::swap(&mut m, &mut self.dirty);
        self.read.store(ReadOnly { m: Arc::new(m), amended: false });
        self.misses = 0;
        assert(self.layout() =~= old(self).layout().promoted());
    }

    /// Counts a lookup that went past the first part.
    fn miss_locked(&mut self)
        requires
            old(self).indexed(),
        ensures
            final(self).indexed(),
            final(self).layout() == old(self).layout().missed(),
    {
        let n: usize = self.dirty.len();
        assert(self.layout().dirty.dom() =~= self.dirty@.dom());
        if n == 0 || self.misses >= n - 1 {
            self.promote();
        } else {
            self.misses = self.misses + 1;
        }
        assert(self.layout() =~= old(self).layout().missed());
    }

    /// The value stored under `key`.
    pub fn load(&mut self, key: &String) -> (res: Option<Arc<V>>)
        requires
            old(self).wf(),
        ensures
            final(self).wf(),
            match res {
                Some(v) => old(self)@.contains_key(key@) && *v == old(self)@[key@],
                None => !old(self)@.contains_key(key@),
            },
            final(self)@ == old(self)@,
            final(self).layout() == old(self).layout().after_load(key@),
    {
        proof {
            load_keeps_contents(self.layout(), key@);
        }
        let read = self.read.load();
        if let Some(i) = read.m.get(key.as_str()) {
            return self.entries[*i].entry.load();
        }
        if read.amended {
            let e: Option<Arc<V>> = match self.dirty.get(key.as_str()) {
                Some(i) => self.entries[*i].entry.load(),
                None => None,
            };
            self.miss_locked();
            e
        } else {
            None
        }
    }

    /// Fills the second part with the entries of the first that have a value, expunges the
    /// others, and drops the entries that the first part does not name.
    fn dirty_locked(&mut self)
        requires
            old(self).wf(),
            !old(self).layout().amended,
        ensures
            final(self).indexed(),
            final(self).layout() == old(self).layout().amended_with_read(),
    {
        let read = self.read.load();
        let ghost old_read = self.read@.m@;
        let ghost all = self.entries@;
        let mut m: StringHashMap<usize> = StringHashMap::new();
        let mut dirty: StringHashMap<usize> = StringHashMap::new();
        let mut kept: Vec<Keyed<V>> = Vec::new();
        while self.entries.len() > 0
            invariant
                *read == self.read@,
                self.misses == old(self).misses,
                self.read == old(self).read,
                old_read == read.m@,
                all == old(self).entries@,
                indexes(old_read, all),
                self.entries@ == all.take(self.entries@.len() as int),
                self.entries@.len() <= all.len(),
                indexes(m@, kept@),
                indexes(dirty@, kept@),
                // Handled so far: the keys whose entries lie past those that are left.
                forall|k: Seq<char>| #[trigger]
                    m@.contains_key(k) <==> old_read.contains_key(k) && old_read[k]
                        >= self.entries@.len(),
                forall|k: Seq<char>| #[trigger]
                    m@.contains_key(k) ==> kept@[m@[k] as int].entry.p.ptr == (
                    if all[old_read[k] as int].entry.p.ptr is To {
                        all[old_read[k] as int].entry.p.ptr
                    } else {
                        Pointer::Expunged
                    }),
                forall|k: Seq<char>| #[trigger]
                    dirty@.contains_key(k) <==> m@.contains_key(k)
                        && all[old_read[k] as int].entry.p.ptr is To,
                forall|k: Seq<char>| #[trigger] dirty@.contains_key(k) ==> dirty@[k] == m@[k],
            decreases self.entries@.len(),
        {
            let i: usize = self.entries.len() - 1;
            let ghost before = self.entries@;
            let popped = self.entries.pop();
            assert(self.entries@ == all.take(i as int));
            if let Some(keyed) = popped {
                let Keyed { key, entry } = keyed;
                let mut entry = entry;
                assert(key@ == all[i as int].key@ && entry == all[i as int].entry);
                let named: bool = match read.m.get(key.as_str()) {
                    Some(j) => *j == i,
                    None => false,
                };
                if named {
                    let j: usize = kept.len();
                    if !entry.try_expunge_locked() {
                        dirty.insert((*key).clone(), j);
                    }
                    m.insert((*key).clone(), j);
                    kept.push(Keyed { key, entry });
                }
            }
        }
        self.entries = kept;
        self.dirty = dirty;
        self.read.store(ReadOnly { m: Arc::new(m), amended: true });
        assert(self.layout() =~= old(self).layout().amended_with_read());
    }

    /// Stores `value` under `key`.
    pub fn store(&mut self, key: String, value: V)
        requires
            old(self).wf(),
        ensures
            final(self).wf(),
            final(self)@ == old(self)@.insert(key@, value),
            final(self).layout() == old(self).layout().after_store(key@, value),
    {
        proof {
            store_inserts(self.layout(), key@, value);
        }
        let value_ptr = Arc::new(value);
        let read = self.read.load();
        let ghost l = self.layout();
        if let Some(i) = read.m.get(key.as_str()) {
            let i: usize = *i;
            if !self.entries[i].entry.try_store(Pointer::To(value_ptr.clone())) {
                if self.entries[i].entry.unexpunge_locked() {
                    self.dirty.insert(key, i);
                }
                self.entries[i].entry.store_locked(Pointer::To(value_ptr));
            }
            assert(l.read.contains_key(key@));
            assert(self.layout() =~= l.after_store(key@, value));
        } else if let Some(i) = self.dirty.get(key.as_str()) {
            let i: usize = *i;
            assert(l.dirty.contains_key(key@));
            self.entries[i].entry.store_locked(Pointer::To(value_ptr));
            assert(self.layout() =~= l.after_store(key@, value));
        } else {
            if !read.amended {
                self.dirty_locked();
            }
            assert(!self.layout().read.contains_key(key@));
            let i: usize = self.entries.len();
            self.entries.push(
                Keyed {
                    key: Arc::new(key.clone()),
                    entry: Entry::from_ptr(Pointer::To(value_ptr)),
                },
            );
            self.dirty.insert(key, i);
            assert(self.indexed());
            assert(self.layout() =~= l.after_store(key@, value));
        }
    }

    /// The value stored under `key`; without one, stores `value` there.
    ///
    /// Where nothing was stored, the result is `value` if `key` is new to the first part, and
    /// `None` if that part still lists it as deleted.
    pub fn load_or_store(&mut self, key: String, value: V) -> (res: Option<Arc<V>>)
        requires
            old(self).wf(),
        ensures
            final(self).wf(),
            old(self)@.contains_key(key@) ==> {
                &&& res matches Some(v)
                &&& *v == old(self)@[key@]
                &&& final(self)@ == old(self)@
            },
            !old(self)@.contains_key(key@) ==> {
                &&& final(self)@ == old(self)@.insert(key@, value)
                &&& match res {
                    Some(v) => *v == value && !old(self).layout().read.contains_key(key@),
                    None => old(self).layout().read.contains_key(key@),
                }
            },
            final(self).layout() == old(self).layout().after_load_or_store(key@, value),
    {
        proof {
            store_inserts(self.layout(), key@, value);
            load_keeps_contents(self.layout(), key@);
        }
        let value_ptr = Arc::new(value);
        let read = self.read.load();
        let ghost l = self.layout();
        if let Some(i) = read.m.get(key.as_str()) {
            let i: usize = *i;
            assert(l.read.contains_key(key@));
            if self.entries[i].entry.unexpunge_locked() {
                self.dirty.insert(key, i);
            }
            let (v, _) = self.entries[i].entry.try_load_or_store(Pointer::To(value_ptr));
            assert(self.layout() =~= l.after_load_or_store(key@, value));
            v
        } else if let Some(i) = self.dirty.get(key.as_str()) {
            let i: usize = *i;
            assert(l.dirty.contains_key(key@));
            let (v, _) = self.entries[i].entry.try_load_or_store(Pointer::To(value_ptr));
            assert(self.layout() =~= l);
            self.miss_locked();
            v
        } else {
            if !read.amended {
                self.dirty_locked();
            }
            assert(!self.layout().read.contains_key(key@));
            let i: usize = self.entries.len();
            self.entries.push(
                Keyed {
                    key: Arc::new(key.clone()),
                    entry: Entry::from_ptr(Pointer::To(value_ptr.clone())),
                },
            );
            self.dirty.insert(key, i);
            assert(self.indexed());
            assert(self.layout() =~= l.after_store(key@, value));
            Some(value_ptr)
        }
    }

    /// Deletes `key` and returns the value that was stored under it.
    pub fn load_and_delete(&mut self, key: &String) -> (res: Option<Arc<V>>)
        requires
            old(self).wf(),
        ensures
            final(self).wf(),
            match res {
                Some(v) => old(self)@.contains_key(key@) && *v == old(self)@[key@],
                None => !old(self)@.contains_key(key@),
            },
            final(self)@ == old(self)@.remove(key@),
            final(self).layout() == old(self).layout().after_delete(key@),
    {
        proof {
            delete_removes(self.layout(), key@);
        }
        let read = self.read.load();
        let ghost l = self.layout();
        if let Some(i) = read.m.get(key.as_str()) {
            let i: usize = *i;
            assert(l.read.contains_key(key@));
            let v = self.entries[i].entry.delete();
            assert(self.layout() =~= l.after_delete(key@));
            v
        } else if read.amended {
            let v: Option<Arc<V>> = match self.dirty.get(key.as_str()) {
                Some(i) => {
                    let i: usize = *i;
                    self.entries[i].entry.delete()
                },
                None => None,
            };
            self.dirty.remove(key.as_str());
            assert(self.layout() =~= (Layout { dirty: l.dirty.remove(key@), ..l }));
            self.miss_locked();
            v
        } else {
            None
        }
    }

    /// Deletes `key`.
    pub fn delete(&mut self, key: &String)
        requires
            old(self).wf(),
        ensures
            final(self).wf(),
            final(self)@ == old(self)@.remove(key@),
            final(self).layout() == old(self).layout().after_delete(key@),
    {
        self.load_and_delete(key);
    }

    /// Makes the first part list every key.
    fn promote_if_amended(&mut self)
        requires
            old(self).wf(),
        ensures
            final(self).wf(),
            final(self)@ == old(self)@,
            !final(self).layout().amended,
            final(self).layout() == old(self).layout().after_listing(),
    {
        proof {
            listing_keeps_contents(self.layout());
        }
        if self.read.load().amended {
            self.promote();
        }
    }

    /// The key and the value of the entry at `i`, if the first part names it and it has a value.
    fn listed(&self, i: usize) -> (res: Option<(Arc<String>, Arc<V>)>)
        requires
            self.wf(),
            !self.layout().amended,
            i < self.entries@.len(),
        ensures
            match res {
                Some((k, v)) => self.lists(i as int) && k@ == self.entries@[i as int].key@
                    && *v == self@[k@],
                None => !self.lists(i as int),
            },
    {
        let read = self.read.load();
        let named: bool = match read.m.get(self.entries[i].key.as_str()) {
            Some(j) => *j == i,
            None => false,
        };
        if named {
            match self.entries[i].entry.load() {
                Some(v) => Some((self.entries[i].key.clone(), v)),
                None => None,
            }
        } else {
            None
        }
    }

    /// The entry at `i` is that of a key with a value.
    spec fn lists(&self, i: int) -> bool {
        let k = self.entries@[i].key@;
        &&& 0 <= i < self.entries@.len()
        &&& self@.contains_key(k)
        &&& self.read@.m@[k] == i
    }

    /// All pairs of a key and its value, in some order.
    pub fn key_values(&mut self) -> (res: Vec<(Arc<String>, Arc<V>)>)
        requires
            old(self).wf(),
        ensures
            final(self).wf(),
            final(self)@ == old(self)@,
            final(self).layout() == old(self).layout().after_listing(),
            lists_all(res@.map_values(|kv: (Arc<String>, Arc<V>)| kv.0@), old(self)@),
            forall|i: int|
                0 <= i < res@.len() ==> *(#[trigger] res@[i]).1 == old(self)@[res@[i].0@],
    {
        self.promote_if_amended();
        let mut res: Vec<(Arc<String>, Arc<V>)> = Vec::new();
        let mut i: usize = 0;
        let ghost mut from: Seq<int> = Seq::empty();
        while i < self.entries.len()
            invariant
                self.wf(),
                !self.layout().amended,
                self@ == old(self)@,
                self.layout() == old(self).layout().after_listing(),
                i <= self.entries@.len(),
                from.len() == res@.len(),
                forall|a: int| 0 <= a < from.len() ==> 0 <= #[trigger] from[a] < i,
                forall|a: int, b: int| 0 <= a < b < from.len() ==> from[a] < from[b],
                forall|a: int| 0 <= a < from.len() ==> self.lists(#[trigger] from[a]),
                forall|a: int|
                    0 <= a < from.len() ==> (#[trigger] res@[a]).0@ == self.entries@[from[a]].key@
                        && *res@[a].1 == self@[res@[a].0@],
                forall|j: int| 0 <= j < i && #[trigger] self.lists(j) ==> from.contains(j),
            decreases self.entries@.len() - i,
        {
            if let Some((k, v)) = self.listed(i) {
                res.push((k, v));
                proof {
                    let old_from = from;
                    from = from.push(i as int);
                    assert(from[old_from.len() as int] == i);
                    assert forall|j: int|
                        0 <= j < i + 1 && #[trigger] self.lists(j) implies from.contains(j) by {
                        if j < i {
                            let a = choose|a: int| 0 <= a < old_from.len() && old_from[a] == j;
                            assert(from[a] == j);
                        }
                    }
                }
            }
            i = i + 1;
        }
        proof {
            let keys = res@.map_values(|kv: (Arc<String>, Arc<V>)| kv.0@);
            assert forall|k: Seq<char>| #[trigger]
                keys.contains(k) <==> self@.contains_key(k) by {
                if keys.contains(k) {
                    let a = choose|a: int| 0 <= a < keys.len() && keys[a] == k;
                    assert(self.lists(from[a]));
                }
                if self@.contains_key(k) {
                    let j = self.read@.m@[k] as int;
                    assert(self.layout().read.contains_key(k));
                    assert(self.lists(j));
                    let a = choose|a: int| 0 <= a < from.len() && from[a] == j;
                    assert(keys[a] == k);
                }
            }
            assert(keys.to_set() =~= self@.dom());
            assert forall|a: int, b: int| 0 <= a < b < keys.len() implies keys[a] != keys[b] by {
                assert(self.lists(from[a]) && self.lists(from[b]));
            }
        }
        res
    }

    /// All keys, in some order.
    pub fn keys(&mut self) -> (res: Vec<Arc<String>>)
        requires
            old(self).wf(),
        ensures
            final(self).wf(),
            final(self)@ == old(self)@,
            final(self).layout() == old(self).layout().after_listing(),
            lists_all(res@.map_values(|k: Arc<String>| k@), old(self)@),
    {
        let pairs = self.key_values();
        let mut res: Vec<Arc<String>> = Vec::new();
        for i in 0..pairs.len()
            invariant
                res@.len() == i,
                forall|j: int| 0 <= j < i ==> (#[trigger] res@[j])@ == pairs@[j].0@,
        {
            res.push(pairs[i].0.clone());
        }
        assert(res@.map_values(|k: Arc<String>| k@) =~= pairs@.map_values(
            |kv: (Arc<String>, Arc<V>)| kv.0@,
        ));
        res
    }

    /// All values, in some order of their keys.
    pub fn values(&mut self) -> (res: Vec<Arc<V>>)
        requires
            old(self).wf(),
        ensures
            final(self).wf(),
            final(self)@ == old(self)@,
            final(self).layout() == old(self).layout().after_listing(),
            exists|keys: Seq<Seq<char>>| #[trigger]
                lists_all(keys, old(self)@) && res@.map_values(|v: Arc<V>| *v) == keys.map_values(
                    |k: Seq<char>| old(self)@[k],
                ),
    {
        let pairs = self.key_values();
        let mut res: Vec<Arc<V>> = Vec::new();
        for i in 0..pairs.len()
            invariant
                res@.len() == i,
                forall|j: int| 0 <= j < i ==> *(#[trigger] res@[j]) == *pairs@[j].1,
        {
            res.push(pairs[i].1.clone());
        }
        let ghost keys = pairs@.map_values(|kv: (Arc<String>, Arc<V>)| kv.0@);
        assert(lists_all(keys, old(self)@));
        assert(res@.map_values(|v: Arc<V>| *v) =~= keys.map_values(|k: Seq<char>| old(self)@[k]));
        res
    }
}

/// The sequence holds every key of the map once, and nothing else.
pub open spec fn lists_all<V>(keys: Seq<Seq<char>>, m: Map<Seq<char>, V>) -> bool {
    &&& keys.no_duplicates()
    &&& keys.to_set() == m.dom()
}

/// A listing has as many places as the map has keys: each key stands at one place, and at no place
/// stands anything else.
pub proof fn each_key_is_listed_once<V>(
    keys: Seq<Seq<char>>,
    m: Map<Seq<char>, V>,
    k: Seq<char>,
    i: int,
    j: int,
)
    requires
        lists_all(keys, m),
    ensures
        keys.len() == m.len(),
        m.contains_key(k) <==> keys.contains(k),
        0 <= i < keys.len() ==> m.contains_key(keys[i]),
        0 <= i < keys.len() && 0 <= j < keys.len() && keys[i] == keys[j] ==> i == j,
{
    keys.unique_seq_to_set();
    assert(keys.to_set().contains(k) <==> keys.contains(k));
    if 0 <= i < keys.len() {
        assert(keys.contains(keys[i]));
        assert(keys.to_set().contains(keys[i]));
    }
}

} // verus!
