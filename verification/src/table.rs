//! Open-addressing hash table used for globals and string interning.
//!
//! Keys are interned string objects together with their hash; because
//! strings are interned, handle equality is content equality.  Deleted
//! entries leave tombstones (no key, non-nil value) so that probe sequences
//! stay intact.

use vstd::prelude::*;

use crate::common::{grow_capacity, spec_grow_capacity};
use vstd::arithmetic::power2::{pow2, lemma2_to64, lemma_pow2_strictly_increases, lemma_pow2_unfold};
use crate::value::{ObjRef, Value, Obj, Heap, obj_marked, utf8_len, str_eq};

verus! {

/// A key as the table sees it: a string handle and that string's hash.
pub type TableKey = (ObjRef, u32);

#[derive(Debug, Clone, Copy)]
struct Entry {
    key: Option<ObjRef>,
    hash: u32,
    value: Value,
}

spec fn entry_empty(e: Entry) -> bool {
    e.key is None && e.value is Nil
}

spec fn entry_live(e: Entry) -> bool {
    e.key is Some
}

spec fn entry_key(e: Entry) -> TableKey {
    (e.key->Some_0, e.hash)
}

impl Entry {
    fn empty() -> (e: Self)
        ensures
            entry_empty(e),
    {
        Entry { key: None, hash: 0, value: Value::Nil }
    }

    fn is_empty_slot(&self) -> (b: bool)
        ensures
            b == entry_empty(*self),
    {
        self.key.is_none() && self.value.is_nil()
    }
}

// ---------------------------------------------------------------------------
// Probe geometry
// ---------------------------------------------------------------------------

/// The slot where probing for hash `h` starts.
spec fn home(h: u32, cap: nat) -> nat
    recommends
        cap > 0,
{
    (h as nat) % cap
}

/// The slot `d` steps after `start`, wrapping around.
spec fn pos(start: nat, d: nat, cap: nat) -> nat {
    if start + d < cap {
        start + d
    } else {
        (start + d - cap) as nat
    }
}

/// How many steps after `start` slot `i` comes.
spec fn dist(start: nat, i: nat, cap: nat) -> nat {
    if i >= start {
        (i - start) as nat
    } else {
        (i + cap - start) as nat
    }
}

/// The slot `d` steps along the probe sequence of the entry at `i`.
spec fn path_slot(s: Seq<Entry>, i: int, d: nat) -> int {
    pos(home(s[i].hash, s.len()), d, s.len()) as int
}

/// Every live entry is reachable from its home slot without crossing an
/// empty slot.
spec fn probe_ok(s: Seq<Entry>) -> bool {
    forall|i: int, d: nat|
        #![trigger path_slot(s, i, d)]
        0 <= i < s.len() && entry_live(s[i]) && d < dist(home(s[i].hash, s.len()), i as nat, s.len())
            ==> !entry_empty(s[path_slot(s, i, d)])
}

/// No key occurs in two live entries.
spec fn keys_unique(s: Seq<Entry>) -> bool {
    forall|i: int, j: int|
        0 <= i < s.len() && 0 <= j < s.len() && entry_live(#[trigger] s[i]) && entry_live(
            #[trigger] s[j],
        ) && entry_key(s[i]) == entry_key(s[j]) ==> i == j
}

/// Number of non-empty slots (live entries and tombstones).
spec fn used_count(s: Seq<Entry>) -> nat
    decreases s.len(),
{
    if s.len() == 0 {
        0
    } else {
        used_count(s.drop_last()) + if entry_empty(s.last()) {
            0nat
        } else {
            1nat
        }
    }
}

spec fn used(e: Entry) -> nat {
    if entry_empty(e) {
        0
    } else {
        1
    }
}

proof fn lemma_pos_dist(start: nat, i: nat, cap: nat)
    requires
        start < cap,
        i < cap,
    ensures
        dist(start, i, cap) < cap,
        pos(start, dist(start, i, cap), cap) == i,
{
}

proof fn lemma_dist_pos(start: nat, d: nat, cap: nat)
    requires
        start < cap,
        d < cap,
    ensures
        pos(start, d, cap) < cap,
        dist(start, pos(start, d, cap), cap) == d,
{
}

proof fn lemma_used_count_update(s: Seq<Entry>, i: int, e: Entry)
    requires
        0 <= i < s.len(),
    ensures
        used_count(s.update(i, e)) + used(s[i]) == used_count(s) + used(e),
    decreases s.len(),
{
    if i == s.len() - 1 {
        assert(s.update(i, e).drop_last() =~= s.drop_last());
    } else {
        lemma_used_count_update(s.drop_last(), i, e);
        assert(s.update(i, e).drop_last() =~= s.drop_last().update(i, e));
    }
}

proof fn lemma_used_count_le(s: Seq<Entry>)
    ensures
        used_count(s) <= s.len(),
    decreases s.len(),
{
    if s.len() > 0 {
        lemma_used_count_le(s.drop_last());
    }
}

proof fn lemma_has_empty(s: Seq<Entry>) -> (e: int)
    requires
        used_count(s) < s.len(),
    ensures
        0 <= e < s.len(),
        entry_empty(s[e]),
    decreases s.len(),
{
    if entry_empty(s.last()) {
        s.len() - 1
    } else {
        let e = lemma_has_empty(s.drop_last());
        e
    }
}

proof fn lemma_used_count_pos(s: Seq<Entry>, i: int)
    requires
        0 <= i < s.len(),
        !entry_empty(s[i]),
    ensures
        used_count(s) >= 1,
    decreases s.len(),
{
    if i < s.len() - 1 {
        lemma_used_count_pos(s.drop_last(), i);
    }
}

proof fn lemma_used_count_push(s: Seq<Entry>, e: Entry)
    ensures
        used_count(s.push(e)) == used_count(s) + used(e),
{
    assert(s.push(e).drop_last() =~= s);
}

proof fn lemma_used_count_all_empty(s: Seq<Entry>)
    requires
        forall|i: int| 0 <= i < s.len() ==> entry_empty(#[trigger] s[i]),
    ensures
        used_count(s) == 0,
    decreases s.len(),
{
    if s.len() > 0 {
        lemma_used_count_all_empty(s.drop_last());
    }
}

proof fn lemma_used_count_prefix(s: Seq<Entry>, n: int)
    requires
        0 <= n <= s.len(),
    ensures
        used_count(s.subrange(0, n)) <= used_count(s),
    decreases s.len() - n,
{
    if n < s.len() {
        lemma_used_count_prefix(s, n + 1);
        assert(s.subrange(0, n + 1).drop_last() =~= s.subrange(0, n));
    } else {
        assert(s.subrange(0, n) =~= s);
    }
}

/// Placing a live entry whose key is absent into the slot that the probe for
/// it found keeps the probe and uniqueness properties.
proof fn lemma_insert_fresh(ns: Seq<Entry>, dest: int, src: Entry)
    requires
        probe_ok(ns),
        keys_unique(ns),
        0 <= dest < ns.len(),
        ns[dest].key is None,
        entry_live(src),
        forall|d: nat|
            d < dist(home(src.hash, ns.len()), dest as nat, ns.len()) ==> !entry_empty(
                #[trigger] ns[pos(home(src.hash, ns.len()), d, ns.len()) as int],
            ),
        forall|x: int|
            0 <= x < ns.len() && entry_live(#[trigger] ns[x]) ==> entry_key(ns[x]) != entry_key(src),
    ensures
        probe_ok(ns.update(dest, src)),
        keys_unique(ns.update(dest, src)),
{
    let ns2 = ns.update(dest, src);
    assert forall|x: int, d: nat|
        0 <= x < ns2.len() && entry_live(ns2[x]) && d < dist(
            home(ns2[x].hash, ns2.len()),
            x as nat,
            ns2.len(),
        ) implies !entry_empty(#[trigger] ns2[path_slot(ns2, x, d)]) by {
        if x == dest {
            assert(path_slot(ns2, x, d) == pos(home(src.hash, ns.len()), d, ns.len()));
            assert(!entry_empty(ns[pos(home(src.hash, ns.len()), d, ns.len()) as int]));
        } else {
            assert(path_slot(ns2, x, d) == path_slot(ns, x, d));
        }
    }
    assert forall|i: int, j: int|
        0 <= i < ns2.len() && 0 <= j < ns2.len() && entry_live(#[trigger] ns2[i]) && entry_live(
            #[trigger] ns2[j],
        ) && entry_key(ns2[i]) == entry_key(ns2[j]) implies i == j by {
        if i != dest && j != dest {
            assert(ns2[i] == ns[i] && ns2[j] == ns[j]);
        } else if i == dest && j != dest {
            assert(ns2[j] == ns[j]);
        } else if j == dest && i != dest {
            assert(ns2[i] == ns[i]);
        }
    }
}

// ---------------------------------------------------------------------------
// The table
// ---------------------------------------------------------------------------

/// An open-addressing hash table from string keys to values.
pub struct Table {
    /// live entries + tombstones
    count: usize,
    entries: Vec<Entry>,
    model: Ghost<Map<TableKey, Value>>,
}

impl View for Table {
    type V = Map<TableKey, Value>;

    closed spec fn view(&self) -> Map<TableKey, Value> {
        self.model@
    }
}

/// Whether `r` is a key of the table or an object value stored in it.
pub open spec fn table_refers(m: Map<TableKey, Value>, r: ObjRef) -> bool {
    exists|k: TableKey| m.contains_key(k) && (k.0 == r || m[k] == Value::Obj(r))
}

/// The handles `mark` lists for the entry `k -> v`: the key's string, then
/// the value when it is an object.
pub open spec fn key_refs(k: TableKey, v: Value) -> Seq<ObjRef> {
    match v {
        Value::Obj(o) => seq![k.0, o],
        _ => seq![k.0],
    }
}

/// The handles listed for the keys `ks` of `m`, in order.
pub open spec fn refs_of_keys(ks: Seq<TableKey>, m: Map<TableKey, Value>) -> Seq<ObjRef>
    decreases ks.len(),
{
    if ks.len() == 0 {
        Seq::empty()
    } else {
        refs_of_keys(ks.drop_last(), m) + key_refs(ks.last(), m[ks.last()])
    }
}

/// The keys of the live entries of `s`, in slot order.
spec fn live_keys(s: Seq<Entry>) -> Seq<TableKey>
    decreases s.len(),
{
    if s.len() == 0 {
        Seq::empty()
    } else if entry_live(s.last()) {
        live_keys(s.drop_last()).push(entry_key(s.last()))
    } else {
        live_keys(s.drop_last())
    }
}

/// The live keys of the first `n` slots are those slots' keys, each once.
proof fn lemma_live_keys(s: Seq<Entry>, n: int)
    requires
        0 <= n <= s.len(),
        keys_unique(s),
    ensures
        live_keys(s.subrange(0, n)).no_duplicates(),
        forall|k: TableKey|
            #[trigger] live_keys(s.subrange(0, n)).contains(k) <==> exists|j: int|
                0 <= j < n && entry_live(#[trigger] s[j]) && entry_key(s[j]) == k,
    decreases n,
{
    let t = s.subrange(0, n);
    if n > 0 {
        lemma_live_keys(s, n - 1);
        let p = s.subrange(0, n - 1);
        assert(t.drop_last() =~= p);
        let lp = live_keys(p);
        if entry_live(s[n - 1]) {
            let k = entry_key(s[n - 1]);
            assert(live_keys(t) == lp.push(k));
            assert(!lp.contains(k)) by {
                if lp.contains(k) {
                    let j = choose|j: int| 0 <= j < n - 1 && entry_live(#[trigger] s[j]) && entry_key(s[j]) == k;
                }
            }
            assert forall|a: int, b: int| 0 <= a < b < lp.push(k).len() implies lp.push(k)[a] != lp.push(k)[b] by {
                if b == lp.len() {
                    assert(lp.contains(lp[a]));
                }
            }
            assert forall|x: TableKey| #[trigger] lp.push(k).contains(x) <==> exists|j: int|
                0 <= j < n && entry_live(#[trigger] s[j]) && entry_key(s[j]) == x by {
                if lp.push(k).contains(x) {
                    let i = choose|i: int| 0 <= i < lp.push(k).len() && lp.push(k)[i] == x;
                    if i < lp.len() {
                        assert(lp.contains(x));
                    }
                }
                if exists|j: int| 0 <= j < n && entry_live(#[trigger] s[j]) && entry_key(s[j]) == x {
                    let j = choose|j: int| 0 <= j < n && entry_live(#[trigger] s[j]) && entry_key(s[j]) == x;
                    if j < n - 1 {
                        assert(lp.contains(x));
                        let i = choose|i: int| 0 <= i < lp.len() && lp[i] == x;
                        assert(lp.push(k)[i] == x);
                    } else {
                        assert(lp.push(k)[lp.len() as int] == x);
                    }
                }
            }
        } else {
            assert(live_keys(t) == lp);
            assert forall|x: TableKey| #[trigger] lp.contains(x) <==> exists|j: int|
                0 <= j < n && entry_live(#[trigger] s[j]) && entry_key(s[j]) == x by {
                if exists|j: int| 0 <= j < n && entry_live(#[trigger] s[j]) && entry_key(s[j]) == x {
                    let j = choose|j: int| 0 <= j < n && entry_live(#[trigger] s[j]) && entry_key(s[j]) == x;
                    assert(j < n - 1);
                }
            }
        }
    } else {
        assert(t =~= Seq::<Entry>::empty());
    }
}

/// A capacity the table can have: a power of two, at least eight.
pub open spec fn is_table_capacity(n: nat) -> bool {
    exists|k: nat| 3 <= k && n == pow2(k)
}

/// Growing an empty table or one whose capacity is a power of two of at
/// least eight gives such a capacity again.
proof fn lemma_grow_table_capacity(n: nat)
    requires
        n == 0 || is_table_capacity(n),
    ensures
        is_table_capacity(spec_grow_capacity(n)),
{
    lemma2_to64();
    if n == 0 {
        assert(spec_grow_capacity(n) == pow2(3));
    } else {
        let k = choose|k: nat| 3 <= k && n == pow2(k);
        lemma_pow2_unfold(k + 1);
        if k > 3 {
            lemma_pow2_strictly_increases(3, k);
        }
        assert(spec_grow_capacity(n) == pow2(k + 1));
    }
}

/// Every live entry is in the model and every model key has a live entry.
spec fn models(s: Seq<Entry>, m: Map<TableKey, Value>) -> bool {
    &&& forall|i: int|
        0 <= i < s.len() && entry_live(#[trigger] s[i]) ==> m.contains_key(entry_key(s[i]))
            && m[entry_key(s[i])] == s[i].value
    &&& forall|k: TableKey|
        #[trigger] m.contains_key(k) ==> exists|i: int|
            0 <= i < s.len() && entry_live(#[trigger] s[i]) && entry_key(s[i]) == k
}

impl Table {
    /// The table's internal invariant.
    pub closed spec fn wf(&self) -> bool {
        let s = self.entries@;
        &&& self.count == used_count(s)
        &&& 4 * self.count <= 3 * s.len()
        &&& (s.len() == 0 || s.len() >= 8)
        &&& (s.len() == 0 || is_table_capacity(s.len()))
        &&& probe_ok(s)
        &&& keys_unique(s)
        &&& models(s, self.model@)
        &&& forall|i: int| 0 <= i < s.len() && !entry_live(#[trigger] s[i]) ==> !(s[i].value is Obj)
    }

    /// Every key names a live string object whose stored hash is the key's
    /// hash and whose stored length is its byte length.
    pub open spec fn keys_are_strings(&self, heap: Map<ObjRef, Obj>) -> bool {
        forall|k: TableKey|
            #[trigger] self@.contains_key(k) ==> heap.contains_key(k.0) && heap[k.0] is String
                && heap[k.0]->String_0.hash == k.1 && heap[k.0]->String_0.length == utf8_len(
                heap[k.0]->String_0.chars@,
            )
    }

    /// Number of slots.
    pub closed spec fn spec_capacity(&self) -> nat {
        self.entries@.len()
    }

    /// The load factor stays at most three quarters and the capacity is
    /// zero or at least eight, so while the table has slots one of them is
    /// empty and every probe sequence ends.
    pub proof fn lemma_load_factor(&self)
        requires
            self.wf(),
        ensures
            4 * self.spec_count() <= 3 * self.spec_capacity(),
            self.spec_capacity() == 0 || self.spec_capacity() >= 8,
            self.spec_capacity() == 0 || is_table_capacity(self.spec_capacity()),
            self.spec_capacity() > 0 ==> self.spec_count() < self.spec_capacity(),
    {
    }

    /// Number of occupied slots: live entries and tombstones.
    pub closed spec fn spec_count(&self) -> nat {
        self.count as nat
    }

    pub fn new() -> (t: Self)
        ensures
            t.wf(),
            t@ == Map::<TableKey, Value>::empty(),
            t.spec_capacity() == 0,
            t.spec_count() == 0,
    {
        let t = Table { count: 0, entries: Vec::new(), model: Ghost(Map::empty()) };
        t
    }

    pub fn capacity(&self) -> (n: usize)
        ensures
            n == self.spec_capacity(),
    {
        self.entries.len()
    }

    /// The slot holding `key`, or else the slot where it belongs.
    fn find_entry(entries: &Vec<Entry>, key: ObjRef, hash: u32) -> (idx: usize)
        requires
            entries@.len() > 0,
            probe_ok(entries@),
            exists|e: int| 0 <= e < entries@.len() && entry_empty(#[trigger] entries@[e]),
        ensures
            idx < entries@.len(),
            (exists|i: int|
                0 <= i < entries@.len() && entry_live(#[trigger] entries@[i]) && entry_key(
                    entries@[i],
                ) == (key, hash)) ==> entry_live(entries@[idx as int]) && entry_key(
                entries@[idx as int],
            ) == (key, hash),
            !(exists|i: int|
                0 <= i < entries@.len() && entry_live(#[trigger] entries@[i]) && entry_key(
                    entries@[i],
                ) == (key, hash)) ==> {
                &&& entries@[idx as int].key is None
                &&& forall|d: nat|
                    d < dist(home(hash, entries@.len()), idx as nat, entries@.len()) ==> !entry_empty(
                        #[trigger] entries@[pos(home(hash, entries@.len()), d, entries@.len()) as int],
                    )
            },
    {
        let ghost s = entries@;
        let capacity = entries.len();
        let ghost cap = capacity as nat;
        let start = (hash as usize) % capacity;
        let ghost st = start as nat;
        assert(st == home(hash, cap));
        let mut index = start;
        let mut tombstone: Option<usize> = None;
        let ghost mut t: nat = 0;
        let ghost mut tomb_d: nat = 0;
        let ghost e = choose|e: int| 0 <= e < s.len() && entry_empty(#[trigger] s[e]);
        proof {
            lemma_pos_dist(st, e as nat, cap);
        }
        let ghost de = dist(st, e as nat, cap);
        loop
            invariant
                s == entries@,
                cap == s.len(),
                capacity == cap,
                st < cap,
                st == home(hash, cap),
                probe_ok(s),
                0 <= e < cap,
                entry_empty(s[e]),
                de == dist(st, e as nat, cap),
                de < cap,
                pos(st, de, cap) == e,
                t <= de,
                index == pos(st, t, cap),
                forall|d: nat|
                    d < t ==> !entry_empty(#[trigger] s[pos(st, d, cap) as int]) && !(entry_live(
                        s[pos(st, d, cap) as int],
                    ) && entry_key(s[pos(st, d, cap) as int]) == (key, hash)),
                tombstone matches Some(ti) ==> tomb_d < t && ti == pos(st, tomb_d, cap) && s[ti as int].key is None,
            decreases cap - t,
        {
            proof {
                lemma_dist_pos(st, t, cap);
            }
            let entry = &entries[index];
            match entry.key {
                None => {
                    if entry.is_empty_slot() {
                        let r = match tombstone {
                            Some(ti) => ti,
                            None => index,
                        };
                        proof {
                            assert forall|i: int|
                                0 <= i < s.len() && entry_live(#[trigger] s[i]) implies entry_key(s[i])
                                != (key, hash) by {
                                if entry_key(s[i]) == (key, hash) {
                                    lemma_pos_dist(st, i as nat, cap);
                                    let di = dist(st, i as nat, cap);
                                    if di < t {
                                        assert(!(entry_live(s[pos(st, di, cap) as int]) && entry_key(
                                            s[pos(st, di, cap) as int],
                                        ) == (key, hash)));
                                    } else if di == t {
                                    } else {
                                        assert(path_slot(s, i, t) == pos(st, t, cap));
                                        assert(!entry_empty(s[path_slot(s, i, t)]));
                                    }
                                }
                            }
                            match tombstone {
                                Some(ti) => {
                                    lemma_dist_pos(st, tomb_d, cap);
                                    assert forall|d: nat|
                                        d < dist(home(hash, cap), ti as nat, cap) implies !entry_empty(
                                        #[trigger] s[pos(home(hash, cap), d, cap) as int],
                                    ) by {}
                                },
                                None => {
                                    assert forall|d: nat|
                                        d < dist(home(hash, cap), index as nat, cap) implies !entry_empty(
                                        #[trigger] s[pos(home(hash, cap), d, cap) as int],
                                    ) by {}
                                },
                            }
                        }
                        return r;
                    } else if tombstone.is_none() {
                        tombstone = Some(index);
                        proof {
                            tomb_d = t;
                        }
                    }
                },
                Some(k) => {
                    if k == key && entry.hash == hash {
                        return index;
                    }
                },
            }
            index = if index + 1 == capacity {
                0
            } else {
                index + 1
            };
            proof {
                t = t + 1;
                if t > de {
                    assert(!entry_empty(s[pos(st, de, cap) as int]));
                }
            }
        }
    }

    /// Facts every operation needs: a non-zero count means there are slots
    /// and at least one of them is empty, and a zero count means the model is
    /// empty.
    proof fn lemma_wf_facts(&self)
        requires
            self.wf(),
        ensures
            self.count > 0 ==> self.entries@.len() > 0 && exists|e: int|
                0 <= e < self.entries@.len() && entry_empty(#[trigger] self.entries@[e]),
            self.count == 0 ==> self@ == Map::<TableKey, Value>::empty(),
            self.count < self.entries@.len() || self.entries@.len() == 0,
    {
        let s = self.entries@;
        if self.count > 0 {
            let e = lemma_has_empty(s);
        }
        if self.count == 0 {
            assert forall|k: TableKey| !self@.contains_key(k) by {
                if self@.contains_key(k) {
                    let i = choose|i: int| 0 <= i < s.len() && entry_live(#[trigger] s[i]) && entry_key(s[i]) == k;
                    lemma_used_count_pos(s, i);
                }
            }
            assert(self@ =~= Map::<TableKey, Value>::empty());
        }
    }

    /// The value stored under `key` (with `hash` its string's hash).
    pub fn get(&self, key: ObjRef, hash: u32) -> (res: Option<Value>)
        requires
            self.wf(),
        ensures
            match res {
                Some(v) => self@.contains_key((key, hash)) && self@[(key, hash)] == v,
                None => !self@.contains_key((key, hash)),
            },
    {
        proof {
            self.lemma_wf_facts();
        }
        if self.count == 0 {
            return None;
        }
        let idx = Self::find_entry(&self.entries, key, hash);
        let entry = &self.entries[idx];
        if entry.key.is_none() {
            proof {
                if self@.contains_key((key, hash)) {
                    let i = choose|i: int| 0 <= i < self.entries@.len() && entry_live(#[trigger] self.entries@[i]) && entry_key(self.entries@[i]) == (key, hash);
                }
            }
            None
        } else {
            Some(entry.value)
        }
    }

    /// Rebuild the table with `capacity` slots, dropping tombstones.
    #[verifier::spinoff_prover]
    #[verifier::rlimit(40)]
    fn adjust_capacity(&mut self, capacity: usize)
        requires
            old(self).wf(),
            capacity >= 8,
            is_table_capacity(capacity as nat),
            4 * old(self).count + 4 <= 3 * capacity,
        ensures
            final(self).wf(),
            final(self)@ == old(self)@,
            final(self).entries@.len() == capacity,
            final(self).count <= old(self).count,
    {
        let ghost s = self.entries@;
        let ghost m = self.model@;
        let mut new_entries: Vec<Entry> = Vec::new();
        let mut j: usize = 0;
        while j < capacity
            invariant
                j <= capacity,
                new_entries@.len() == j,
                forall|x: int| 0 <= x < j ==> entry_empty(#[trigger] new_entries@[x]),
            decreases capacity - j,
        {
            new_entries.push(Entry::empty());
            j = j + 1;
        }
        proof {
            lemma_used_count_all_empty(new_entries@);
        }
        let mut new_count: usize = 0;
        let mut i: usize = 0;
        let n = self.entries.len();
        while i < n
            invariant
                self.entries@ == s,
                self.model@ == m,
                old(self).wf(),
                old(self).entries@ == s,
                old(self).model@ == m,
                n == s.len(),
                i <= n,
                capacity >= 8,
                4 * old(self).count + 4 <= 3 * capacity,
                new_entries@.len() == capacity,
                probe_ok(new_entries@),
                keys_unique(new_entries@),
                forall|x: int|
                    0 <= x < capacity && !entry_empty(#[trigger] new_entries@[x]) ==> entry_live(
                        new_entries@[x],
                    ),
                used_count(new_entries@) == new_count,
                new_count <= used_count(s.subrange(0, i as int)),
                forall|x: int|
                    0 <= x < capacity && entry_live(#[trigger] new_entries@[x]) ==> exists|y: int|
                        0 <= y < i && entry_live(#[trigger] s[y]) && entry_key(s[y]) == entry_key(
                            new_entries@[x],
                        ) && s[y].value == new_entries@[x].value,
                forall|y: int|
                    0 <= y < i && entry_live(#[trigger] s[y]) ==> exists|x: int|
                        0 <= x < capacity && entry_live(#[trigger] new_entries@[x]) && entry_key(
                            new_entries@[x],
                        ) == entry_key(s[y]),
            decreases n - i,
        {
            let src = self.entries[i];
            proof {
                assert(s.subrange(0, i + 1).drop_last() =~= s.subrange(0, i as int));
                lemma_used_count_prefix(s, i + 1);
            }
            match src.key {
                Some(k) => {
                    let ghost ns = new_entries@;
                    proof {
                        lemma_used_count_le(ns);
                        let e = lemma_has_empty(ns);
                        assert forall|x: int|
                            0 <= x < ns.len() && entry_live(#[trigger] ns[x]) implies entry_key(ns[x])
                            != (k, src.hash) by {
                            if entry_key(ns[x]) == (k, src.hash) {
                                let y = choose|y: int|
                                    0 <= y < i && entry_live(#[trigger] s[y]) && entry_key(s[y])
                                        == entry_key(ns[x]) && s[y].value == ns[x].value;
                                assert(s[i as int] == src);
                            }
                        }
                    }
                    let dest = Self::find_entry(&new_entries, k, src.hash);
                    proof {
                        assert(entry_empty(ns[dest as int]));
                        lemma_used_count_update(ns, dest as int, src);
                    }
                    new_entries.set(dest, src);
                    new_count = new_count + 1;
                    proof {
                        lemma_insert_fresh(ns, dest as int, src);
                        assert forall|x: int|
                            0 <= x < capacity && entry_live(#[trigger] new_entries@[x]) implies exists|y: int|
                                0 <= y < i + 1 && entry_live(#[trigger] s[y]) && entry_key(s[y]) == entry_key(
                                    new_entries@[x],
                                ) && s[y].value == new_entries@[x].value by {
                            if x == dest {
                                assert(s[i as int] == src);
                            } else {
                                let y = choose|y: int|
                                    0 <= y < i && entry_live(#[trigger] s[y]) && entry_key(s[y])
                                        == entry_key(ns[x]) && s[y].value == ns[x].value;
                            }
                        }
                        assert forall|y: int|
                            0 <= y < i + 1 && entry_live(#[trigger] s[y]) implies exists|x: int|
                                0 <= x < capacity && entry_live(#[trigger] new_entries@[x]) && entry_key(
                                    new_entries@[x],
                                ) == entry_key(s[y]) by {
                            if y == i {
                                assert(entry_live(new_entries@[dest as int]));
                            } else {
                                let x = choose|x: int|
                                    0 <= x < capacity && entry_live(#[trigger] ns[x]) && entry_key(ns[x])
                                        == entry_key(s[y]);
                                assert(entry_live(new_entries@[x]));
                            }
                        }
                    }
                },
                None => {},
            }
            i = i + 1;
        }
        proof {
            assert(s.subrange(0, n as int) =~= s);
            let ns = new_entries@;
            assert forall|x: int|
                0 <= x < ns.len() && entry_live(#[trigger] ns[x]) implies m.contains_key(entry_key(ns[x]))
                && m[entry_key(ns[x])] == ns[x].value by {
                let y = choose|y: int|
                    0 <= y < n && entry_live(#[trigger] s[y]) && entry_key(s[y]) == entry_key(ns[x])
                        && s[y].value == ns[x].value;
            }
            assert forall|k: TableKey| #[trigger] m.contains_key(k) implies exists|x: int|
                0 <= x < ns.len() && entry_live(#[trigger] ns[x]) && entry_key(ns[x]) == k by {
                let y = choose|y: int| 0 <= y < s.len() && entry_live(#[trigger] s[y]) && entry_key(s[y]) == k;
            }
        }
        self.entries = new_entries;
        self.count = new_count;
    }

    /// Store `value` under `key`; returns whether the key was new.
    pub fn set(&mut self, key: ObjRef, hash: u32, value: Value) -> (is_new: bool)
        requires
            old(self).wf(),
            old(self).spec_capacity() <= usize::MAX / 2,
        ensures
            final(self).wf(),
            final(self)@ == old(self)@.insert((key, hash), value),
            is_new == !old(self)@.contains_key((key, hash)),
            final(self).spec_capacity() == if 4 * (old(self).spec_count() + 1) > 3 * old(self).spec_capacity() {
                spec_grow_capacity(old(self).spec_capacity())
            } else {
                old(self).spec_capacity()
            },
    {
        if (self.count as u128 + 1) * 4 > self.entries.len() as u128 * 3 {
            let capacity = grow_capacity(self.entries.len());
            proof {
                lemma_grow_table_capacity(self.entries@.len());
            }
            self.adjust_capacity(capacity);
        }
        let ghost s = self.entries@;
        let ghost m = self.model@;
        proof {
            let e = lemma_has_empty(s);
        }
        let idx = Self::find_entry(&self.entries, key, hash);
        let old_entry = self.entries[idx];
        let is_new = old_entry.key.is_none();
        proof {
            lemma_used_count_update(s, idx as int, Entry { key: Some(key), hash, value });
            if !is_new {
                assert(entry_key(s[idx as int]) == (key, hash)) by {
                    if !(exists|i: int| 0 <= i < s.len() && entry_live(#[trigger] s[i]) && entry_key(s[i]) == (key, hash)) {
                        assert(s[idx as int].key is None);
                    }
                }
            }
        }
        if is_new && old_entry.is_empty_slot() {
            self.count = self.count + 1;
        }
        let new_entry = Entry { key: Some(key), hash, value };
        self.entries.set(idx, new_entry);
        proof {
            self.model@ = m.insert((key, hash), value);
            let s2 = self.entries@;
            assert(is_new == !m.contains_key((key, hash))) by {
                if is_new && m.contains_key((key, hash)) {
                    let i = choose|i: int| 0 <= i < s.len() && entry_live(#[trigger] s[i]) && entry_key(s[i]) == (key, hash);
                }
            }
            assert forall|x: int, d: nat|
                0 <= x < s2.len() && entry_live(s2[x]) && d < dist(home(s2[x].hash, s2.len()), x as nat, s2.len())
                implies !entry_empty(#[trigger] s2[path_slot(s2, x, d)]) by {
                if x == idx {
                    if is_new {
                        assert(path_slot(s2, x, d) == pos(home(hash, s.len()), d, s.len()));
                        assert(!entry_empty(s[pos(home(hash, s.len()), d, s.len()) as int]));
                    } else {
                        assert(path_slot(s2, x, d) == path_slot(s, x, d));
                    }
                } else {
                    assert(path_slot(s2, x, d) == path_slot(s, x, d));
                }
            }
            assert forall|i: int, j: int|
                0 <= i < s2.len() && 0 <= j < s2.len() && entry_live(#[trigger] s2[i]) && entry_live(
                    #[trigger] s2[j],
                ) && entry_key(s2[i]) == entry_key(s2[j]) implies i == j by {
                if i != idx && j != idx {
                    assert(s2[i] == s[i] && s2[j] == s[j]);
                }
            }
            assert forall|i: int|
                0 <= i < s2.len() && entry_live(#[trigger] s2[i]) implies self.model@.contains_key(
                    entry_key(s2[i]),
                ) && self.model@[entry_key(s2[i])] == s2[i].value by {
                if i != idx {
                    assert(s2[i] == s[i]);
                }
            }
            assert forall|k: TableKey| #[trigger] self.model@.contains_key(k) implies exists|i: int|
                0 <= i < s2.len() && entry_live(#[trigger] s2[i]) && entry_key(s2[i]) == k by {
                if k == (key, hash) {
                    assert(entry_live(s2[idx as int]));
                } else {
                    let i = choose|i: int| 0 <= i < s.len() && entry_live(#[trigger] s[i]) && entry_key(s[i]) == k;
                    assert(s2[i] == s[i]);
                }
            }
        }
        is_new
    }

    /// Remove `key`, leaving a tombstone; returns whether it was present.
    pub fn delete(&mut self, key: ObjRef, hash: u32) -> (removed: bool)
        requires
            old(self).wf(),
        ensures
            final(self).wf(),
            final(self)@ == old(self)@.remove((key, hash)),
            removed == old(self)@.contains_key((key, hash)),
            final(self).spec_capacity() == old(self).spec_capacity(),
            final(self).spec_count() == old(self).spec_count(),
    {
        proof {
            self.lemma_wf_facts();
        }
        if self.count == 0 {
            proof {
                assert(self@.remove((key, hash)) =~= self@);
            }
            return false;
        }
        let ghost s = self.entries@;
        let ghost m = self.model@;
        let idx = Self::find_entry(&self.entries, key, hash);
        let e = self.entries[idx];
        if e.key.is_none() {
            proof {
                if m.contains_key((key, hash)) {
                    let i = choose|i: int| 0 <= i < s.len() && entry_live(#[trigger] s[i]) && entry_key(s[i]) == (key, hash);
                }
                assert(m.remove((key, hash)) =~= m);
            }
            return false;
        }
        let tomb = Entry { key: None, hash: e.hash, value: Value::Bool(true) };
        proof {
            assert(!(tomb.value is Obj));
            lemma_used_count_update(s, idx as int, tomb);
            if !(exists|i: int| 0 <= i < s.len() && entry_live(#[trigger] s[i]) && entry_key(s[i]) == (key, hash)) {
                assert(s[idx as int].key is None);
            }
        }
        self.entries.set(idx, tomb);
        proof {
            self.model@ = m.remove((key, hash));
            let s2 = self.entries@;
            assert forall|x: int, d: nat|
                0 <= x < s2.len() && entry_live(s2[x]) && d < dist(home(s2[x].hash, s2.len()), x as nat, s2.len())
                implies !entry_empty(#[trigger] s2[path_slot(s2, x, d)]) by {
                assert(path_slot(s2, x, d) == path_slot(s, x, d));
            }
            assert forall|i: int, j: int|
                0 <= i < s2.len() && 0 <= j < s2.len() && entry_live(#[trigger] s2[i]) && entry_live(
                    #[trigger] s2[j],
                ) && entry_key(s2[i]) == entry_key(s2[j]) implies i == j by {
                assert(s2[i] == s[i] && s2[j] == s[j]);
            }
            assert forall|i: int|
                0 <= i < s2.len() && entry_live(#[trigger] s2[i]) implies self.model@.contains_key(
                    entry_key(s2[i]),
                ) && self.model@[entry_key(s2[i])] == s2[i].value by {
                assert(s2[i] == s[i]);
            }
            assert forall|k: TableKey| #[trigger] self.model@.contains_key(k) implies exists|i: int|
                0 <= i < s2.len() && entry_live(#[trigger] s2[i]) && entry_key(s2[i]) == k by {
                let i = choose|i: int| 0 <= i < s.len() && entry_live(#[trigger] s[i]) && entry_key(s[i]) == k;
                assert(s2[i] == s[i]);
            }
        }
        true
    }

    /// Look up an interned string by content (used while interning).
    pub fn find_string(&self, heap: &Heap, chars: &str, hash: u32) -> (res: Option<ObjRef>)
        requires
            self.wf(),
            self.keys_are_strings(heap@),
        ensures
            match res {
                Some(r) => self@.contains_key((r, hash)) && heap@[r]->String_0.chars@ == chars@,
                None => forall|k: TableKey|
                    #[trigger] self@.contains_key(k) ==> !(k.1 == hash && heap@[k.0]->String_0.chars@
                        == chars@),
            },
    {
        proof {
            self.lemma_wf_facts();
        }
        if self.count == 0 {
            return None;
        }
        let ghost s = self.entries@;
        let capacity = self.entries.len();
        let ghost cap = capacity as nat;
        let start = (hash as usize) % capacity;
        let ghost st = start as nat;
        let mut index = start;
        let ghost mut t: nat = 0;
        let ghost e = choose|e: int| 0 <= e < s.len() && entry_empty(#[trigger] s[e]);
        proof {
            lemma_pos_dist(st, e as nat, cap);
        }
        let ghost de = dist(st, e as nat, cap);
        loop
            invariant
                self.wf(),
                self.keys_are_strings(heap@),
                s == self.entries@,
                cap == s.len(),
                capacity == cap,
                st < cap,
                st == home(hash, cap),
                0 <= e < cap,
                entry_empty(s[e]),
                de == dist(st, e as nat, cap),
                de < cap,
                pos(st, de, cap) == e,
                t <= de,
                index == pos(st, t, cap),
                forall|d: nat|
                    d < t ==> !entry_empty(#[trigger] s[pos(st, d, cap) as int]) && !(entry_live(
                        s[pos(st, d, cap) as int],
                    ) && entry_key(s[pos(st, d, cap) as int]).1 == hash && heap@[entry_key(
                        s[pos(st, d, cap) as int],
                    ).0]->String_0.chars@ == chars@),
            decreases cap - t,
        {
            proof {
                lemma_dist_pos(st, t, cap);
            }
            let entry = &self.entries[index];
            match entry.key {
                None => {
                    if entry.is_empty_slot() {
                        proof {
                            assert forall|k: TableKey| #[trigger] self@.contains_key(k) implies !(k.1
                                == hash && heap@[k.0]->String_0.chars@ == chars@) by {
                                if k.1 == hash && heap@[k.0]->String_0.chars@ == chars@ {
                                    let i = choose|i: int|
                                        0 <= i < s.len() && entry_live(#[trigger] s[i]) && entry_key(s[i]) == k;
                                    lemma_pos_dist(st, i as nat, cap);
                                    let di = dist(st, i as nat, cap);
                                    if di < t {
                                        assert(!(entry_live(s[pos(st, di, cap) as int]) && entry_key(
                                            s[pos(st, di, cap) as int],
                                        ).1 == hash && heap@[entry_key(s[pos(st, di, cap) as int]).0]->String_0.chars@
                                            == chars@));
                                    } else if di == t {
                                    } else {
                                        assert(path_slot(s, i, t) == pos(st, t, cap));
                                        assert(!entry_empty(s[path_slot(s, i, t)]));
                                    }
                                }
                            }
                        }
                        return None;
                    }
                },
                Some(k) => {
                    proof {
                        assert(entry_live(s[index as int]));
                        assert(self@.contains_key(entry_key(s[index as int])));
                    }
                    match heap.get(k) {
                        Some(Obj::String(os)) => {
                            if os.length == chars.len() && os.hash == hash && str_eq(
                                os.chars.as_str(),
                                chars,
                            ) {
                                return Some(k);
                            }
                        },
                        _ => {},
                    }
                },
            }
            index = if index + 1 == capacity {
                0
            } else {
                index + 1
            };
            proof {
                t = t + 1;
                if t > de {
                    assert(!entry_empty(s[pos(st, de, cap) as int]));
                }
            }
        }
    }

    /// Append every key and every object value in the table to `roots`.
    pub fn mark(&self, roots: &mut Vec<ObjRef>)
        requires
            self.wf(),
        ensures
            final(roots)@.len() >= old(roots)@.len(),
            final(roots)@.subrange(0, old(roots)@.len() as int) == old(roots)@,
            forall|r: ObjRef| #[trigger] final(roots)@.contains(r) <==> (old(roots)@.contains(r) || table_refers(self@, r)),
            exists|ks: Seq<TableKey>|
                #![trigger refs_of_keys(ks, self@)]
                ks.no_duplicates() && (forall|k: TableKey| #[trigger] ks.contains(k) <==> self@.contains_key(k))
                    && final(roots)@ == old(roots)@ + refs_of_keys(ks, self@),
    {
        let ghost s = self.entries@;
        let ghost m = self.model@;
        let ghost orig = roots@;
        let mut i: usize = 0;
        while i < self.entries.len()
            invariant
                self.wf(),
                s == self.entries@,
                m == self.model@,
                i <= s.len(),
                roots@.len() >= orig.len(),
                roots@.subrange(0, orig.len() as int) == orig,
                forall|r: ObjRef| #[trigger] roots@.contains(r) ==> orig.contains(r) || table_refers(m, r),
                forall|x: int| 0 <= x < i && entry_live(#[trigger] s[x]) ==> roots@.contains(s[x].key->Some_0),
                forall|x: int| 0 <= x < i && #[trigger] s[x].value is Obj ==> roots@.contains(s[x].value->Obj_0),
                forall|r: ObjRef| #[trigger] orig.contains(r) ==> roots@.contains(r),
                roots@ == orig + refs_of_keys(live_keys(s.subrange(0, i as int)), m),
            decreases s.len() - i,
        {
            let entry = &self.entries[i];
            let ghost before = roots@;
            proof {
                let t = s.subrange(0, i + 1);
                assert(t.drop_last() =~= s.subrange(0, i as int));
                let lp = live_keys(s.subrange(0, i as int));
                if entry_live(s[i as int]) {
                    let k = entry_key(s[i as int]);
                    assert(lp.push(k).drop_last() =~= lp);
                    assert(refs_of_keys(live_keys(t), m) == refs_of_keys(lp, m) + key_refs(k, m[k]));
                } else {
                    assert(refs_of_keys(live_keys(t), m) == refs_of_keys(lp, m));
                }
            }
            match entry.key {
                Some(k) => {
                    proof {
                        assert(self@.contains_key(entry_key(s[i as int])));
                    }
                    roots.push(k);
                },
                None => {},
            }
            match entry.value {
                Value::Obj(o) => {
                    proof {
                        assert(entry_live(s[i as int]));
                        assert(self@.contains_key(entry_key(s[i as int])));
                    }
                    roots.push(o);
                },
                _ => {},
            }
            proof {
                assert forall|r: ObjRef| #[trigger] before.contains(r) implies roots@.contains(r) by {
                    let j = choose|j: int| 0 <= j < before.len() && before[j] == r;
                    assert(roots@[j] == r);
                }
                {
                    let lp = live_keys(s.subrange(0, i as int));
                    let t = s.subrange(0, i + 1);
                    if entry_live(s[i as int]) {
                        let k = entry_key(s[i as int]);
                        assert(m[k] == s[i as int].value);
                        assert(roots@ =~= orig + refs_of_keys(live_keys(t), m));
                    } else {
                        assert(!(s[i as int].value is Obj));
                        assert(roots@ =~= orig + refs_of_keys(live_keys(t), m));
                    }
                }
                assert(roots@.subrange(0, orig.len() as int) =~= orig) by {
                    assert forall|j: int| 0 <= j < orig.len() implies roots@[j] == orig[j] by {
                        assert(before.subrange(0, orig.len() as int)[j] == orig[j]);
                    }
                }
                if entry.key.is_some() {
                    assert(roots@[before.len() as int] == s[i as int].key->Some_0);
                    assert(roots@.contains(s[i as int].key->Some_0));
                }
                if s[i as int].value is Obj {
                    assert(roots@[roots@.len() - 1] == s[i as int].value->Obj_0);
                    assert(roots@.contains(s[i as int].value->Obj_0));
                }
                assert forall|x: int| 0 <= x < i + 1 && entry_live(#[trigger] s[x]) implies roots@.contains(s[x].key->Some_0) by {
                    if x < i {
                        assert(before.contains(s[x].key->Some_0));
                    }
                }
                assert forall|x: int| 0 <= x < i + 1 && #[trigger] s[x].value is Obj implies roots@.contains(s[x].value->Obj_0) by {
                    if x < i {
                        assert(before.contains(s[x].value->Obj_0));
                    }
                }
                assert forall|r: ObjRef| #[trigger] roots@.contains(r) implies orig.contains(r) || table_refers(m, r) by {
                    let j = choose|j: int| 0 <= j < roots@.len() && roots@[j] == r;
                    if j < before.len() {
                        assert(before[j] == r);
                        assert(before.contains(r));
                    } else {
                        assert(m.contains_key(entry_key(s[i as int])));
                    }
                }
            }
            i = i + 1;
        }
        proof {
            assert(s.subrange(0, s.len() as int) =~= s);
            lemma_live_keys(s, s.len() as int);
            let ks = live_keys(s.subrange(0, s.len() as int));
            assert(ks.no_duplicates());
            assert(m == self@);
            assert forall|k: TableKey| #[trigger] ks.contains(k) <==> m.contains_key(k) by {
                if m.contains_key(k) {
                    let x = choose|x: int| 0 <= x < s.len() && entry_live(#[trigger] s[x]) && entry_key(s[x]) == k;
                }
            }
            assert(roots@ == orig + refs_of_keys(ks, m));
            assert forall|r: ObjRef| table_refers(m, r) implies #[trigger] roots@.contains(r) by {
                let k = choose|k: TableKey| m.contains_key(k) && (k.0 == r || m[k] == Value::Obj(r));
                let x = choose|x: int| 0 <= x < s.len() && entry_live(#[trigger] s[x]) && entry_key(s[x]) == k;
            }
        }
    }

    /// After the mark phase, drop every key whose object is unmarked.
    pub fn remove_white(&mut self, heap: &Heap)
        requires
            old(self).wf(),
            forall|k: TableKey| #[trigger] old(self)@.contains_key(k) ==> heap@.contains_key(k.0),
        ensures
            final(self).wf(),
            final(self).spec_capacity() == old(self).spec_capacity(),
            final(self).spec_count() == old(self).spec_count(),
            forall|k: TableKey|
                #[trigger] final(self)@.contains_key(k) <==> old(self)@.contains_key(k) && obj_marked(
                    heap@[k.0],
                ),
            forall|k: TableKey| #[trigger] final(self)@.contains_key(k) ==> final(self)@[k] == old(self)@[k],
    {
        let ghost m0 = self.model@;
        assert(m0 == old(self)@);
        let mut i: usize = 0;
        let n = self.entries.len();
        while i < n
            invariant
                self.wf(),
                n == self.entries@.len(),
                n == old(self).entries@.len(),
                self.count == old(self).count,
                i <= n,
                forall|k: TableKey| #[trigger] m0.contains_key(k) ==> heap@.contains_key(k.0),
                forall|k: TableKey| #[trigger] self@.contains_key(k) ==> m0.contains_key(k) && self@[k] == m0[k],
                forall|k: TableKey|
                    #[trigger] m0.contains_key(k) && obj_marked(heap@[k.0]) ==> self@.contains_key(k),
                forall|x: int|
                    0 <= x < i && entry_live(#[trigger] self.entries@[x]) ==> obj_marked(
                        heap@[self.entries@[x].key->Some_0],
                    ),
            decreases n - i,
        {
            let entry = self.entries[i];
            match entry.key {
                Some(k) => {
                    proof {
                        assert(self@.contains_key(entry_key(self.entries@[i as int])));
                    }
                    let white = match heap.get(k) {
                        Some(o) => !o.is_marked(),
                        None => false,
                    };
                    if white {
                        let ghost s = self.entries@;
                        let ghost m = self.model@;
                        let tomb = Entry { key: None, hash: entry.hash, value: Value::Bool(true) };
                        proof {
                            lemma_used_count_update(s, i as int, tomb);
                        }
                        self.entries.set(i, tomb);
                        proof {
                            self.model@ = m.remove((k, entry.hash));
                            let s2 = self.entries@;
                            assert forall|x: int, d: nat|
                                0 <= x < s2.len() && entry_live(s2[x]) && d < dist(home(s2[x].hash, s2.len()), x as nat, s2.len())
                                implies !entry_empty(#[trigger] s2[path_slot(s2, x, d)]) by {
                                assert(path_slot(s2, x, d) == path_slot(s, x, d));
                            }
                            assert forall|a: int, b: int|
                                0 <= a < s2.len() && 0 <= b < s2.len() && entry_live(#[trigger] s2[a]) && entry_live(
                                    #[trigger] s2[b],
                                ) && entry_key(s2[a]) == entry_key(s2[b]) implies a == b by {
                                assert(s2[a] == s[a] && s2[b] == s[b]);
                            }
                            assert forall|a: int|
                                0 <= a < s2.len() && entry_live(#[trigger] s2[a]) implies self.model@.contains_key(
                                    entry_key(s2[a]),
                                ) && self.model@[entry_key(s2[a])] == s2[a].value by {
                                assert(s2[a] == s[a]);
                                assert(entry_key(s[a]) != entry_key(s[i as int]));
                            }
                            assert forall|kk: TableKey| #[trigger] self.model@.contains_key(kk) implies exists|a: int|
                                0 <= a < s2.len() && entry_live(#[trigger] s2[a]) && entry_key(s2[a]) == kk by {
                                let a = choose|a: int| 0 <= a < s.len() && entry_live(#[trigger] s[a]) && entry_key(s[a]) == kk;
                                assert(s2[a] == s[a]);
                            }
                            assert forall|a: int| 0 <= a < s2.len() && !entry_live(#[trigger] s2[a]) implies !(s2[a].value is Obj) by {
                                if a != i {
                                    assert(s2[a] == s[a]);
                                }
                            }
                        }
                    }
                },
                None => {},
            }
            i = i + 1;
        }
        proof {
            assert forall|k: TableKey| #[trigger] self@.contains_key(k) implies obj_marked(heap@[k.0]) by {
                let x = choose|x: int| 0 <= x < self.entries@.len() && entry_live(#[trigger] self.entries@[x]) && entry_key(self.entries@[x]) == k;
            }
        }
    }
}

impl Default for Table {
    fn default() -> (t: Self)
        ensures
            t.wf(),
            t@ == Map::<TableKey, Value>::empty(),
            t.spec_capacity() == 0,
            t.spec_count() == 0,
    {
        Table::new()
    }
}

} // verus!
