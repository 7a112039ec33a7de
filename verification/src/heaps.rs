//! Memory types without repeats, in ascending order, and the property sets
//! that belong to one heap.

use vstd::prelude::*;

verus! {

/// One memory type: the heap it lives in and its property flags as bits.
#[derive(Clone, Copy, Debug, PartialEq, Eq, Structural)]
pub struct MemoryTypeDescriptor {
    pub heap_index: usize,
    pub properties: u16,
}

/// One memory heap: its index and its size in bytes.
#[derive(Clone, Copy, Debug, PartialEq, Eq, Structural)]
pub struct MemoryHeapDescriptor {
    pub index: usize,
    pub size_bytes: u64,
}

/// The order of memory types: by heap index, then by property bits.
pub open spec fn precedes(a: MemoryTypeDescriptor, b: MemoryTypeDescriptor) -> bool {
    a.heap_index < b.heap_index || (a.heap_index == b.heap_index && a.properties < b.properties)
}

/// Each element precedes every later one, so none occurs twice.
pub open spec fn ascending(s: Seq<MemoryTypeDescriptor>) -> bool {
    forall|i: int, j: int| 0 <= i < j < s.len() ==> precedes(s[i], s[j])
}

/// Each number is less than every later one, so none occurs twice.
pub open spec fn increasing(s: Seq<u16>) -> bool {
    forall|i: int, j: int| 0 <= i < j < s.len() ==> s[i] < s[j]
}

/// The property bits of the entries that belong to `heap`, in the order of
/// the entries.
pub open spec fn select(entries: Seq<MemoryTypeDescriptor>, heap: usize) -> Seq<u16>
    decreases entries.len(),
{
    if entries.len() == 0 {
        Seq::empty()
    } else if entries.last().heap_index == heap {
        select(entries.drop_last(), heap).push(entries.last().properties)
    } else {
        select(entries.drop_last(), heap)
    }
}

/// `select` holds the property bits of exactly the entries of `heap`.
pub proof fn lemma_select_members(entries: Seq<MemoryTypeDescriptor>, heap: usize, bits: u16)
    ensures
        select(entries, heap).contains(bits) <==> entries.contains(
            MemoryTypeDescriptor { heap_index: heap, properties: bits },
        ),
    decreases entries.len(),
{
    let wanted = MemoryTypeDescriptor { heap_index: heap, properties: bits };
    if entries.len() > 0 {
        let head = entries.drop_last();
        let got = select(entries, heap);
        lemma_select_members(head, heap, bits);
        if select(head, heap).contains(bits) {
            let m = choose|m: int| 0 <= m < select(head, heap).len() && select(head, heap)[m] == bits;
            assert(got[m] == bits);
        }
        if head.contains(wanted) {
            let k = choose|k: int| 0 <= k < head.len() && head[k] == wanted;
            assert(entries[k] == wanted);
        }
        if entries.last() == wanted {
            assert(got[got.len() - 1] == bits);
            assert(entries[entries.len() - 1] == wanted);
        }
        if got.contains(bits) {
            let m = choose|m: int| 0 <= m < got.len() && got[m] == bits;
            if m < select(head, heap).len() {
                assert(select(head, heap)[m] == bits);
            }
        }
        if entries.contains(wanted) {
            let k = choose|k: int| 0 <= k < entries.len() && entries[k] == wanted;
            if k < head.len() {
                assert(head[k] == wanted);
            }
        }
    }
}

/// From entries in ascending order `select` takes increasing property bits.
pub proof fn lemma_select_increasing(entries: Seq<MemoryTypeDescriptor>, heap: usize)
    requires
        ascending(entries),
    ensures
        increasing(select(entries, heap)),
    decreases entries.len(),
{
    if entries.len() > 0 {
        let head = entries.drop_last();
        let last = entries.last();
        lemma_select_increasing(head, heap);
        if last.heap_index == heap {
            let got = select(entries, heap);
            assert forall|i: int, j: int| 0 <= i < j < got.len() implies got[i] < got[j] by {
                if j == got.len() - 1 {
                    lemma_select_members(head, heap, got[i]);
                    assert(select(head, heap)[i] == got[i]);
                    let wanted = MemoryTypeDescriptor { heap_index: heap, properties: got[i] };
                    let k = choose|k: int| 0 <= k < head.len() && head[k] == wanted;
                    assert(precedes(entries[k], entries[entries.len() - 1]));
                }
            }
        }
    }
}

/// Two ascending sequences with the same elements are the same sequence:
/// the elements decide the order in which a set keeps them.
pub proof fn lemma_ascending_unique(a: Seq<MemoryTypeDescriptor>, b: Seq<MemoryTypeDescriptor>)
    requires
        ascending(a),
        ascending(b),
        forall|x: MemoryTypeDescriptor| a.contains(x) <==> b.contains(x),
    ensures
        a == b,
    decreases a.len(),
{
    if a.len() == 0 {
        if b.len() > 0 {
            assert(b.contains(b[0]));
        }
        assert(a =~= b);
    } else {
        let top = a.last();
        assert(a.contains(top));
        let k = choose|k: int| 0 <= k < b.len() && b[k] == top;
        assert(b.contains(b.last()));
        let m = choose|m: int| 0 <= m < a.len() && a[m] == b.last();
        assert(k == b.len() - 1) by {
            if k < b.len() - 1 {
                assert(precedes(b[k], b[b.len() - 1]));
                if m < a.len() - 1 {
                    assert(precedes(a[m], a[a.len() - 1]));
                }
            }
        }
        let a0 = a.drop_last();
        let b0 = b.drop_last();
        assert forall|x: MemoryTypeDescriptor| a0.contains(x) <==> b0.contains(x) by {
            if a0.contains(x) {
                let i = choose|i: int| 0 <= i < a0.len() && a0[i] == x;
                assert(a[i] == x);
                assert(precedes(a[i], a[a.len() - 1]));
                assert(a.contains(x));
                let j = choose|j: int| 0 <= j < b.len() && b[j] == x;
                assert(b0[j] == x);
            }
            if b0.contains(x) {
                let j = choose|j: int| 0 <= j < b0.len() && b0[j] == x;
                assert(b[j] == x);
                assert(precedes(b[j], b[b.len() - 1]));
                assert(b.contains(x));
                let i = choose|i: int| 0 <= i < a.len() && a[i] == x;
                assert(a0[i] == x);
            }
        }
        lemma_ascending_unique(a0, b0);
        assert(a =~= a0.push(top));
        assert(b =~= b0.push(top));
    }
}

/// The distinct memory types of an adapter, in ascending order.
pub struct MemoryTypeSet {
    entries: Vec<MemoryTypeDescriptor>,
}

impl MemoryTypeSet {
    /// The entries, in the order in which they are kept.
    pub closed spec fn view(&self) -> Seq<MemoryTypeDescriptor> {
        self.entries@
    }

    /// The entries are in ascending order, without repeats. This holds of
    /// every set.
    pub open spec fn wf(&self) -> bool {
        ascending(self@)
    }

    #[verifier::type_invariant]
    spec fn ordered(self) -> bool {
        ascending(self.entries@)
    }

    /// The set without entries.
    pub fn new() -> (set: Self)
        ensures
            set.wf(),
            set@.len() == 0,
    {
        MemoryTypeSet { entries: Vec::new() }
    }

    /// The number of entries.
    pub fn len(&self) -> (n: usize)
        ensures
            n == self@.len(),
    {
        self.entries.len()
    }

    /// The entry at `index`.
    pub fn get(&self, index: usize) -> (entry: Option<MemoryTypeDescriptor>)
        ensures
            entry == if index < self@.len() {
                Some(self@[index as int])
            } else {
                None
            },
    {
        if index < self.entries.len() {
            Some(self.entries[index])
        } else {
            None
        }
    }

    /// Adds `entry` unless the set holds it already; says whether it was
    /// added.
    pub fn insert(&mut self, entry: MemoryTypeDescriptor) -> (added: bool)
        ensures
            final(self).wf(),
            forall|x: MemoryTypeDescriptor|
                final(self)@.contains(x) <==> (old(self)@.contains(x) || x == entry),
            added == !old(self)@.contains(entry),
            final(self)@.len() == old(self)@.len() + if added { 1int } else { 0int },
    {
        proof {
            use_type_invariant(&*self);
        }
        let n = self.entries.len();
        let ghost before = self.entries@;
        let mut i: usize = 0;
        while i < n && (self.entries[i].heap_index < entry.heap_index || (self.entries[i].heap_index
            == entry.heap_index && self.entries[i].properties < entry.properties))
            invariant
                i <= n,
                n == self.entries.len(),
                self.entries@ == before,
                forall|k: int| 0 <= k < i ==> precedes(before[k], entry),
            decreases n - i,
        {
            i += 1;
        }
        if i < n && self.entries[i].heap_index == entry.heap_index && self.entries[i].properties
            == entry.properties {
            assert(before[i as int] == entry);
            return false;
        }
        proof {
            assert forall|k: int| 0 <= k < before.len() implies before[k] != entry by {
                if k >= i {
                    assert(precedes(entry, before[i as int]));
                    if k > i {
                        assert(precedes(before[i as int], before[k]));
                    }
                }
            }
        }
        let mut fresh: Vec<MemoryTypeDescriptor> = Vec::new();
        let mut k: usize = 0;
        while k < n
            invariant
                k <= n,
                i <= n,
                n == self.entries.len(),
                self.entries@ == before,
                fresh@ == if k <= i {
                    before.take(k as int)
                } else {
                    before.take(i as int).push(entry) + before.subrange(i as int, k as int)
                },
            decreases n - k,
        {
            if k == i {
                fresh.push(entry);
            }
            fresh.push(self.entries[k]);
            k += 1;
        }
        if i == n {
            fresh.push(entry);
        }
        assert(fresh@ =~= before.insert(i as int, entry));
        proof {
            let after = fresh@;
            assert forall|a: int, b: int| 0 <= a < b < after.len() implies precedes(
                after[a],
                after[b],
            ) by {
                if b > i {
                    assert(after[b] == before[b - 1]);
                    if i < n {
                        assert(precedes(entry, before[i as int]));
                        if b - 1 > i {
                            assert(precedes(before[i as int], before[b - 1]));
                        }
                    }
                }
                if a > i {
                    assert(after[a] == before[a - 1]);
                }
            }
            assert forall|x: MemoryTypeDescriptor|
                after.contains(x) <==> (before.contains(x) || x == entry) by {
                if after.contains(x) {
                    let k = choose|k: int| 0 <= k < after.len() && after[k] == x;
                    if k < i {
                        assert(before[k] == x);
                    } else if k > i {
                        assert(before[k - 1] == x);
                    }
                }
                if before.contains(x) {
                    let k = choose|k: int| 0 <= k < before.len() && before[k] == x;
                    if k < i {
                        assert(after[k] == x);
                    } else {
                        assert(after[k + 1] == x);
                    }
                }
                if x == entry {
                    assert(after[i as int] == x);
                }
            }
        }
        self.entries = fresh;
        true
    }

    /// The property bits of the entries that belong to `heap`, ascending.
    /// A heap without entries gives an empty vector.
    pub fn properties_of(&self, heap: usize) -> (bits: Vec<u16>)
        ensures
            self.wf(),
            bits@ == select(self@, heap),
            increasing(bits@),
            forall|p: u16|
                bits@.contains(p) <==> self@.contains(
                    MemoryTypeDescriptor { heap_index: heap, properties: p },
                ),
    {
        proof {
            use_type_invariant(self);
        }
        let n = self.entries.len();
        let mut bits: Vec<u16> = Vec::new();
        let mut i: usize = 0;
        assert(self.entries@.take(0) =~= Seq::<MemoryTypeDescriptor>::empty());
        while i < n
            invariant
                i <= n,
                n == self.entries.len(),
                bits@ == select(self.entries@.take(i as int), heap),
            decreases n - i,
        {
            assert(self.entries@.take(i + 1).drop_last() =~= self.entries@.take(i as int));
            if self.entries[i].heap_index == heap {
                bits.push(self.entries[i].properties);
            }
            i += 1;
        }
        proof {
            assert(self.entries@.take(n as int) =~= self.entries@);
            lemma_select_increasing(self@, heap);
            assert forall|p: u16|
                bits@.contains(p) <==> self@.contains(
                    MemoryTypeDescriptor { heap_index: heap, properties: p },
                ) by {
                lemma_select_members(self@, heap, p);
            }
        }
        bits
    }
}

/// The distinct memory types among `types`, in ascending order.
pub fn group_memory_types(types: &Vec<MemoryTypeDescriptor>) -> (set: MemoryTypeSet)
    ensures
        set.wf(),
        forall|x: MemoryTypeDescriptor| set@.contains(x) <==> types@.contains(x),
{
    let mut set = MemoryTypeSet::new();
    let n = types.len();
    let mut i: usize = 0;
    while i < n
        invariant
            i <= n,
            n == types.len(),
            set.wf(),
            forall|x: MemoryTypeDescriptor| set@.contains(x) <==> types@.take(i as int).contains(x),
        decreases n - i,
    {
        let ghost before = set@;
        set.insert(types[i]);
        proof {
            let head = types@.take(i as int);
            let next = types@.take(i + 1);
            assert forall|x: MemoryTypeDescriptor| set@.contains(x) <==> next.contains(x) by {
                if head.contains(x) {
                    let k = choose|k: int| 0 <= k < head.len() && head[k] == x;
                    assert(next[k] == x);
                }
                if x == types[i as int] {
                    assert(next[i as int] == x);
                }
                if next.contains(x) {
                    let k = choose|k: int| 0 <= k < next.len() && next[k] == x;
                    if k < i {
                        assert(head[k] == x);
                    }
                }
            }
        }
        i += 1;
    }
    assert(types@.take(n as int) =~= types@);
    set
}

/// The distinct property sets of the memory types of `heap`, each once, in
/// ascending order of their bits, however often `types` repeats them.
pub fn heap_configurations(types: &Vec<MemoryTypeDescriptor>, heap: usize) -> (bits: Vec<u16>)
    ensures
        increasing(bits@),
        bits@.no_duplicates(),
        forall|p: u16|
            bits@.contains(p) <==> types@.contains(
                MemoryTypeDescriptor { heap_index: heap, properties: p },
            ),
{
    let set = group_memory_types(types);
    set.properties_of(heap)
}

} // verus!
