use vstd::prelude::*;
use vstd::set_lib::{set_int_range, lemma_int_range, lemma_len_subset};
use crate::vm::trace::{id_set, refers_to, reaches, is_chain, chain_step, lemma_reaches_start, lemma_reaches_step, lemma_closed_holds_reached};

verus! {

/// Configuration for the garbage collector, with preset defaults
/// tuned for different target platforms.
#[derive(Debug, Clone)]
pub struct GCConfig {
    /// Initial capacity of backing vectors (objects, marks, etc.)
    pub initial_capacity: usize,
    /// Initial GC threshold (alloc_count > this triggers collection)
    pub initial_threshold: usize,
    /// Maximum GC threshold after dynamic adjustment
    pub max_threshold: usize,
    /// Optional hard cap on total heap objects
    pub max_objects: Option<usize>,
}

impl GCConfig {
    /// Aggressive defaults for ESP32 (~320KB heap budget).
    pub fn for_esp32() -> (c: Self)
        ensures
            c.initial_capacity == 128,
            c.initial_threshold == 256,
            c.max_threshold == 1024,
            c.max_objects == Some(2048usize),
    {
        GCConfig {
            initial_capacity: 128,
            initial_threshold: 256,
            max_threshold: 1024,
            max_objects: Some(2048),
        }
    }

    /// Generous defaults for desktop / server targets.
    pub fn for_desktop() -> (c: Self)
        ensures
            c.initial_capacity == 1024,
            c.initial_threshold == 10000,
            c.max_threshold == 100000,
            c.max_objects == None::<usize>,
    {
        GCConfig {
            initial_capacity: 1024,
            initial_threshold: 10000,
            max_threshold: 100000,
            max_objects: None,
        }
    }

    /// Balanced defaults for WASM (browser/edge memory limits).
    pub fn for_wasm() -> (c: Self)
        ensures
            c.initial_capacity == 512,
            c.initial_threshold == 2000,
            c.max_threshold == 20000,
            c.max_objects == Some(50000usize),
    {
        GCConfig {
            initial_capacity: 512,
            initial_threshold: 2000,
            max_threshold: 20000,
            max_objects: Some(50000),
        }
    }
}

impl Default for GCConfig {
    /// The desktop preset, the default of every target but the ESP32.
    fn default() -> (c: Self)
        ensures
            c.initial_capacity == 1024,
            c.initial_threshold == 10000,
            c.max_threshold == 100000,
            c.max_objects == None::<usize>,
    {
        GCConfig::for_desktop()
    }
}

/// Index of a slot of the heap.
pub type GcId = usize;

/// A generational mark-and-sweep heap of objects of type `T`.
///
/// Slots are reused through a free list; objects allocated since the last
/// collection are young, survivors of a collection are old. An old object
/// handed out for mutation is recorded in the remembered set (the write
/// barrier), so that a minor collection, which traces young objects only,
/// also sees the young objects that old ones may now point to.
pub struct Heap<T> {
    objects: Vec<Option<T>>,
    marks: Vec<bool>,
    free_list: Vec<GcId>,
    alloc_count: usize,
    next_gc_threshold: usize,
    generations: Vec<u8>,
    dirty: Vec<bool>,
    remembered_set: Vec<GcId>,
    young_objects: Vec<GcId>,
    minor_gc_count: usize,
    config: GCConfig,
}

/// No id occurs twice in `s`.
pub open spec fn distinct_ids(s: Seq<GcId>) -> bool {
    forall|j: int, k: int| 0 <= j < k < s.len() ==> s[j] != s[k]
}

/// Slot `i` holds an object.
pub open spec fn is_live<T>(objs: Seq<Option<T>>, i: int) -> bool {
    0 <= i < objs.len() && objs[i] is Some
}

/// The free list holds distinct empty slots; the young list holds exactly
/// the live objects of generation 0, once each; the remembered set holds
/// live old objects, among them every slot flagged dirty.
pub open spec fn books_agree<T>(
    objs: Seq<Option<T>>,
    free: Seq<GcId>,
    young: Seq<GcId>,
    rem: Seq<GcId>,
    gens: Seq<u8>,
    dirty: Seq<bool>,
) -> bool {
    let n = objs.len();
    &&& gens.len() == n
    &&& dirty.len() == n
    &&& distinct_ids(free)
    &&& forall|k: int| 0 <= k < free.len() ==> #[trigger] free[k] < n && objs[free[k] as int] is None
    &&& distinct_ids(young)
    &&& forall|k: int| 0 <= k < young.len() ==>
        is_live(objs, #[trigger] young[k] as int) && gens[young[k] as int] == 0
    &&& forall|i: int| is_live(objs, i) && #[trigger] gens[i] == 0 ==> young.contains(i as GcId)
    &&& forall|k: int| 0 <= k < rem.len() ==>
        is_live(objs, #[trigger] rem[k] as int) && gens[rem[k] as int] != 0
    &&& forall|i: int| 0 <= i < n && #[trigger] dirty[i] ==> rem.contains(i as GcId)
}

/// Replacing the object in a live slot keeps the books in agreement.
proof fn lemma_books_replace<T>(
    objs: Seq<Option<T>>,
    free: Seq<GcId>,
    young: Seq<GcId>,
    rem: Seq<GcId>,
    gens: Seq<u8>,
    dirty: Seq<bool>,
    id: int,
    x: T,
)
    requires
        books_agree(objs, free, young, rem, gens, dirty),
        is_live(objs, id),
    ensures
        books_agree(objs.update(id, Some(x)), free, young, rem, gens, dirty),
{
    let objs2 = objs.update(id, Some(x));
    assert forall|i: int| is_live(objs2, i) <==> is_live(objs, i) by {}
    assert forall|k: int| 0 <= k < free.len() implies #[trigger] free[k] < objs2.len()
        && objs2[free[k] as int] is None by {
        assert(objs[free[k] as int] is None);
    }
}

impl<T> Heap<T> {
    /// The slots: `Some` for an allocated object, `None` for a free slot.
    pub closed spec fn slots(&self) -> Seq<Option<T>> {
        self.objects@
    }

    /// The free slots, in the order in which they were freed.
    pub closed spec fn free_slots(&self) -> Seq<GcId> {
        self.free_list@
    }

    /// The objects allocated since the last collection, in allocation order.
    pub closed spec fn young_ids(&self) -> Seq<GcId> {
        self.young_objects@
    }

    /// The old objects mutated since the last collection.
    pub closed spec fn remembered(&self) -> Seq<GcId> {
        self.remembered_set@
    }

    /// The generation of each slot: 0 for young, 1 for old.
    pub closed spec fn generations(&self) -> Seq<u8> {
        self.generations@
    }

    /// Which slots the write barrier has already recorded.
    pub closed spec fn dirty_flags(&self) -> Seq<bool> {
        self.dirty@
    }

    /// Allocations since the last collection.
    pub closed spec fn allocations(&self) -> usize {
        self.alloc_count
    }

    /// The allocation count above which a collection is due.
    pub closed spec fn threshold(&self) -> usize {
        self.next_gc_threshold
    }

    /// Minor collections since the last major one.
    pub closed spec fn minor_collections(&self) -> usize {
        self.minor_gc_count
    }

    /// The configuration the heap was made with.
    pub closed spec fn settings(&self) -> GCConfig {
        self.config
    }

    /// The heap's bookkeeping agrees with its slots.
    pub closed spec fn wf(&self) -> bool {
        &&& self.objects@.len() <= usize::MAX
        &&& self.marks@.len() == self.objects@.len()
        &&& self.minor_gc_count < 8
        &&& books_agree(
            self.objects@,
            self.free_list@,
            self.young_objects@,
            self.remembered_set@,
            self.generations@,
            self.dirty@,
        )
    }

    /// An empty heap with the default configuration.
    pub fn new() -> (h: Self)
        ensures
            h.wf(),
            h.slots().len() == 0,
            h.free_slots().len() == 0,
            h.young_ids().len() == 0,
            h.remembered().len() == 0,
            h.allocations() == 0,
            h.minor_collections() == 0,
            h.threshold() == 10000,
            h.settings().initial_capacity == 1024,
            h.settings().initial_threshold == 10000,
            h.settings().max_threshold == 100000,
            h.settings().max_objects == None::<usize>,
    {
        Self::with_config(GCConfig::default())
    }

    /// An empty heap whose first collection is due after
    /// `config.initial_threshold` allocations.
    pub fn with_config(config: GCConfig) -> (h: Self)
        ensures
            h.wf(),
            h.slots().len() == 0,
            h.free_slots().len() == 0,
            h.young_ids().len() == 0,
            h.remembered().len() == 0,
            h.allocations() == 0,
            h.minor_collections() == 0,
            h.threshold() == config.initial_threshold,
            h.settings() == config,
    {
        let cap = config.initial_capacity;
        let threshold = config.initial_threshold;
        Heap {
            objects: Vec::with_capacity(cap),
            marks: Vec::with_capacity(cap),
            free_list: Vec::new(),
            alloc_count: 0,
            next_gc_threshold: threshold,
            generations: Vec::with_capacity(cap),
            dirty: Vec::with_capacity(cap),
            remembered_set: Vec::new(),
            young_objects: Vec::new(),
            minor_gc_count: 0,
            config,
        }
    }
}

impl<T> Heap<T> {
    /// `new` is this heap after one more allocation was counted, with
    /// nothing else changed.
    pub open spec fn counted_only(&self, new: &Self) -> bool {
        &&& new.slots() == self.slots()
        &&& new.free_slots() == self.free_slots()
        &&& new.young_ids() == self.young_ids()
        &&& new.remembered() == self.remembered()
        &&& new.generations() == self.generations()
        &&& new.dirty_flags() == self.dirty_flags()
        &&& new.allocations() == self.allocations() + 1
        &&& new.threshold() == self.threshold()
        &&& new.minor_collections() == self.minor_collections()
        &&& new.settings() == self.settings()
    }

    /// The slot the next allocation takes: the most recently freed one,
    /// else a new slot after the last.
    pub open spec fn next_slot(&self) -> GcId {
        if self.free_slots().len() > 0 {
            self.free_slots().last()
        } else {
            self.slots().len() as GcId
        }
    }

    /// `new` is this heap after `obj` was stored in `self.next_slot()` as a
    /// young, clean object and the allocation was counted.
    pub open spec fn stored(&self, new: &Self, obj: T) -> bool {
        let id = self.next_slot();
        let reuse = self.free_slots().len() > 0;
        &&& new.slots() == (if reuse {
            self.slots().update(id as int, Some(obj))
        } else {
            self.slots().push(Some(obj))
        })
        &&& new.free_slots() == (if reuse {
            self.free_slots().drop_last()
        } else {
            self.free_slots()
        })
        &&& new.generations() == (if reuse {
            self.generations().update(id as int, 0u8)
        } else {
            self.generations().push(0u8)
        })
        &&& new.dirty_flags() == (if reuse {
            self.dirty_flags().update(id as int, false)
        } else {
            self.dirty_flags().push(false)
        })
        &&& new.young_ids() == self.young_ids().push(id)
        &&& new.remembered() == self.remembered()
        &&& new.allocations() == self.allocations() + 1
        &&& new.threshold() == self.threshold()
        &&& new.minor_collections() == self.minor_collections()
        &&& new.settings() == self.settings()
    }

    /// The hard cap on the number of slots has been reached.
    pub open spec fn at_capacity(&self) -> bool {
        match self.settings().max_objects {
            Some(max) => self.slots().len() >= max,
            None => false,
        }
    }

    /// Stores `obj` in the most recently freed slot, or in a new slot at the
    /// end, and returns its id. The object starts young.
    pub fn allocate(&mut self, obj: T) -> (id: GcId)
        requires
            old(self).wf(),
            old(self).allocations() < usize::MAX,
        ensures
            final(self).wf(),
            id == old(self).next_slot(),
            old(self).stored(final(self), obj),
    {
        self.alloc_count = self.alloc_count + 1;
        self.store(obj)
    }

    /// Like `allocate`, but gives `None` instead of growing past
    /// `max_objects` slots or when the slot vectors cannot grow. A freed
    /// slot is always reused.
    pub fn try_alloc(&mut self, obj: T) -> (r: Option<GcId>)
        requires
            old(self).wf(),
            old(self).allocations() < usize::MAX,
        ensures
            final(self).wf(),
            old(self).free_slots().len() > 0 ==> r == Some(old(self).next_slot()),
            old(self).free_slots().len() == 0 && old(self).at_capacity() ==> r is None,
            match r {
                Some(id) => id == old(self).next_slot() && old(self).stored(final(self), obj),
                None => old(self).counted_only(final(self)),
            },
            match old(self).settings().max_objects {
                Some(max) => old(self).slots().len() <= max ==> final(self).slots().len() <= max,
                None => true,
            },
    {
        self.alloc_count = self.alloc_count + 1;
        if self.free_list.len() == 0 {
            match self.config.max_objects {
                Some(max) => {
                    if self.objects.len() >= max {
                        return None;
                    }
                },
                None => {},
            }
            if self.objects.try_reserve(1).is_err() {
                return None;
            }
            if self.marks.try_reserve(1).is_err() {
                return None;
            }
            if self.generations.try_reserve(1).is_err() {
                return None;
            }
            if self.dirty.try_reserve(1).is_err() {
                return None;
            }
        }
        Some(self.store(obj))
    }

    /// Stores `obj` as `allocate` does, without counting the allocation.
    fn store(&mut self, obj: T) -> (id: GcId)
        requires
            old(self).wf(),
        ensures
            final(self).wf(),
            id == old(self).next_slot(),
            final(self).slots() == (if old(self).free_slots().len() > 0 {
                old(self).slots().update(id as int, Some(obj))
            } else {
                old(self).slots().push(Some(obj))
            }),
            final(self).free_slots() == (if old(self).free_slots().len() > 0 {
                old(self).free_slots().drop_last()
            } else {
                old(self).free_slots()
            }),
            final(self).generations() == (if old(self).free_slots().len() > 0 {
                old(self).generations().update(id as int, 0u8)
            } else {
                old(self).generations().push(0u8)
            }),
            final(self).dirty_flags() == (if old(self).free_slots().len() > 0 {
                old(self).dirty_flags().update(id as int, false)
            } else {
                old(self).dirty_flags().push(false)
            }),
            final(self).young_ids() == old(self).young_ids().push(id),
            final(self).remembered() == old(self).remembered(),
            final(self).allocations() == old(self).allocations(),
            final(self).threshold() == old(self).threshold(),
            final(self).minor_collections() == old(self).minor_collections(),
            final(self).settings() == old(self).settings(),
    {
        let ghost objs0 = self.objects@;
        let ghost young0 = self.young_objects@;
        let ghost free0 = self.free_list@;
        let ghost gens0 = self.generations@;
        match self.free_list.pop() {
            Some(id) => {
                assert(id == free0[free0.len() - 1]);
                assert(objs0[id as int] is None);
                assert forall|k: int| 0 <= k < young0.len() implies young0[k] != id by {
                    assert(is_live(objs0, young0[k] as int));
                }
                self.objects.set(id, Some(obj));
                self.marks.set(id, false);
                self.generations.set(id, 0);
                self.dirty.set(id, false);
                self.young_objects.push(id);
                proof {
                    assert forall|k: int| 0 <= k < self.free_list@.len() implies
                        #[trigger] self.free_list@[k] < self.objects@.len()
                        && self.objects@[self.free_list@[k] as int] is None by {
                        assert(free0[k] != free0[free0.len() - 1]);
                    }
                    assert forall|i: int| is_live(self.objects@, i) && #[trigger] self.generations@[i] == 0
                        implies self.young_objects@.contains(i as GcId) by {
                        if i == id {
                            assert(self.young_objects@[self.young_objects@.len() - 1] == id);
                        } else {
                            assert(young0.contains(i as GcId));
                            let k = choose|k: int| 0 <= k < young0.len() && young0[k] == i as GcId;
                            assert(self.young_objects@[k] == i as GcId);
                        }
                    }
                    assert forall|i: int| 0 <= i < self.objects@.len() && #[trigger] self.dirty@[i]
                        implies self.remembered_set@.contains(i as GcId) by {
                        assert(i != id);
                    }
                }
                id
            },
            None => {
                let id = self.objects.len();
                assert forall|k: int| 0 <= k < young0.len() implies young0[k] != id by {
                    assert(is_live(objs0, young0[k] as int));
                }
                self.objects.push(Some(obj));
                self.marks.push(false);
                self.generations.push(0);
                self.dirty.push(false);
                self.young_objects.push(id);
                proof {
                    assert(self.objects@.len() == self.objects.len());
                    assert forall|i: int| is_live(self.objects@, i) && #[trigger] self.generations@[i] == 0
                        implies self.young_objects@.contains(i as GcId) by {
                        if i == id {
                            assert(self.young_objects@[self.young_objects@.len() - 1] == id);
                        } else {
                            assert(gens0[i] == 0);
                            assert(young0.contains(i as GcId));
                            let k = choose|k: int| 0 <= k < young0.len() && young0[k] == i as GcId;
                            assert(self.young_objects@[k] == i as GcId);
                        }
                    }
                    assert forall|i: int| 0 <= i < self.objects@.len() && #[trigger] self.dirty@[i]
                        implies self.remembered_set@.contains(i as GcId) by {
                        assert(i != id);
                    }
                }
                id
            },
        }
    }
}

impl<T> Heap<T> {
    /// The object in slot `id`, which must hold one.
    pub fn get(&self, id: GcId) -> (r: &T)
        requires
            is_live(self.slots(), id as int),
        ensures
            self.slots()[id as int] == Some(*r),
    {
        self.objects[id].as_ref().unwrap()
    }

    /// The object in slot `id`, if the slot exists and holds one.
    pub fn get_opt(&self, id: GcId) -> (r: Option<&T>)
        ensures
            r == (if is_live(self.slots(), id as int) {
                Some(&self.slots()[id as int]->Some_0)
            } else {
                None
            }),
    {
        if id < self.objects.len() {
            self.objects[id].as_ref()
        } else {
            None
        }
    }

    /// Hands out the object in slot `id` for mutation. The first time an
    /// old object is handed out after a collection, it is recorded in the
    /// remembered set.
    pub fn get_mut(&mut self, id: GcId) -> (r: &mut T)
        requires
            old(self).wf(),
            is_live(old(self).slots(), id as int),
        ensures
            final(self).wf(),
            Some(*r) == old(self).slots()[id as int],
            final(self).slots() == old(self).slots().update(id as int, Some(*final(r))),
            (if old(self).generations()[id as int] != 0 && !old(self).dirty_flags()[id as int] {
                &&& final(self).remembered() == old(self).remembered().push(id)
                &&& final(self).dirty_flags() == old(self).dirty_flags().update(id as int, true)
            } else {
                &&& final(self).remembered() == old(self).remembered()
                &&& final(self).dirty_flags() == old(self).dirty_flags()
            }),
            old(self).generations()[id as int] != 0 ==> final(self).remembered().contains(id),
            final(self).free_slots() == old(self).free_slots(),
            final(self).young_ids() == old(self).young_ids(),
            final(self).generations() == old(self).generations(),
            final(self).allocations() == old(self).allocations(),
            final(self).threshold() == old(self).threshold(),
            final(self).minor_collections() == old(self).minor_collections(),
            final(self).settings() == old(self).settings(),
    {
        if self.generations[id] > 0 && !self.dirty[id] {
            let ghost rem0 = self.remembered_set@;
            assert(self.remembered_set@.push(id)[rem0.len() as int] == id);
            self.dirty.set(id, true);
            self.remembered_set.push(id);
            proof {
                assert forall|i: int| 0 <= i < self.objects@.len() && #[trigger] self.dirty@[i]
                    implies self.remembered_set@.contains(i as GcId) by {
                    if i == id {
                        assert(self.remembered_set@[rem0.len() as int] == id);
                    } else {
                        let k = choose|k: int| 0 <= k < rem0.len() && rem0[k] == i as GcId;
                        assert(self.remembered_set@[k] == i as GcId);
                    }
                }
            }
        }
        proof {
            assert forall|x: T| books_agree(
                #[trigger] self.objects@.update(id as int, Some(x)),
                self.free_list@,
                self.young_objects@,
                self.remembered_set@,
                self.generations@,
                self.dirty@,
            ) by {
                lemma_books_replace(
                    self.objects@,
                    self.free_list@,
                    self.young_objects@,
                    self.remembered_set@,
                    self.generations@,
                    self.dirty@,
                    id as int,
                    x,
                );
            }
        }
        self.objects[id].as_mut().unwrap()
    }

    /// More allocations than the threshold have happened since the last
    /// collection.
    pub fn should_collect(&self) -> (r: bool)
        ensures
            r == (self.allocations() > self.threshold()),
    {
        self.alloc_count > self.next_gc_threshold
    }

    /// The allocation count above which a collection is due.
    pub fn gc_threshold(&self) -> (r: usize)
        ensures
            r == self.threshold(),
    {
        self.next_gc_threshold
    }
}

/// The slots a collection traces: live ones, and for a minor collection
/// only those of generation 0.
pub open spec fn traced_set<T>(objs: Seq<Option<T>>, gens: Seq<u8>, young_only: bool) -> Set<int> {
    Set::new(|i: int| is_live(objs, i) && (!young_only || gens[i] == 0))
}

/// `s.push(a)` holds nothing but `a` and what `s` holds.
proof fn lemma_push_contains(s: Seq<GcId>, a: GcId, y: GcId)
    requires
        s.push(a).contains(y),
    ensures
        y == a || s.contains(y),
{
    let k = choose|k: int| 0 <= k < s.push(a).len() && s.push(a)[k] == y;
    if k < s.len() {
        assert(s[k] == y);
    }
}

/// The mark phase: starting from `worklist`, which holds every traced
/// start, marks every traced slot that a chain of references through traced
/// slots leads to from a start, and nothing else among the traced slots.
fn mark<T>(
    marks: &mut Vec<bool>,
    objects: &Vec<Option<T>>,
    generations: &Vec<u8>,
    children: &Vec<Vec<GcId>>,
    young_only: bool,
    worklist: Vec<GcId>,
    Ghost(starts): Ghost<Set<int>>,
)
    requires
        old(marks)@.len() == objects@.len(),
        generations@.len() == objects@.len(),
        children@.len() == objects@.len(),
        forall|i: int| #[trigger] traced_set(objects@, generations@, young_only).contains(i)
            ==> !old(marks)@[i],
        forall|k: int| 0 <= k < worklist@.len() ==>
            traced_set(objects@, generations@, young_only).contains(#[trigger] worklist@[k] as int)
            && starts.contains(worklist@[k] as int),
        forall|x: int| starts.contains(x) && traced_set(objects@, generations@, young_only).contains(x)
            ==> worklist@.contains(x as GcId),
    ensures
        final(marks)@.len() == objects@.len(),
        forall|i: int| 0 <= i < objects@.len() ==> #[trigger] final(marks)@[i] == (
            if traced_set(objects@, generations@, young_only).contains(i) {
                reaches(traced_set(objects@, generations@, young_only), children@, starts, i)
            } else {
                old(marks)@[i]
            }),
{
    let ghost nodes = traced_set(objects@, generations@, young_only);
    let len = objects.len();
    let ghost n = len as int;
    let ghost marks0 = marks@;
    let ghost mut ms: Set<int> = Set::empty();
    proof {
        lemma_int_range(0, n);
        assert forall|k: int| 0 <= k < worklist@.len() implies
            reaches(nodes, children@, starts, #[trigger] worklist@[k] as int) by {
            lemma_reaches_start(nodes, children@, starts, worklist@[k] as int);
        }
    }
    let mut wl = worklist;
    while wl.len() > 0
        invariant
            n <= usize::MAX,
            marks@.len() == n,
            objects@.len() == n,
            generations@.len() == n,
            children@.len() == n,
            nodes == traced_set(objects@, generations@, young_only),
            set_int_range(0, n).finite(),
            set_int_range(0, n).len() == n,
            ms.subset_of(set_int_range(0, n)),
            forall|i: int| 0 <= i < n ==> #[trigger] marks@[i] == (
                if nodes.contains(i) { ms.contains(i) } else { marks0[i] }),
            forall|i: int| #[trigger] ms.contains(i) ==>
                nodes.contains(i) && reaches(nodes, children@, starts, i),
            forall|k: int| 0 <= k < wl@.len() ==>
                nodes.contains(#[trigger] wl@[k] as int)
                && reaches(nodes, children@, starts, wl@[k] as int),
            forall|x: int, y: int| ms.contains(x) && nodes.contains(y) && #[trigger] refers_to(children@, x, y)
                ==> ms.contains(y) || wl@.contains(y as GcId),
            forall|x: int| starts.contains(x) && nodes.contains(x)
                ==> ms.contains(x) || wl@.contains(x as GcId),
        decreases n - ms.len(), wl.len(),
    {
        let ghost wl0 = wl@;
        let id = wl.pop().unwrap();
        proof {
            assert(wl0 == wl@.push(id));
            assert(nodes.contains(id as int));
            assert forall|y: GcId| #[trigger] wl0.contains(y) implies y == id || wl@.contains(y) by {
                lemma_push_contains(wl@, id, y);
            }
            assert forall|k: int| 0 <= k < wl@.len() implies
                nodes.contains(#[trigger] wl@[k] as int)
                && reaches(nodes, children@, starts, wl@[k] as int) by {
                assert(wl0[k] == wl@[k]);
            }
        }
        if marks[id] {
            proof {
                assert(ms.contains(id as int));
                assert forall|x: int, y: int| ms.contains(x) && nodes.contains(y) && #[trigger] refers_to(children@, x, y)
                    implies ms.contains(y) || wl@.contains(y as GcId) by {
                    assert(is_live(objects@, y));
                    assert((y as GcId) as int == y);
                    if !ms.contains(y) {
                        assert(wl0.contains(y as GcId));
                        assert(y as GcId != id);
                    }
                }
                assert forall|x: int| starts.contains(x) && nodes.contains(x)
                    implies ms.contains(x) || wl@.contains(x as GcId) by {
                    assert(is_live(objects@, x));
                    assert((x as GcId) as int == x);
                    if !ms.contains(x) {
                        assert(wl0.contains(x as GcId));
                        assert(x as GcId != id);
                    }
                }
            }
            continue;
        }
        marks.set(id, true);
        proof {
            lemma_len_subset(ms.insert(id as int), set_int_range(0, n));
            ms = ms.insert(id as int);
        }
        let refs = &children[id];
        let ghost wl1 = wl@;
        let mut j: usize = 0;
        while j < refs.len()
            invariant
                marks@.len() == n,
                objects@.len() == n,
                generations@.len() == n,
                children@.len() == n,
                nodes == traced_set(objects@, generations@, young_only),
                set_int_range(0, n).finite(),
                set_int_range(0, n).len() == n,
                ms.subset_of(set_int_range(0, n)),
                ms.finite(),
                ms.contains(id as int),
                refs@ == children@[id as int]@,
                0 <= id < n,
                j <= refs@.len(),
                forall|i: int| 0 <= i < n ==> #[trigger] marks@[i] == (
                    if nodes.contains(i) { ms.contains(i) } else { marks0[i] }),
                forall|i: int| #[trigger] ms.contains(i) ==>
                    nodes.contains(i) && reaches(nodes, children@, starts, i),
                forall|k: int| 0 <= k < wl@.len() ==>
                    nodes.contains(#[trigger] wl@[k] as int)
                    && reaches(nodes, children@, starts, wl@[k] as int),
                forall|y: GcId| #[trigger] wl1.contains(y) ==> wl@.contains(y),
                forall|jj: int| 0 <= jj < j && nodes.contains(#[trigger] refs@[jj] as int)
                    ==> wl@.contains(refs@[jj]),
            decreases refs.len() - j,
        {
            let c = refs[j];
            let ghost wl2 = wl@;
            if c < objects.len() && objects[c].is_some() && (!young_only || generations[c] == 0) {
                proof {
                    assert(nodes.contains(c as int));
                    assert(refers_to(children@, id as int, c as int)) by {
                        assert(children@[id as int]@[j as int] == c);
                    }
                    lemma_reaches_step(nodes, children@, starts, id as int, c as int);
                }
                wl.push(c);
                proof {
                    assert(wl@[wl2.len() as int] == c);
                    assert forall|y: GcId| #[trigger] wl1.contains(y) implies wl@.contains(y) by {
                        let k = choose|k: int| 0 <= k < wl2.len() && wl2[k] == y;
                        assert(wl@[k] == y);
                    }
                    assert forall|jj: int| 0 <= jj < j + 1 && nodes.contains(#[trigger] refs@[jj] as int)
                        implies wl@.contains(refs@[jj]) by {
                        if jj < j {
                            let k = choose|k: int| 0 <= k < wl2.len() && wl2[k] == refs@[jj];
                            assert(wl@[k] == refs@[jj]);
                        }
                    }
                }
            }
            j = j + 1;
        }
        proof {
            assert forall|x: int, y: int| ms.contains(x) && nodes.contains(y) && #[trigger] refers_to(children@, x, y)
                implies ms.contains(y) || wl@.contains(y as GcId) by {
                if x == id as int {
                    let jj = choose|jj: int| 0 <= jj < refs@.len() && refs@[jj] == y as GcId;
                    assert(nodes.contains(refs@[jj] as int));
                } else if !ms.contains(y) {
                    assert(wl0.contains(y as GcId));
                }
            }
            assert forall|x: int| starts.contains(x) && nodes.contains(x)
                implies ms.contains(x) || wl@.contains(x as GcId) by {
                if !ms.contains(x) {
                    assert(wl0.contains(x as GcId));
                }
            }
        }
    }
    proof {
        assert forall|i: int| 0 <= i < n implies #[trigger] marks@[i] == (
            if nodes.contains(i) { reaches(nodes, children@, starts, i) } else { marks0[i] }) by {
            if nodes.contains(i) && reaches(nodes, children@, starts, i) {
                lemma_closed_holds_reached(nodes, children@, starts, ms, i);
            }
        }
    }
}

/// The ids `0 .. n`, in increasing order.
pub open spec fn all_ids(n: nat) -> Seq<GcId> {
    Seq::new(n, |i: int| i as GcId)
}

/// A full collection frees slot `i`: it is live, and no chain of references
/// through live slots leads to it from a root.
pub open spec fn swept_in_full<T>(
    objs: Seq<Option<T>>,
    gens: Seq<u8>,
    roots: Seq<GcId>,
    children: Seq<Vec<GcId>>,
    i: int,
) -> bool {
    is_live(objs, i) && !reaches(traced_set(objs, gens, false), children, id_set(roots), i)
}

/// `swept_in_full` as a predicate on ids.
pub open spec fn full_sweep<T>(
    objs: Seq<Option<T>>,
    gens: Seq<u8>,
    roots: Seq<GcId>,
    children: Seq<Vec<GcId>>,
) -> spec_fn(GcId) -> bool {
    |id: GcId| swept_in_full(objs, gens, roots, children, id as int)
}

/// Appending to a sequence appends to its filtered form exactly when the
/// new element passes.
pub proof fn lemma_filter_push<A>(s: Seq<A>, x: A, pred: spec_fn(A) -> bool)
    ensures
        s.push(x).filter(pred) == (if pred(x) {
            s.filter(pred).push(x)
        } else {
            s.filter(pred)
        }),
{
    reveal(Seq::filter);
    assert(s.push(x).drop_last() =~= s);
}

impl<T> Heap<T> {
    /// `new` is this heap after a full collection from `roots`, where
    /// `children[i]` lists the slots that the object in slot `i` refers to:
    /// every live slot that no chain of references leads to from a root is
    /// emptied and appended to the free list in increasing order, every
    /// surviving object becomes old, and the young list, the remembered set
    /// and the dirty flags are cleared.
    pub open spec fn fully_collected(&self, new: &Self, roots: Seq<GcId>, children: Seq<Vec<GcId>>) -> bool {
        let objs = self.slots();
        let gens = self.generations();
        let n = objs.len();
        &&& new.slots() == Seq::new(n, |i: int|
            if swept_in_full(objs, gens, roots, children, i) { None } else { objs[i] })
        &&& new.generations() == Seq::new(n, |i: int|
            if is_live(objs, i) && !swept_in_full(objs, gens, roots, children, i) { 1u8 } else { gens[i] })
        &&& new.free_slots() == self.free_slots() + all_ids(n).filter(full_sweep(objs, gens, roots, children))
        &&& new.young_ids() == Seq::<GcId>::empty()
        &&& new.remembered() == Seq::<GcId>::empty()
        &&& new.dirty_flags() == Seq::new(n, |i: int| false)
    }

    /// Full mark and sweep of the whole heap.
    fn major_collect(&mut self, roots: &Vec<GcId>, children: &Vec<Vec<GcId>>)
        requires
            old(self).wf(),
            children@.len() == old(self).slots().len(),
        ensures
            final(self).wf(),
            old(self).fully_collected(final(self), roots@, children@),
            final(self).allocations() == old(self).allocations(),
            final(self).threshold() == old(self).threshold(),
            final(self).minor_collections() == old(self).minor_collections(),
            final(self).settings() == old(self).settings(),
    {
        let ghost objs0 = self.objects@;
        let ghost gens0 = self.generations@;
        let ghost free0 = self.free_list@;
        let ghost nodes = traced_set(objs0, gens0, false);
        let ghost pred = full_sweep(objs0, gens0, roots@, children@);
        let ghost h0: Heap<T> = *self;
        let n = self.objects.len();
        let mut i: usize = 0;
        while i < n
            invariant
                i <= n,
                n == self.objects@.len(),
                self.marks@.len() == n,
                self.objects@ == objs0,
                self.generations@ == gens0,
                self.free_list@ == free0,
                self.dirty@ == h0.dirty@,
                self.young_objects@ == h0.young_objects@,
                self.remembered_set@ == h0.remembered_set@,
                self.alloc_count == h0.alloc_count,
                self.next_gc_threshold == h0.next_gc_threshold,
                self.minor_gc_count == h0.minor_gc_count,
                self.config == h0.config,
                forall|k: int| 0 <= k < i ==> !#[trigger] self.marks@[k],
            decreases n - i,
        {
            self.marks.set(i, false);
            i = i + 1;
        }
        let mut worklist: Vec<GcId> = Vec::new();
        let mut r: usize = 0;
        while r < roots.len()
            invariant
                r <= roots@.len(),
                n == objs0.len(),
                self.objects@ == objs0,
                self.generations@ == gens0,
                nodes == traced_set(objs0, gens0, false),
                forall|k: int| 0 <= k < worklist@.len() ==>
                    nodes.contains(#[trigger] worklist@[k] as int) && id_set(roots@).contains(worklist@[k] as int),
                forall|k: int| 0 <= k < r && nodes.contains(#[trigger] roots@[k] as int)
                    ==> worklist@.contains(roots@[k]),
            decreases roots@.len() - r,
        {
            let id = roots[r];
            let ghost w0 = worklist@;
            if id < n && self.objects[id].is_some() {
                worklist.push(id);
                proof {
                    assert(id_set(roots@).contains(id as int)) by {
                        assert(roots@[r as int] as int == id as int);
                    }
                    assert(worklist@[w0.len() as int] == id);
                    assert forall|k: int| 0 <= k < r + 1 && nodes.contains(#[trigger] roots@[k] as int)
                        implies worklist@.contains(roots@[k]) by {
                        if k < r {
                            let j = choose|j: int| 0 <= j < w0.len() && w0[j] == roots@[k];
                            assert(worklist@[j] == roots@[k]);
                        }
                    }
                }
            }
            r = r + 1;
        }
        proof {
            assert forall|x: int| id_set(roots@).contains(x) && nodes.contains(x)
                implies worklist@.contains(x as GcId) by {
                let k = choose|k: int| 0 <= k < roots@.len() && roots@[k] as int == x;
                assert(nodes.contains(roots@[k] as int));
            }
        }
        mark(&mut self.marks, &self.objects, &self.generations, children, false, worklist, Ghost(id_set(roots@)));
        proof {
            assert(self.free_list@ == free0);
            assert(distinct_ids(free0));
            reveal(Seq::filter);
            assert(all_ids(0).filter(pred) =~= Seq::<GcId>::empty());
            assert(free0 + all_ids(0).filter(pred) =~= free0);
        }
        let mut i: usize = 0;
        while i < n
            invariant
                i <= n,
                n == objs0.len(),
                self.objects@.len() == n,
                self.generations@.len() == n,
                self.marks@.len() == n,
                nodes == traced_set(objs0, gens0, false),
                pred == full_sweep(objs0, gens0, roots@, children@),
                forall|k: int| 0 <= k < n ==> #[trigger] self.marks@[k] == (
                    if nodes.contains(k) { reaches(nodes, children@, id_set(roots@), k) } else { false }),
                forall|k: int| 0 <= k < n ==> #[trigger] self.objects@[k] == (
                    if k < i && swept_in_full(objs0, gens0, roots@, children@, k) { None } else { objs0[k] }),
                forall|k: int| 0 <= k < n ==> #[trigger] self.generations@[k] == (
                    if k < i && is_live(objs0, k) && !swept_in_full(objs0, gens0, roots@, children@, k) {
                        1u8
                    } else {
                        gens0[k]
                    }),
                self.free_list@ == free0 + all_ids(i as nat).filter(pred),
                self.dirty@ == h0.dirty@,
                self.alloc_count == h0.alloc_count,
                self.next_gc_threshold == h0.next_gc_threshold,
                self.minor_gc_count == h0.minor_gc_count,
                self.config == h0.config,
                distinct_ids(self.free_list@),
                forall|k: int| 0 <= k < self.free_list@.len() ==>
                    #[trigger] self.free_list@[k] < n && self.objects@[self.free_list@[k] as int] is None,
            decreases n - i,
        {
            proof {
                assert(all_ids((i + 1) as nat) =~= all_ids(i as nat).push(i));
                lemma_filter_push(all_ids(i as nat), i, pred);
            }
            if self.objects[i].is_some() && !self.marks[i] {
                let ghost f0 = self.free_list@;
                assert forall|k: int| 0 <= k < f0.len() implies f0[k] != i by {}
                self.objects.set(i, None);
                self.free_list.push(i);
                proof {
                    assert(pred(i));
                    assert forall|k: int| 0 <= k < self.free_list@.len() implies
                        #[trigger] self.free_list@[k] < n && self.objects@[self.free_list@[k] as int] is None by {
                        if k < f0.len() {
                            assert(f0[k] != i);
                        }
                    }
                }
            } else if self.objects[i].is_some() {
                self.generations.set(i, 1);
                proof {
                    assert(!pred(i));
                }
            } else {
                proof {
                    assert(!pred(i));
                }
            }
            i = i + 1;
        }
        self.young_objects.clear();
        self.remembered_set.clear();
        let mut i: usize = 0;
        while i < n
            invariant
                i <= n,
                self.dirty@.len() == n,
                forall|k: int| 0 <= k < i ==> !#[trigger] self.dirty@[k],
                self.objects@.len() == n,
                self.marks@.len() == n,
                self.generations@.len() == n,
                forall|k: int| 0 <= k < n ==> #[trigger] self.objects@[k] == (
                    if swept_in_full(objs0, gens0, roots@, children@, k) { None } else { objs0[k] }),
                forall|k: int| 0 <= k < n ==> #[trigger] self.generations@[k] == (
                    if is_live(objs0, k) && !swept_in_full(objs0, gens0, roots@, children@, k) {
                        1u8
                    } else {
                        gens0[k]
                    }),
                self.free_list@ == free0 + all_ids(n as nat).filter(pred),
                distinct_ids(self.free_list@),
                forall|k: int| 0 <= k < self.free_list@.len() ==>
                    #[trigger] self.free_list@[k] < n && self.objects@[self.free_list@[k] as int] is None,
                self.young_objects@.len() == 0,
                self.remembered_set@.len() == 0,
                self.alloc_count == h0.alloc_count,
                self.next_gc_threshold == h0.next_gc_threshold,
                self.minor_gc_count == h0.minor_gc_count,
                self.config == h0.config,
            decreases n - i,
        {
            self.dirty.set(i, false);
            i = i + 1;
        }
        proof {
            assert(self.objects@ =~= Seq::new(n as nat, |k: int|
                if swept_in_full(objs0, gens0, roots@, children@, k) { None } else { objs0[k] }));
            assert(self.generations@ =~= Seq::new(n as nat, |k: int|
                if is_live(objs0, k) && !swept_in_full(objs0, gens0, roots@, children@, k) { 1u8 } else { gens0[k] }));
            assert(self.dirty@ =~= Seq::new(n as nat, |k: int| false));
            assert(self.young_objects@ =~= Seq::<GcId>::empty());
            assert(self.remembered_set@ =~= Seq::<GcId>::empty());
            assert forall|k: int| is_live(self.objects@, k) implies #[trigger] self.generations@[k] != 0 by {}
        }
    }
}

/// Where a minor collection starts tracing: the roots, and whatever the
/// remembered old objects refer to.
pub open spec fn minor_starts(roots: Seq<GcId>, rem: Seq<GcId>, children: Seq<Vec<GcId>>) -> Set<int> {
    id_set(roots).union(
        Set::new(|j: int| exists|k: int| 0 <= k < rem.len() && #[trigger] refers_to(children, rem[k] as int, j)),
    )
}

/// A minor collection frees slot `i`: it holds a young object, and no chain
/// of references through young objects leads to it from a root or from a
/// remembered old object.
pub open spec fn swept_in_minor<T>(
    objs: Seq<Option<T>>,
    gens: Seq<u8>,
    roots: Seq<GcId>,
    rem: Seq<GcId>,
    children: Seq<Vec<GcId>>,
    i: int,
) -> bool {
    traced_set(objs, gens, true).contains(i)
        && !reaches(traced_set(objs, gens, true), children, minor_starts(roots, rem, children), i)
}

/// `swept_in_minor` as a predicate on ids.
pub open spec fn minor_sweep<T>(
    objs: Seq<Option<T>>,
    gens: Seq<u8>,
    roots: Seq<GcId>,
    rem: Seq<GcId>,
    children: Seq<Vec<GcId>>,
) -> spec_fn(GcId) -> bool {
    |id: GcId| swept_in_minor(objs, gens, roots, rem, children, id as int)
}

/// `i` occurs among the first `k` elements of `s`.
pub open spec fn among_first(s: Seq<GcId>, k: int, i: int) -> bool {
    exists|j: int| 0 <= j < k && #[trigger] s[j] as int == i
}

impl<T> Heap<T> {
    /// `new` is this heap after a minor collection from `roots`, where
    /// `children[i]` lists the slots that the object in slot `i` refers to:
    /// every young object that no chain of references through young objects
    /// leads to from a root or from a remembered old object is emptied and
    /// appended to the free list in allocation order, the surviving young
    /// objects become old, old objects are left alone, and the young list,
    /// the remembered set and the dirty flags are cleared.
    pub open spec fn minor_collected(&self, new: &Self, roots: Seq<GcId>, children: Seq<Vec<GcId>>) -> bool {
        let objs = self.slots();
        let gens = self.generations();
        let rem = self.remembered();
        let n = objs.len();
        &&& new.slots() == Seq::new(n, |i: int|
            if swept_in_minor(objs, gens, roots, rem, children, i) { None } else { objs[i] })
        &&& new.generations() == Seq::new(n, |i: int|
            if traced_set(objs, gens, true).contains(i) && !swept_in_minor(objs, gens, roots, rem, children, i) {
                1u8
            } else {
                gens[i]
            })
        &&& new.free_slots() == self.free_slots() + self.young_ids().filter(minor_sweep(objs, gens, roots, rem, children))
        &&& new.young_ids() == Seq::<GcId>::empty()
        &&& new.remembered() == Seq::<GcId>::empty()
        &&& new.dirty_flags() == Seq::new(n, |i: int| false)
    }

    /// Mark and sweep of the young objects only.
    fn minor_collect(&mut self, roots: &Vec<GcId>, children: &Vec<Vec<GcId>>)
        requires
            old(self).wf(),
            children@.len() == old(self).slots().len(),
        ensures
            final(self).wf(),
            old(self).minor_collected(final(self), roots@, children@),
            final(self).allocations() == old(self).allocations(),
            final(self).threshold() == old(self).threshold(),
            final(self).minor_collections() == old(self).minor_collections(),
            final(self).settings() == old(self).settings(),
    {
        let ghost h0: Heap<T> = *self;
        let ghost objs0 = self.objects@;
        let ghost gens0 = self.generations@;
        let ghost free0 = self.free_list@;
        let ghost young0 = self.young_objects@;
        let ghost rem0 = self.remembered_set@;
        let ghost dirty0 = self.dirty@;
        let ghost nodes = traced_set(objs0, gens0, true);
        let ghost starts = minor_starts(roots@, rem0, children@);
        let ghost pred = minor_sweep(objs0, gens0, roots@, rem0, children@);
        let n = self.objects.len();
        proof {
            assert forall|i: int| #[trigger] nodes.contains(i) implies young0.contains(i as GcId) by {
                assert(is_live(objs0, i) && gens0[i] == 0);
            }
        }
        let mut k: usize = 0;
        while k < self.young_objects.len()
            invariant
                k <= young0.len(),
                n == objs0.len(),
                self.marks@.len() == n,
                h0.wf(),
                h0.objects@ == objs0,
                h0.young_objects@ == young0,
                self.objects@ == objs0,
                self.generations@ == gens0,
                self.free_list@ == free0,
                self.young_objects@ == young0,
                self.remembered_set@ == rem0,
                self.dirty@ == dirty0,
                self.alloc_count == h0.alloc_count,
                self.next_gc_threshold == h0.next_gc_threshold,
                self.minor_gc_count == h0.minor_gc_count,
                self.config == h0.config,
                forall|j: int| 0 <= j < k ==> !#[trigger] self.marks@[young0[j] as int],
            decreases young0.len() - k,
        {
            let id = self.young_objects[k];
            if id < self.marks.len() {
                self.marks.set(id, false);
            }
            k = k + 1;
        }
        proof {
            assert forall|i: int| #[trigger] nodes.contains(i) implies !self.marks@[i] by {
                assert(young0.contains(i as GcId));
                let j = choose|j: int| 0 <= j < young0.len() && young0[j] == i as GcId;
                assert(!self.marks@[young0[j] as int]);
            }
        }
        let mut worklist: Vec<GcId> = Vec::new();
        let mut r: usize = 0;
        while r < roots.len()
            invariant
                r <= roots@.len(),
                n == objs0.len(),
                gens0.len() == n,
                self.objects@ == objs0,
                self.generations@ == gens0,
                nodes == traced_set(objs0, gens0, true),
                starts == minor_starts(roots@, rem0, children@),
                forall|j: int| 0 <= j < worklist@.len() ==>
                    nodes.contains(#[trigger] worklist@[j] as int) && starts.contains(worklist@[j] as int),
                forall|j: int| 0 <= j < r && nodes.contains(#[trigger] roots@[j] as int)
                    ==> worklist@.contains(roots@[j]),
            decreases roots@.len() - r,
        {
            let id = roots[r];
            let ghost w0 = worklist@;
            if id < n && self.objects[id].is_some() && self.generations[id] == 0 {
                worklist.push(id);
                proof {
                    assert(id_set(roots@).contains(id as int)) by {
                        assert(roots@[r as int] as int == id as int);
                    }
                    assert(worklist@[w0.len() as int] == id);
                    assert forall|j: int| 0 <= j < r + 1 && nodes.contains(#[trigger] roots@[j] as int)
                        implies worklist@.contains(roots@[j]) by {
                        if j < r {
                            let q = choose|q: int| 0 <= q < w0.len() && w0[q] == roots@[j];
                            assert(worklist@[q] == roots@[j]);
                        }
                    }
                }
            }
            r = r + 1;
        }
        let mut remembered: Vec<GcId> = Vec::new();
        std::mem::swap(&mut remembered, &mut self.remembered_set);
        let ghost wl_roots = worklist@;
        let mut k: usize = 0;
        while k < remembered.len()
            invariant
                k <= rem0.len(),
                remembered@ == rem0,
                n == objs0.len(),
                gens0.len() == n,
                children@.len() == n,
                h0.wf(),
                h0.objects@ == objs0,
                h0.generations@ == gens0,
                h0.remembered_set@ == rem0,
                self.objects@ == objs0,
                self.generations@ == gens0,
                nodes == traced_set(objs0, gens0, true),
                starts == minor_starts(roots@, rem0, children@),
                forall|j: int| 0 <= j < worklist@.len() ==>
                    nodes.contains(#[trigger] worklist@[j] as int) && starts.contains(worklist@[j] as int),
                forall|y: GcId| #[trigger] wl_roots.contains(y) ==> worklist@.contains(y),
                forall|kk: int, jj: int| 0 <= kk < k && 0 <= jj < children@[rem0[kk] as int]@.len()
                    && nodes.contains(#[trigger] children@[rem0[kk] as int]@[jj] as int)
                    ==> worklist@.contains(children@[rem0[kk] as int]@[jj]),
            decreases rem0.len() - k,
        {
            let rid = remembered[k];
            assert(is_live(objs0, rid as int));
            let refs = &children[rid];
            let ghost w1 = worklist@;
            let mut j: usize = 0;
            while j < refs.len()
                invariant
                    j <= refs@.len(),
                    refs@ == children@[rid as int]@,
                    rid == rem0[k as int],
                    rid < n,
                    children@.len() == n,
                    gens0.len() == n,
                    0 <= k < rem0.len(),
                    n == objs0.len(),
                    self.objects@ == objs0,
                    self.generations@ == gens0,
                    nodes == traced_set(objs0, gens0, true),
                    starts == minor_starts(roots@, rem0, children@),
                    forall|q: int| 0 <= q < worklist@.len() ==>
                        nodes.contains(#[trigger] worklist@[q] as int) && starts.contains(worklist@[q] as int),
                    forall|y: GcId| #[trigger] w1.contains(y) ==> worklist@.contains(y),
                    forall|jj: int| 0 <= jj < j && nodes.contains(#[trigger] refs@[jj] as int)
                        ==> worklist@.contains(refs@[jj]),
                decreases refs@.len() - j,
            {
                let c = refs[j];
                let ghost w2 = worklist@;
                if c < n && self.objects[c].is_some() && self.generations[c] == 0 {
                    worklist.push(c);
                    proof {
                        assert(refers_to(children@, rem0[k as int] as int, c as int)) by {
                            assert(children@[rid as int]@[j as int] == c);
                        }
                        assert(starts.contains(c as int));
                        assert(worklist@[w2.len() as int] == c);
                        assert forall|y: GcId| #[trigger] w1.contains(y) implies worklist@.contains(y) by {
                            let q = choose|q: int| 0 <= q < w2.len() && w2[q] == y;
                            assert(worklist@[q] == y);
                        }
                        assert forall|jj: int| 0 <= jj < j + 1 && nodes.contains(#[trigger] refs@[jj] as int)
                            implies worklist@.contains(refs@[jj]) by {
                            if jj < j {
                                let q = choose|q: int| 0 <= q < w2.len() && w2[q] == refs@[jj];
                                assert(worklist@[q] == refs@[jj]);
                            }
                        }
                    }
                }
                j = j + 1;
            }
            proof {
                assert forall|kk: int, jj: int| 0 <= kk < k + 1 && 0 <= jj < children@[rem0[kk] as int]@.len()
                    && nodes.contains(#[trigger] children@[rem0[kk] as int]@[jj] as int)
                    implies worklist@.contains(children@[rem0[kk] as int]@[jj]) by {
                    if kk < k {
                        assert(w1.contains(children@[rem0[kk] as int]@[jj]));
                    }
                }
            }
            k = k + 1;
        }
        proof {
            assert forall|x: int| starts.contains(x) && nodes.contains(x) implies worklist@.contains(x as GcId) by {
                if id_set(roots@).contains(x) {
                    let j = choose|j: int| 0 <= j < roots@.len() && roots@[j] as int == x;
                    assert(nodes.contains(roots@[j] as int));
                    assert(wl_roots.contains(roots@[j]));
                } else {
                    let kk = choose|kk: int| 0 <= kk < rem0.len() && #[trigger] refers_to(children@, rem0[kk] as int, x);
                    let jj = choose|jj: int| 0 <= jj < children@[rem0[kk] as int]@.len()
                        && children@[rem0[kk] as int]@[jj] == x as GcId;
                    assert(nodes.contains(children@[rem0[kk] as int]@[jj] as int));
                }
            }
        }
        mark(&mut self.marks, &self.objects, &self.generations, children, true, worklist, Ghost(starts));
        let mut young: Vec<GcId> = Vec::new();
        std::mem::swap(&mut young, &mut self.young_objects);
        proof {
            reveal(Seq::filter);
            assert(young0.take(0).filter(pred) =~= Seq::<GcId>::empty());
            assert(free0 + young0.take(0).filter(pred) =~= free0);
        }
        let mut k: usize = 0;
        while k < young.len()
            invariant
                k <= young0.len(),
                young@ == young0,
                n == objs0.len(),
                h0.wf(),
                h0.objects@ == objs0,
                h0.generations@ == gens0,
                h0.young_objects@ == young0,
                h0.free_list@ == free0,
                self.objects@.len() == n,
                self.generations@.len() == n,
                self.marks@.len() == n,
                nodes == traced_set(objs0, gens0, true),
                starts == minor_starts(roots@, rem0, children@),
                pred == minor_sweep(objs0, gens0, roots@, rem0, children@),
                forall|i: int| 0 <= i < n ==> #[trigger] self.marks@[i] == (
                    if nodes.contains(i) { reaches(nodes, children@, starts, i) } else { self.marks@[i] }),
                forall|i: int| 0 <= i < n ==> #[trigger] self.objects@[i] == (
                    if among_first(young0, k as int, i) && swept_in_minor(objs0, gens0, roots@, rem0, children@, i) {
                        None
                    } else {
                        objs0[i]
                    }),
                forall|i: int| 0 <= i < n ==> #[trigger] self.generations@[i] == (
                    if among_first(young0, k as int, i) && !swept_in_minor(objs0, gens0, roots@, rem0, children@, i) {
                        1u8
                    } else {
                        gens0[i]
                    }),
                self.free_list@ == free0 + young0.take(k as int).filter(pred),
                distinct_ids(self.free_list@),
                forall|q: int| 0 <= q < self.free_list@.len() ==>
                    #[trigger] self.free_list@[q] < n && self.objects@[self.free_list@[q] as int] is None,
                self.dirty@ == dirty0,
                self.remembered_set@.len() == 0,
                self.young_objects@.len() == 0,
                self.alloc_count == h0.alloc_count,
                self.next_gc_threshold == h0.next_gc_threshold,
                self.minor_gc_count == h0.minor_gc_count,
                self.config == h0.config,
            decreases young0.len() - k,
        {
            let id = young[k];
            proof {
                assert(is_live(objs0, id as int) && gens0[id as int] == 0);
                assert(nodes.contains(id as int));
                assert(!among_first(young0, k as int, id as int)) by {
                    if among_first(young0, k as int, id as int) {
                        let j = choose|j: int| 0 <= j < k && #[trigger] young0[j] as int == id as int;
                        assert(young0[j] != young0[k as int]);
                    }
                }
                assert(young0.take(k + 1) =~= young0.take(k as int).push(id));
                lemma_filter_push(young0.take(k as int), id, pred);
                assert forall|i: int| among_first(young0, k + 1, i) <==> (among_first(young0, k as int, i) || i == id as int) by {
                    if i == id as int {
                        assert(young0[k as int] as int == i);
                    }
                }
            }
            if self.objects[id].is_some() && !self.marks[id] {
                let ghost f0 = self.free_list@;
                assert forall|q: int| 0 <= q < f0.len() implies f0[q] != id by {}
                self.objects.set(id, None);
                self.free_list.push(id);
                proof {
                    assert(pred(id));
                    assert forall|q: int| 0 <= q < self.free_list@.len() implies
                        #[trigger] self.free_list@[q] < n && self.objects@[self.free_list@[q] as int] is None by {
                        if q < f0.len() {
                            assert(f0[q] != id);
                        }
                    }
                }
            } else if self.objects[id].is_some() {
                self.generations.set(id, 1);
                proof {
                    assert(!pred(id));
                }
            }
            k = k + 1;
        }
        let ghost h1: Heap<T> = *self;
        let mut k: usize = 0;
        while k < remembered.len()
            invariant
                k <= rem0.len(),
                remembered@ == rem0,
                n == objs0.len(),
                self.objects@ == h1.objects@,
                self.generations@ == h1.generations@,
                self.marks@ == h1.marks@,
                self.free_list@ == h1.free_list@,
                self.young_objects@ == h1.young_objects@,
                self.remembered_set@ == h1.remembered_set@,
                self.alloc_count == h1.alloc_count,
                self.next_gc_threshold == h1.next_gc_threshold,
                self.minor_gc_count == h1.minor_gc_count,
                self.config == h1.config,
                h0.wf(),
                h0.objects@ == objs0,
                h0.remembered_set@ == rem0,
                h0.dirty@ == dirty0,
                self.dirty@.len() == n,
                forall|i: int| 0 <= i < n ==> #[trigger] self.dirty@[i] == (dirty0[i] && !among_first(rem0, k as int, i)),
            decreases rem0.len() - k,
        {
            let id = remembered[k];
            assert(is_live(objs0, id as int));
            self.dirty.set(id, false);
            proof {
                assert forall|i: int| among_first(rem0, k + 1, i) <==> (among_first(rem0, k as int, i) || i == id as int) by {
                    if i == id as int {
                        assert(rem0[k as int] as int == i);
                    }
                }
            }
            k = k + 1;
        }
        proof {
            assert(young0.take(young0.len() as int) =~= young0);
            assert forall|i: int| 0 <= i < n implies among_first(young0, young0.len() as int, i) == nodes.contains(i) by {
                if nodes.contains(i) {
                    let j = choose|j: int| 0 <= j < young0.len() && young0[j] == i as GcId;
                    assert(young0[j] as int == i);
                }
                if among_first(young0, young0.len() as int, i) {
                    let j = choose|j: int| 0 <= j < young0.len() && #[trigger] young0[j] as int == i;
                    assert(is_live(objs0, young0[j] as int));
                }
            }
            assert forall|i: int| 0 <= i < n implies #[trigger] self.objects@[i] == (
                if swept_in_minor(objs0, gens0, roots@, rem0, children@, i) { None } else { objs0[i] })
                && self.generations@[i] == (
                if nodes.contains(i) && !swept_in_minor(objs0, gens0, roots@, rem0, children@, i) {
                    1u8
                } else {
                    gens0[i]
                }) by {
                assert(among_first(young0, young0.len() as int, i) == nodes.contains(i));
            }
            assert(self.objects@ =~= Seq::new(n as nat, |i: int|
                if swept_in_minor(objs0, gens0, roots@, rem0, children@, i) { None } else { objs0[i] }));
            assert(self.generations@ =~= Seq::new(n as nat, |i: int|
                if nodes.contains(i) && !swept_in_minor(objs0, gens0, roots@, rem0, children@, i) {
                    1u8
                } else {
                    gens0[i]
                }));
            assert forall|i: int| 0 <= i < n implies !self.dirty@[i] by {
                if dirty0[i] {
                    assert(rem0.contains(i as GcId));
                    let j = choose|j: int| 0 <= j < rem0.len() && rem0[j] == i as GcId;
                    assert(rem0[j] as int == i);
                }
            }
            assert(self.dirty@ =~= Seq::new(n as nat, |i: int| false));
            assert(self.young_objects@ =~= Seq::<GcId>::empty());
            assert(self.remembered_set@ =~= Seq::<GcId>::empty());
            assert forall|i: int| is_live(self.objects@, i) implies #[trigger] self.generations@[i] != 0 by {}
        }
    }
}

/// The number of slots that hold an object.
pub open spec fn live_count<T>(objs: Seq<Option<T>>) -> nat
    decreases objs.len(),
{
    if objs.len() == 0 {
        0
    } else {
        live_count(objs.drop_last()) + if objs.last() is Some { 1nat } else { 0nat }
    }
}

/// The threshold after a collection that left `live` objects: twice the
/// live count (saturating), at least the initial threshold, at most the
/// maximum threshold.
pub open spec fn next_threshold(live: nat, config: GCConfig) -> usize {
    let doubled: int = if live * 2 > usize::MAX { usize::MAX as int } else { (live * 2) as int };
    let dynamic: int = if doubled >= config.initial_threshold { doubled } else { config.initial_threshold as int };
    (if dynamic <= config.max_threshold { dynamic } else { config.max_threshold as int }) as usize
}

impl<T> Heap<T> {
    /// `new` is this heap after one collection from `roots` with the
    /// references `children`: a full collection when it is the eighth in a
    /// row, else a minor one; the allocation count is reset, and the
    /// threshold recomputed from the live objects.
    pub open spec fn collected_from(&self, new: &Self, roots: Seq<GcId>, children: Seq<Vec<GcId>>) -> bool {
        &&& if self.minor_collections() + 1 >= 8 {
            &&& self.fully_collected(new, roots, children)
            &&& new.minor_collections() == 0
        } else {
            &&& self.minor_collected(new, roots, children)
            &&& new.minor_collections() == self.minor_collections() + 1
        }
        &&& new.allocations() == 0
        &&& new.threshold() == next_threshold(live_count(new.slots()), self.settings())
        &&& new.settings() == self.settings()
    }

    /// Collects garbage. `roots` are the slots the program can reach
    /// directly, and `children[i]` lists the slots that the object in slot
    /// `i` refers to. Every eighth collection is a full one, the others are
    /// minor ones (see `fully_collected` and `minor_collected`). Afterwards
    /// the allocation count is zero and the threshold is recomputed from
    /// the number of live objects.
    pub fn collect(&mut self, roots: &Vec<GcId>, children: &Vec<Vec<GcId>>)
        requires
            old(self).wf(),
            children@.len() == old(self).slots().len(),
        ensures
            final(self).wf(),
            old(self).collected_from(final(self), roots@, children@),
            final(self).threshold() <= old(self).settings().max_threshold,
            old(self).settings().initial_threshold <= old(self).settings().max_threshold
                ==> old(self).settings().initial_threshold <= final(self).threshold(),
            final(self).settings() == old(self).settings(),
    {
        self.alloc_count = 0;
        let count = self.minor_gc_count + 1;
        if count >= 8 {
            self.major_collect(roots, children);
            self.minor_gc_count = 0;
        } else {
            self.minor_collect(roots, children);
            self.minor_gc_count = count;
        }
        let live = self.count_live();
        let doubled: usize = if live > usize::MAX / 2 { usize::MAX } else { live * 2 };
        let dynamic: usize = if doubled >= self.config.initial_threshold {
            doubled
        } else {
            self.config.initial_threshold
        };
        self.next_gc_threshold = if dynamic <= self.config.max_threshold {
            dynamic
        } else {
            self.config.max_threshold
        };
    }

    /// The number of slots that hold an object.
    fn count_live(&self) -> (r: usize)
        ensures
            r == live_count(self.objects@),
    {
        let mut count: usize = 0;
        let mut i: usize = 0;
        while i < self.objects.len()
            invariant
                i <= self.objects@.len(),
                count == live_count(self.objects@.take(i as int)),
                count <= i,
            decreases self.objects@.len() - i,
        {
            proof {
                assert(self.objects@.take(i + 1).drop_last() =~= self.objects@.take(i as int));
            }
            if self.objects[i].is_some() {
                count = count + 1;
            }
            i = i + 1;
        }
        proof {
            assert(self.objects@.take(i as int) =~= self.objects@);
        }
        count
    }
}

/// A full collection keeps every object that a chain of references through
/// live objects leads to from a root, and frees every other live object.
pub proof fn lemma_full_collection_frees_exactly_unreachable<T>(
    h: Heap<T>,
    new: Heap<T>,
    roots: Seq<GcId>,
    children: Seq<Vec<GcId>>,
    i: int,
)
    requires
        h.wf(),
        h.fully_collected(&new, roots, children),
        is_live(h.slots(), i),
    ensures
        reaches(traced_set(h.slots(), h.generations(), false), children, id_set(roots), i)
            ==> new.slots()[i] == h.slots()[i],
        !reaches(traced_set(h.slots(), h.generations(), false), children, id_set(roots), i)
            ==> new.slots()[i] is None && new.free_slots().contains(i as GcId),
{
    let objs = h.slots();
    let gens = h.generations();
    let pred = full_sweep(objs, gens, roots, children);
    if !reaches(traced_set(objs, gens, false), children, id_set(roots), i) {
        let ids = all_ids(objs.len());
        assert(ids[i] == i as GcId);
        assert(pred(ids[i]));
        ids.lemma_filter_contains(pred, i);
        let f = ids.filter(pred);
        let k = choose|k: int| 0 <= k < f.len() && f[k] == i as GcId;
        assert(new.free_slots()[h.free_slots().len() + k] == i as GcId);
    }
}

/// A minor collection never frees an old object.
pub proof fn lemma_minor_collection_spares_old<T>(
    h: Heap<T>,
    new: Heap<T>,
    roots: Seq<GcId>,
    children: Seq<Vec<GcId>>,
    i: int,
)
    requires
        h.wf(),
        h.minor_collected(&new, roots, children),
        is_live(h.slots(), i),
        h.generations()[i] != 0,
    ensures
        new.slots()[i] == h.slots()[i],
        new.generations()[i] == h.generations()[i],
{
}

/// If every reference from a live old object to a live young object comes
/// from a remembered object, which is what the write barrier of `get_mut`
/// maintains, then a minor collection keeps every object that a chain of
/// references through live objects leads to from a root: it frees nothing
/// that a full collection would keep.
pub proof fn lemma_minor_collection_keeps_reachable<T>(
    h: Heap<T>,
    new: Heap<T>,
    roots: Seq<GcId>,
    children: Seq<Vec<GcId>>,
    i: int,
)
    requires
        h.wf(),
        h.minor_collected(&new, roots, children),
        forall|x: int, y: int|
            is_live(h.slots(), x) && h.generations()[x] != 0 && is_live(h.slots(), y)
                && h.generations()[y] == 0 && #[trigger] refers_to(children, x, y)
                ==> h.remembered().contains(x as GcId),
        reaches(traced_set(h.slots(), h.generations(), false), children, id_set(roots), i),
    ensures
        new.slots()[i] == h.slots()[i],
{
    let objs = h.slots();
    let gens = h.generations();
    let all = traced_set(objs, gens, false);
    let p = choose|p: Seq<int>| #[trigger] is_chain(all, children, id_set(roots), p) && p.last() == i;
    assert(all.contains(p[p.len() - 1]));
    if gens[i] == 0 {
        lemma_young_prefix_reached(h, roots, children, p, p.len() - 1);
    }
}

/// Under the hypotheses of `lemma_minor_collection_keeps_reachable`, each
/// young node of a chain from a root through live objects is reached by
/// the minor collection's trace.
proof fn lemma_young_prefix_reached<T>(
    h: Heap<T>,
    roots: Seq<GcId>,
    children: Seq<Vec<GcId>>,
    p: Seq<int>,
    k: int,
)
    requires
        h.wf(),
        forall|x: int, y: int|
            is_live(h.slots(), x) && h.generations()[x] != 0 && is_live(h.slots(), y)
                && h.generations()[y] == 0 && #[trigger] refers_to(children, x, y)
                ==> h.remembered().contains(x as GcId),
        is_chain(traced_set(h.slots(), h.generations(), false), children, id_set(roots), p),
        0 <= k < p.len(),
        h.generations()[p[k]] == 0,
    ensures
        reaches(
            traced_set(h.slots(), h.generations(), true),
            children,
            minor_starts(roots, h.remembered(), children),
            p[k],
        ),
    decreases k,
{
    let objs = h.slots();
    let gens = h.generations();
    let all = traced_set(objs, gens, false);
    let young = traced_set(objs, gens, true);
    let rem = h.remembered();
    let starts = minor_starts(roots, rem, children);
    assert(all.contains(p[k]));
    assert(young.contains(p[k]));
    if k == 0 {
        lemma_reaches_start(young, children, starts, p[0]);
    } else {
        assert(all.contains(p[k - 1]));
        assert(chain_step(children, p, k - 1));
        if gens[p[k - 1]] == 0 {
            lemma_young_prefix_reached(h, roots, children, p, k - 1);
            lemma_reaches_step(young, children, starts, p[k - 1], p[k]);
        } else {
            assert(refers_to(children, p[k - 1], p[k]));
            assert(rem.contains(p[k - 1] as GcId));
            let j = choose|j: int| 0 <= j < rem.len() && rem[j] == p[k - 1] as GcId;
            assert(is_live(objs, p[k - 1]));
            assert(rem[j] as int == p[k - 1]);
            assert(refers_to(children, rem[j] as int, p[k]));
            assert(starts.contains(p[k]));
            lemma_reaches_start(young, children, starts, p[k]);
        }
    }
}

/// After a store, the slot it took holds the stored object and every other
/// slot is as it was.
pub proof fn lemma_stored_object_is_read_back<T>(h: Heap<T>, new: Heap<T>, obj: T, j: int)
    requires
        h.wf(),
        h.stored(&new, obj),
        0 <= j < new.slots().len(),
    ensures
        new.slots()[h.next_slot() as int] == Some(obj),
        j != h.next_slot() ==> new.slots()[j] == h.slots()[j],
        is_live(new.slots(), h.next_slot() as int),
{
}

/// Runtime errors that surface as BoxLang exceptions instead of panics.
#[derive(Clone, Debug, PartialEq, Eq)]
pub enum RuntimeError {
    /// Allocation failed even after a garbage collection.
    OutOfMemory(String),
}

impl RuntimeError {
    /// The BoxLang exception type of the error.
    pub fn exception_type(&self) -> (r: &'static str)
        ensures
            r@ == "OutOfMemoryException"@,
    {
        match self {
            RuntimeError::OutOfMemory(_) => "OutOfMemoryException",
        }
    }

    /// The error as it is displayed: the variant's name, a colon and the
    /// message.
    pub fn to_string(&self) -> (r: String)
        ensures
            r@ == "OutOfMemory: "@ + match self {
                RuntimeError::OutOfMemory(m) => m@,
            },
    {
        match self {
            RuntimeError::OutOfMemory(m) => {
                let mut r = String::new();
                let prefix = crate::text::chars_of("OutOfMemory: ");
                let body = crate::text::chars_of(m.as_str());
                let mut i: usize = 0;
                while i < prefix.len()
                    invariant
                        i <= prefix@.len(),
                        prefix@ == "OutOfMemory: "@,
                        r@ == prefix@.take(i as int),
                    decreases prefix.len() - i,
                {
                    crate::text::push_char(&mut r, prefix[i]);
                    assert(prefix@.take(i + 1) =~= prefix@.take(i as int).push(prefix@[i as int]));
                    i = i + 1;
                }
                assert(prefix@.take(i as int) =~= prefix@);
                let mut j: usize = 0;
                while j < body.len()
                    invariant
                        j <= body@.len(),
                        body@ == m@,
                        prefix@ == "OutOfMemory: "@,
                        r@ == prefix@ + body@.take(j as int),
                    decreases body.len() - j,
                {
                    crate::text::push_char(&mut r, body[j]);
                    assert(body@.take(j + 1) =~= body@.take(j as int).push(body@[j as int]));
                    j = j + 1;
                }
                assert(body@.take(j as int) =~= body@);
                r
            },
        }
    }
}

/// The message of the error `gc_alloc` gives when the heap stays full.
pub open spec fn heap_exhausted_message() -> Seq<char> {
    "Heap exhausted: allocation failed even after garbage collection"@
}

/// Allocates `obj`; when the heap cannot take it, collects garbage (from
/// `roots`, with `children[i]` the references of slot `i`) and tries once
/// more, failing with `OutOfMemory` if that fails too.
///
/// Whether the slot vectors can grow depends on the memory the process is
/// given; the contract says what holds either way. With a freed slot
/// available, or with the heap at `max_objects`, nothing but the heap
/// decides the outcome, and the contract gives it exactly.
pub fn gc_alloc<T: Clone>(heap: &mut Heap<T>, obj: T, roots: &Vec<GcId>, children: &Vec<Vec<GcId>>) -> (r: Result<
    GcId,
    RuntimeError,
>)
    requires
        old(heap).wf(),
        old(heap).allocations() < usize::MAX,
        children@.len() == old(heap).slots().len(),
    ensures
        final(heap).wf(),
        r matches Ok(id) ==> is_live(final(heap).slots(), id as int),
        old(heap).free_slots().len() > 0 ==> {
            &&& r == Ok::<GcId, RuntimeError>(old(heap).next_slot())
            &&& exists|c: T| cloned::<T>(obj, c) && #[trigger] old(heap).stored(final(heap), c)
        },
        old(heap).free_slots().len() == 0 ==> {
            ||| {
                &&& !old(heap).at_capacity()
                &&& r == Ok::<GcId, RuntimeError>(old(heap).next_slot())
                &&& exists|c: T| cloned::<T>(obj, c) && #[trigger] old(heap).stored(final(heap), c)
            }
            ||| exists|mid: Heap<T>| #[trigger] old(heap).collected_from(&mid, roots@, children@) && {
                &&& mid.wf()
                &&& mid.free_slots().len() > 0 ==> r == Ok::<GcId, RuntimeError>(mid.next_slot())
                    && mid.stored(final(heap), obj)
                &&& mid.free_slots().len() == 0 && mid.at_capacity() ==> r is Err
                &&& r is Err ==> mid.free_slots().len() == 0 && mid.counted_only(final(heap))
                &&& r matches Ok(id) ==> id == mid.next_slot() && mid.stored(final(heap), obj)
            }
        },
        old(heap).free_slots().len() == 0 && old(heap).at_capacity() ==> exists|mid: Heap<T>|
            #[trigger] old(heap).collected_from(&mid, roots@, children@) && (r is Ok <==> mid.free_slots().len() > 0)
                && (r matches Ok(id) ==> id == mid.next_slot() && mid.stored(final(heap), obj))
                && (r is Err ==> mid.counted_only(final(heap))),
        r matches Err(RuntimeError::OutOfMemory(m)) ==> m@ == heap_exhausted_message(),
{
    let copy = obj.clone();
    match heap.try_alloc(copy) {
        Some(id) => {
            return Ok(id);
        },
        None => {},
    }
    let ghost tried = *heap;
    heap.collect(roots, children);
    let ghost mid = *heap;
    proof {
        assert(tried.collected_from(&mid, roots@, children@));
        assert(old(heap).collected_from(&mid, roots@, children@));
        assert(mid.slots().len() == old(heap).slots().len());
    }
    match heap.try_alloc(obj) {
        Some(id) => Ok(id),
        None => {
            let message = String::from_str("Heap exhausted: allocation failed even after garbage collection");
            Err(RuntimeError::OutOfMemory(message))
        },
    }
}

} // verus!
