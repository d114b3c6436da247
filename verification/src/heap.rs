//! The arena that owns every object, addressed by generation-checked
//! handles.

use vstd::prelude::*;
use crate::classty::Env;
use crate::dispatch::{at_spec, get_spec, invoke_spec, object_set, set_spec, tag_of};
use crate::error::{ErrorView, VmError};
use crate::instance::{attribute_not_found, attribute_not_found_at, method_not_found};
use crate::object::{Handle, Invocation, InvocationView, Object, ObjectView, TypeTag, Value};

verus! {

/// One cell of the arena. An empty cell keeps the generation of the last
/// object it held, so that references to that object are recognised as
/// stale.
#[derive(Debug)]
struct Slot {
    generation: u64,
    object: Option<Object>,
}

/// The arena.
#[derive(Debug)]
pub struct Heap {
    slots: Vec<Slot>,
    /// Indices of cells that were emptied and may be used again.
    free: Vec<usize>,
}

/// The cell at `i` is empty and has a generation left to give.
spec fn usable(slots: Seq<Slot>, i: usize) -> bool {
    &&& i < slots.len()
    &&& slots[i as int].object is None
    &&& slots[i as int].generation < u64::MAX
}

/// The last usable entry of the free list.
spec fn pick(slots: Seq<Slot>, free: Seq<usize>) -> Option<usize>
    decreases free.len(),
{
    if free.len() == 0 {
        None
    } else if usable(slots, free.last()) {
        Some(free.last())
    } else {
        pick(slots, free.drop_last())
    }
}

proof fn lemma_pick_usable(slots: Seq<Slot>, free: Seq<usize>)
    ensures
        pick(slots, free) matches Some(i) ==> usable(slots, i),
    decreases free.len(),
{
    if free.len() > 0 && !usable(slots, free.last()) {
        lemma_pick_usable(slots, free.drop_last());
    }
}

proof fn lemma_pick_same(before: Seq<Slot>, after: Seq<Slot>, free: Seq<usize>)
    requires
        before.len() == after.len(),
        forall|i: int|
            0 <= i < before.len() ==> (#[trigger] before[i]).generation == after[i].generation && (
            before[i].object is None <==> after[i].object is None),
    ensures
        pick(before, free) == pick(after, free),
    decreases free.len(),
{
    if free.len() > 0 {
        let i = free.last();
        if i < before.len() {
            assert(before[i as int].generation == after[i as int].generation);
        }
        lemma_pick_same(before, after, free.drop_last());
    }
}

impl Heap {
    /// The object behind `h` is stored in the arena.
    spec fn live(&self, h: Handle) -> bool {
        &&& h.index < self.slots@.len()
        &&& self.slots@[h.index as int].generation == h.generation
        &&& self.slots@[h.index as int].object is Some
    }

    /// The objects of the arena, by their handles.
    pub closed spec fn view(&self) -> Map<Handle, ObjectView> {
        Map::new(
            |h: Handle| self.live(h),
            |h: Handle| self.slots@[h.index as int].object->0@,
        )
    }

    /// The handles that the arena has given out so far, whether their
    /// objects are still stored or not.
    pub closed spec fn issued(&self) -> Set<Handle> {
        Set::new(
            |h: Handle|
                h.index < self.slots@.len() && h.generation <= self.slots@[h.index as int].generation,
        )
    }

    /// The handle that the next allocation returns.
    pub closed spec fn fresh(&self) -> Handle {
        match pick(self.slots@, self.free@) {
            Some(i) => Handle {
                index: i,
                generation: (self.slots@[i as int].generation + 1) as u64,
            },
            None => Handle { index: self.slots.len(), generation: 0 },
        }
    }

    /// Every stored object has a handle that the arena gave out.
    pub proof fn lemma_stored_issued(&self)
        ensures
            self@.dom().subset_of(self.issued()),
    {
    }

    /// The handle of the next allocation was never given out: it refers to
    /// no object, and no reference that went stale holds it.
    pub proof fn lemma_fresh_unused(&self)
        ensures
            !self.issued().contains(self.fresh()),
            !self@.contains_key(self.fresh()),
    {
        lemma_pick_usable(self.slots@, self.free@);
        let h = self.fresh();
        match pick(self.slots@, self.free@) {
            Some(i) => {
                assert(usable(self.slots@, i));
                assert(h.index == i);
                assert(!self.live(h));
            },
            None => {
                assert(h.index == self.slots@.len());
                assert(!self.live(h));
            },
        }
    }

    /// An empty arena.
    pub fn new() -> (r: Heap)
        ensures
            r@ == Map::<Handle, ObjectView>::empty(),
            r.issued() == Set::<Handle>::empty(),
    {
        let r = Heap { slots: Vec::new(), free: Vec::new() };
        assert(r@ =~= Map::<Handle, ObjectView>::empty());
        assert(r.issued() =~= Set::<Handle>::empty());
        r
    }

    /// Stores an object and returns the reference to it, which is a handle
    /// that was never given out before.
    pub fn allocate(&mut self, obj: Object) -> (h: Handle)
        ensures
            h == old(self).fresh(),
            !old(self)@.contains_key(h),
            !old(self).issued().contains(h),
            final(self)@ == old(self)@.insert(h, obj@),
            final(self).issued() == old(self).issued().insert(h),
    {
        proof {
            self.lemma_fresh_unused();
        }
        let mut found: Option<usize> = None;
        while found.is_none() && self.free.len() > 0
            invariant
                self.slots@ == old(self).slots@,
                match found {
                    Some(i) => pick(old(self).slots@, old(self).free@) == Some(i),
                    None => pick(self.slots@, self.free@) == pick(
                        old(self).slots@,
                        old(self).free@,
                    ),
                },
            decreases self.free.len() + (if found.is_none() { 1int } else { 0int }),
        {
            let ghost before = self.free@;
            let i = self.free.pop().unwrap();
            assert(self.free@ == before.drop_last());
            if i < self.slots.len() && self.slots[i].object.is_none() && self.slots[i].generation
                < u64::MAX {
                found = Some(i);
            }
        }
        match found {
            Some(i) => {
                proof {
                    lemma_pick_usable(old(self).slots@, old(self).free@);
                }
                let generation = self.slots[i].generation + 1;
                self.slots.set(i, Slot { generation, object: Some(obj) });
                let h = Handle { index: i, generation };
                assert(self@ =~= old(self)@.insert(h, obj@));
                assert(self.issued() =~= old(self).issued().insert(h));
                h
            },
            None => {
                let i = self.slots.len();
                self.slots.push(Slot { generation: 0, object: Some(obj) });
                let h = Handle { index: i, generation: 0 };
                assert(self@ =~= old(self)@.insert(h, obj@));
                assert(self.issued() =~= old(self).issued().insert(h));
                h
            },
        }
    }

    /// The object behind a reference, if the arena still holds it.
    pub fn get(&self, h: Handle) -> (r: Option<&Object>)
        ensures
            match r {
                Some(obj) => self@.contains_key(h) && obj@ == self@[h],
                None => !self@.contains_key(h),
            },
    {
        if h.index < self.slots.len() && self.slots[h.index].generation == h.generation {
            self.slots[h.index].object.as_ref()
        } else {
            None
        }
    }

    /// Tells whether the arena holds the object behind `h`.
    pub fn contains(&self, h: Handle) -> (r: bool)
        ensures
            r == self@.contains_key(h),
    {
        self.get(h).is_some()
    }

    /// The type of a value.
    pub fn tag_of(&self, v: Value) -> (r: TypeTag)
        ensures
            r == tag_of(self@, v),
    {
        match v {
            Value::Ref(h) => match self.get(h) {
                Some(obj) => obj.tag(),
                None => TypeTag::Unset,
            },
            Value::Unset => TypeTag::Unset,
        }
    }

    /// The type tag of a value as text.
    pub fn tyof(&self, v: Value) -> (r: String)
        ensures
            r@ == tag_of(self@, v).text(),
    {
        self.tag_of(v).name()
    }

    /// Invokes the method `name` of the value `recv` with `args`.
    pub fn invoke(&self, recv: Value, name: &str, args: Vec<Value>, env: &Env) -> (r: Result<
        Invocation,
        VmError,
    >)
        ensures
            match r {
                Ok(inv) => invoke_spec(self@, env@, recv, name@, args@) == Ok::<
                    InvocationView,
                    ErrorView,
                >(inv@),
                Err(e) => invoke_spec(self@, env@, recv, name@, args@) == Err::<
                    InvocationView,
                    ErrorView,
                >(e@),
            },
    {
        match recv {
            Value::Ref(h) => match self.get(h) {
                Some(obj) => obj.invoke(name, args, env, self),
                None => Err(method_not_found(TypeTag::Unset, name)),
            },
            Value::Unset => Err(method_not_found(TypeTag::Unset, name)),
        }
    }

    /// The attribute `name` of the value `v`.
    pub fn get_attr(&self, v: Value, name: &str, env: &Env) -> (r: Result<Value, VmError>)
        ensures
            match r {
                Ok(a) => get_spec(self@, env@, v, name@) == Ok::<Value, ErrorView>(a),
                Err(e) => get_spec(self@, env@, v, name@) == Err::<Value, ErrorView>(e@),
            },
    {
        match v {
            Value::Ref(h) => match self.get(h) {
                Some(obj) => obj.get(name, env),
                None => Err(attribute_not_found(TypeTag::Unset, name)),
            },
            Value::Unset => Err(attribute_not_found(TypeTag::Unset, name)),
        }
    }

    /// The attribute at position `i` of the value `v`.
    pub fn get_attr_at(&self, v: Value, i: usize) -> (r: Result<Value, VmError>)
        ensures
            match r {
                Ok(a) => at_spec(self@, v, i) == Ok::<Value, ErrorView>(a),
                Err(e) => at_spec(self@, v, i) == Err::<Value, ErrorView>(e@),
            },
    {
        match v {
            Value::Ref(h) => match self.get(h) {
                Some(obj) => obj.get_at(i),
                None => Err(attribute_not_found_at(TypeTag::Unset, i)),
            },
            Value::Unset => Err(attribute_not_found_at(TypeTag::Unset, i)),
        }
    }

    /// Replaces the attribute `name` of the object behind `v`. On an error
    /// the arena is unchanged.
    pub fn set_attr(&mut self, v: Value, name: &str, new_value: Value, env: &Env) -> (r: Result<
        (),
        VmError,
    >)
        ensures
            match r {
                Ok(_) => set_spec(old(self)@, env@, v, name@, new_value) == Ok::<
                    Map<Handle, ObjectView>,
                    ErrorView,
                >(final(self)@),
                Err(e) => set_spec(old(self)@, env@, v, name@, new_value) == Err::<
                    Map<Handle, ObjectView>,
                    ErrorView,
                >(e@) && final(self)@ == old(self)@,
            },
            final(self).issued() == old(self).issued(),
            final(self).fresh() == old(self).fresh(),
    {
        let h = match v {
            Value::Ref(h) => h,
            Value::Unset => {
                return Err(attribute_not_found(TypeTag::Unset, name));
            },
        };
        if h.index >= self.slots.len() || self.slots[h.index].generation != h.generation {
            return Err(attribute_not_found(TypeTag::Unset, name));
        }
        let slot = &mut self.slots[h.index];
        let r = match &mut slot.object {
            Some(obj) => obj.set(name, &new_value, env),
            None => Err(attribute_not_found(TypeTag::Unset, name)),
        };
        proof {
            assert(self.slots@.len() == old(self).slots@.len());
            assert(self.issued() =~= old(self).issued());
            assert(self.free@ == old(self).free@);
            lemma_pick_same(old(self).slots@, self.slots@, self.free@);
            lemma_pick_usable(self.slots@, self.free@);
            if let Some(i) = pick(self.slots@, self.free@) {
                assert(old(self).slots@[i as int].generation == self.slots@[i as int].generation);
            }
            assert(self.slots.len() == old(self).slots.len());
            match r {
                Ok(_) => {
                    assert(self@ =~= old(self)@.insert(
                        h,
                        object_set(old(self)@[h], env@, name@, new_value)->Ok_0,
                    ));
                },
                Err(_) => {
                    assert(self@ =~= old(self)@);
                },
            }
        }
        r
    }
}

/// The object `obj` holds a reference to the object behind `h`.
pub open spec fn refers(obj: ObjectView, h: Handle) -> bool {
    obj.children().contains(Value::Ref(h))
}

/// The object behind `h` is stored, and `n` references lead from a root to
/// it.
pub open spec fn reach_in(heap: Map<Handle, ObjectView>, roots: Seq<Value>, h: Handle, n: nat) -> bool
    decreases n,
{
    &&& heap.contains_key(h)
    &&& if n == 0 {
        roots.contains(Value::Ref(h))
    } else {
        exists|p: Handle| reach_in(heap, roots, p, (n - 1) as nat) && #[trigger] refers(heap[p], h)
    }
}

/// The object behind `h` is stored, and references lead from a root to it.
pub open spec fn reachable(heap: Map<Handle, ObjectView>, roots: Seq<Value>, h: Handle) -> bool {
    exists|n: nat| reach_in(heap, roots, h, n)
}

/// The objects that a collection with these roots keeps: the reachable
/// ones, unchanged.
pub open spec fn survivors(heap: Map<Handle, ObjectView>, roots: Seq<Value>) -> Map<
    Handle,
    ObjectView,
> {
    heap.restrict(Set::new(|h: Handle| reachable(heap, roots, h)))
}

/// A collection keeps every object that a root refers to.
pub proof fn lemma_roots_survive(heap: Map<Handle, ObjectView>, roots: Seq<Value>, h: Handle)
    requires
        heap.contains_key(h),
        roots.contains(Value::Ref(h)),
    ensures
        survivors(heap, roots).contains_key(h),
        survivors(heap, roots)[h] == heap[h],
{
    assert(reach_in(heap, roots, h, 0));
}

/// A collection keeps every object that a kept object refers to, so it
/// leaves no reference dangling that did not dangle before.
pub proof fn lemma_children_survive(
    heap: Map<Handle, ObjectView>,
    roots: Seq<Value>,
    parent: Handle,
    h: Handle,
)
    requires
        survivors(heap, roots).contains_key(parent),
        refers(heap[parent], h),
        heap.contains_key(h),
    ensures
        survivors(heap, roots).contains_key(h),
        survivors(heap, roots)[h] == heap[h],
{
    let n = choose|n: nat| reach_in(heap, roots, parent, n);
    assert(((n + 1) - 1) as nat == n);
    assert(reach_in(heap, roots, h, n + 1));
}

/// A collection never reclaims a reachable object, reclaims every other,
/// and changes none.
pub proof fn lemma_survivors(heap: Map<Handle, ObjectView>, roots: Seq<Value>, h: Handle)
    ensures
        survivors(heap, roots).contains_key(h) <==> reachable(heap, roots, h),
        survivors(heap, roots).contains_key(h) ==> heap.contains_key(h) && survivors(
            heap,
            roots,
        )[h] == heap[h],
{
    if reachable(heap, roots, h) {
        let n = choose|n: nat| reach_in(heap, roots, h, n);
        assert(heap.contains_key(h));
    }
}

/// The number of cells without a mark.
spec fn unmarked(marks: Seq<bool>) -> nat
    decreases marks.len(),
{
    if marks.len() == 0 {
        0
    } else {
        unmarked(marks.drop_last()) + if marks.last() {
            0nat
        } else {
            1nat
        }
    }
}

proof fn lemma_mark_one(marks: Seq<bool>, i: int)
    requires
        0 <= i < marks.len(),
        !marks[i],
    ensures
        unmarked(marks.update(i, true)) + 1 == unmarked(marks),
    decreases marks.len(),
{
    let after = marks.update(i, true);
    if i == marks.len() - 1 {
        assert(after.drop_last() =~= marks.drop_last());
    } else {
        assert(after.drop_last() =~= marks.drop_last().update(i, true));
        lemma_mark_one(marks.drop_last(), i);
    }
}

impl Heap {
    /// The handle of the object in cell `i`.
    spec fn handle_at(&self, i: int) -> Handle {
        Handle { index: i as usize, generation: self.slots@[i].generation }
    }

    /// The cell `i` holds an object.
    spec fn occupied(&self, i: int) -> bool {
        0 <= i < self.slots@.len() && self.slots@[i].object is Some
    }

    /// The references that the object in cell `i` holds.
    spec fn children(&self, i: int) -> Seq<Value> {
        self.slots@[i].object->0@.children()
    }

    /// The cell of the object that `v` refers to.
    spec fn cell_of(&self, v: Value) -> Option<int> {
        match v {
            Value::Ref(h) => if self.live(h) {
                Some(h.index as int)
            } else {
                None
            },
            Value::Unset => None,
        }
    }

    /// Every marked cell holds a reachable object.
    spec fn sound(&self, roots: Seq<Value>, marks: Seq<bool>) -> bool {
        &&& marks.len() == self.slots@.len()
        &&& forall|i: int|
            0 <= i < marks.len() && #[trigger] marks[i] ==> self.occupied(i) && reachable(
                self@,
                roots,
                self.handle_at(i),
            )
    }

    /// The object behind `v`, if there is one, is marked.
    spec fn covered(&self, marks: Seq<bool>, v: Value) -> bool {
        self.cell_of(v) matches Some(x) ==> marks[x]
    }

    /// The objects behind the first `upto` of `values` are marked.
    spec fn all_covered(&self, marks: Seq<bool>, values: Seq<Value>, upto: int) -> bool {
        forall|k: int| 0 <= k < upto ==> self.covered(marks, #[trigger] values[k])
    }

    /// Every marked cell that is neither on the work list nor the current
    /// one has all its children marked.
    spec fn closed(&self, marks: Seq<bool>, work: Seq<usize>, current: int) -> bool {
        forall|i: usize|
            i < marks.len() && #[trigger] marks[i as int] && !work.contains(i) && i != current
                ==> self.all_covered(
                marks,
                self.children(i as int),
                self.children(i as int).len() as int,
            )
    }

    /// Every entry of the work list is a marked cell.
    spec fn pending(&self, marks: Seq<bool>, work: Seq<usize>) -> bool {
        forall|k: int| 0 <= k < work.len() ==> (#[trigger] work[k]) < marks.len() && marks[work[k] as int]
    }

    proof fn lemma_live_cell(&self, h: Handle)
        ensures
            self.live(h) <==> self@.contains_key(h),
            self.live(h) ==> self.occupied(h.index as int) && self.handle_at(h.index as int) == h,
    {
    }

    /// Where the roots are marked and the marks are closed under
    /// references, everything reachable is marked.
    proof fn lemma_complete(&self, roots: Seq<Value>, marks: Seq<bool>, h: Handle, n: nat)
        requires
            marks.len() == self.slots@.len(),
            self.all_covered(marks, roots, roots.len() as int),
            self.closed(marks, Seq::empty(), -1),
            reach_in(self@, roots, h, n),
        ensures
            marks[h.index as int],
        decreases n,
    {
        self.lemma_live_cell(h);
        assert(self@.contains_key(h));
        if n == 0 {
            assert(roots.contains(Value::Ref(h)));
            let k = choose|k: int| 0 <= k < roots.len() && roots[k] == Value::Ref(h);
            assert(self.cell_of(roots[k]) == Some(h.index as int));
            assert(self.covered(marks, roots[k]));
        } else {
            let p = choose|p: Handle|
                reach_in(self@, roots, p, (n - 1) as nat) && #[trigger] refers(self@[p], h);
            self.lemma_complete(roots, marks, p, (n - 1) as nat);
            self.lemma_live_cell(p);
            let i = p.index as int;
            assert(marks[p.index as int]);
            assert(!Seq::<usize>::empty().contains(p.index));
            let kids = self.children(i);
            assert(self.all_covered(marks, kids, kids.len() as int));
            assert(kids.contains(Value::Ref(h)));
            let j = choose|j: int| 0 <= j < kids.len() && kids[j] == Value::Ref(h);
            assert(self.covered(marks, kids[j]));
        }
    }

    /// Marks the object behind `v` and puts it on the work list, unless it
    /// is marked already.
    fn visit(&self, v: Value, marks: &mut Vec<bool>, work: &mut Vec<usize>)
        requires
            old(marks)@.len() == self.slots@.len(),
        ensures
            match self.cell_of(v) {
                Some(x) => {
                    &&& final(marks)@ == old(marks)@.update(x, true)
                    &&& final(work)@ == if old(marks)@[x] {
                        old(work)@
                    } else {
                        old(work)@.push(x as usize)
                    }
                },
                None => final(marks)@ == old(marks)@ && final(work)@ == old(work)@,
            },
    {
        match v {
            Value::Ref(h) => {
                if h.index < self.slots.len() && self.slots[h.index].generation == h.generation
                    && self.slots[h.index].object.is_some() {
                    if !marks[h.index] {
                        marks.set(h.index, true);
                        work.push(h.index);
                    } else {
                        assert(marks@ =~= old(marks)@.update(h.index as int, true));
                    }
                }
            },
            Value::Unset => {},
        }
    }

    /// What a visit keeps and establishes.
    proof fn lemma_visit(
        &self,
        roots: Seq<Value>,
        v: Value,
        before: Seq<bool>,
        work_before: Seq<usize>,
        after: Seq<bool>,
        work_after: Seq<usize>,
        current: int,
    )
        requires
            self.sound(roots, before),
            self.pending(before, work_before),
            self.closed(before, work_before, current),
            self.cell_of(v) matches Some(x) ==> reachable(self@, roots, v->Ref_0),
            match self.cell_of(v) {
                Some(x) => {
                    &&& after == before.update(x, true)
                    &&& work_after == if before[x] {
                        work_before
                    } else {
                        work_before.push(x as usize)
                    }
                },
                None => after == before && work_after == work_before,
            },
        ensures
            self.sound(roots, after),
            self.pending(after, work_after),
            self.closed(after, work_after, current),
            self.covered(after, v),
            unmarked(after) + work_after.len() == unmarked(before) + work_before.len(),
            forall|w: Value| self.covered(before, w) ==> self.covered(after, w),
    {
        match self.cell_of(v) {
            Some(x) => {
                let h = v->Ref_0;
                self.lemma_live_cell(h);
                if !before[x] {
                    lemma_mark_one(before, x);
                    assert(work_after[work_before.len() as int] == x as usize);
                    assert(work_after.contains(x as usize));
                    assert forall|k: int| 0 <= k < work_after.len() implies (
                    #[trigger] work_after[k]) < after.len() && after[work_after[k] as int] by {
                        if k < work_before.len() {
                            assert(work_after[k] == work_before[k]);
                        }
                    }
                } else {
                    assert(after =~= before);
                }
                assert forall|i: usize|
                    i < after.len() && #[trigger] after[i as int] && !work_after.contains(i) && i
                        != current implies self.all_covered(
                    after,
                    self.children(i as int),
                    self.children(i as int).len() as int,
                ) by {
                    let kids = self.children(i as int);
                    if i != x || before[x] {
                        assert(before[i as int]);
                        if work_before.contains(i) {
                            let k = choose|k: int| 0 <= k < work_before.len() && work_before[k] == i;
                            assert(work_after[k] == i);
                        }
                        assert(self.all_covered(before, kids, kids.len() as int));
                        assert forall|k: int| 0 <= k < kids.len() implies self.covered(
                            after,
                            #[trigger] kids[k],
                        ) by {
                            assert(self.covered(before, kids[k]));
                        }
                    } else {
                        assert(work_after[work_before.len() as int] == i);
                    }
                }
            },
            None => {},
        }
    }

    /// Marks the cells of the objects that are reachable from `roots`.
    fn mark(&self, roots: &Vec<Value>) -> (marks: Vec<bool>)
        ensures
            marks@.len() == self.slots@.len(),
            forall|i: int|
                0 <= i < marks@.len() ==> (#[trigger] marks@[i] <==> self.occupied(i) && reachable(
                    self@,
                    roots@,
                    self.handle_at(i),
                )),
    {
        let n = self.slots.len();
        let mut marks: Vec<bool> = Vec::new();
        while marks.len() < n
            invariant
                n == self.slots@.len(),
                marks@.len() <= n,
                forall|i: int| 0 <= i < marks@.len() ==> !marks@[i],
            decreases n - marks@.len(),
        {
            marks.push(false);
        }
        let mut work: Vec<usize> = Vec::new();
        let mut k: usize = 0;
        while k < roots.len()
            invariant
                k <= roots.len(),
                self.sound(roots@, marks@),
                self.pending(marks@, work@),
                self.all_covered(marks@, roots@, k as int),
                forall|i: usize| i < marks@.len() && #[trigger] marks@[i as int] ==> work@.contains(i),
            decreases roots.len() - k,
        {
            let ghost before = marks@;
            let ghost work_before = work@;
            let v = roots[k];
            proof {
                if let Some(x) = self.cell_of(v) {
                    let h = v->Ref_0;
                    self.lemma_live_cell(h);
                    assert(roots@[k as int] == Value::Ref(h));
                    assert(reach_in(self@, roots@, h, 0));
                }
            }
            self.visit(v, &mut marks, &mut work);
            proof {
                self.lemma_visit(roots@, v, before, work_before, marks@, work@, -1);
                assert forall|i: usize| i < marks@.len() && #[trigger] marks@[i as int] implies work@.contains(
                    i,
                ) by {
                    if before[i as int] {
                        let w = choose|w: int| 0 <= w < work_before.len() && work_before[w] == i;
                        assert(work@[w] == i);
                    } else {
                        assert(work@[work_before.len() as int] == i);
                    }
                }
            }
            k += 1;
        }
        while work.len() > 0
            invariant
                self.sound(roots@, marks@),
                self.pending(marks@, work@),
                self.all_covered(marks@, roots@, roots@.len() as int),
                self.closed(marks@, work@, -1),
            decreases unmarked(marks@) + work@.len(),
        {
            let ghost popped_from = work@;
            let i = work.pop().unwrap();
            assert(popped_from[popped_from.len() - 1] == i);
            let ghost total = unmarked(marks@) + work@.len();
            proof {
                assert(work@ =~= popped_from.drop_last());
                assert forall|x: usize|
                    x < marks@.len() && #[trigger] marks@[x as int] && !work@.contains(x) && x
                        != i implies self.all_covered(
                    marks@,
                    self.children(x as int),
                    self.children(x as int).len() as int,
                ) by {
                    if popped_from.contains(x) {
                        let w = choose|w: int| 0 <= w < popped_from.len() && popped_from[w] == x;
                        if w < work@.len() {
                            assert(work@[w] == x);
                        }
                        assert(false);
                    }
                    assert(!popped_from.contains(x));
                }
                assert(self.closed(marks@, work@, i as int));
                assert forall|w: int| 0 <= w < work@.len() implies (#[trigger] work@[w]) < marks@.len()
                    && marks@[work@[w] as int] by {
                    assert(work@[w] == popped_from[w]);
                }
            }
            match &self.slots[i].object {
                Some(Object::Instance(inst)) => {
                    let mut j: usize = 0;
                    while j < inst.attrs.len()
                        invariant
                            j <= inst.attrs@.len(),
                            i < marks@.len(),
                            marks@[i as int],
                            self.slots@[i as int].object == Some(Object::Instance(*inst)),
                            self.sound(roots@, marks@),
                            self.pending(marks@, work@),
                            self.all_covered(marks@, roots@, roots@.len() as int),
                            self.closed(marks@, work@, i as int),
                            self.all_covered(marks@, self.children(i as int), j as int),
                            unmarked(marks@) + work@.len() == total,
                        decreases inst.attrs@.len() - j,
                    {
                        let ghost before = marks@;
                        let ghost work_before = work@;
                        let v = inst.attrs[j];
                        assert(self.children(i as int) == inst.attrs@);
                        proof {
                            if let Some(x) = self.cell_of(v) {
                                let h = v->Ref_0;
                                let parent = self.handle_at(i as int);
                                self.lemma_live_cell(h);
                                self.lemma_live_cell(parent);
                                let depth = choose|d: nat| reach_in(self@, roots@, parent, d);
                                assert(self@[parent].children()[j as int] == Value::Ref(h));
                                assert(refers(self@[parent], h));
                                assert(((depth + 1) - 1) as nat == depth);
                                assert(reach_in(self@, roots@, h, depth + 1));
                            }
                        }
                        self.visit(v, &mut marks, &mut work);
                        proof {
                            self.lemma_visit(roots@, v, before, work_before, marks@, work@, i as int);
                        }
                        j += 1;
                    }
                    assert(self.children(i as int) == inst.attrs@);
                },
                _ => {
                    assert(self.children(i as int) =~= Seq::<Value>::empty());
                },
            }
            assert(self.closed(marks@, work@, -1));
        }
        proof {
            assert(work@ =~= Seq::<usize>::empty());
            assert forall|i: int|
                0 <= i < marks@.len() && self.occupied(i) && reachable(
                    self@,
                    roots@,
                    self.handle_at(i),
                ) implies #[trigger] marks@[i] by {
                let d = choose|d: nat| reach_in(self@, roots@, self.handle_at(i), d);
                self.lemma_complete(roots@, marks@, self.handle_at(i), d);
            }
        }
        marks
    }

    /// Reclaims every object that is not reachable from `roots`. What is
    /// reachable stays, under its handle and unchanged. The handles of the
    /// reclaimed objects stay given out: they are never used again.
    pub fn collect(&mut self, roots: &Vec<Value>)
        ensures
            final(self)@ == survivors(old(self)@, roots@),
            final(self).issued() == old(self).issued(),
    {
        let marks = self.mark(roots);
        let n = self.slots.len();
        let mut i: usize = 0;
        while i < n
            invariant
                i <= n,
                n == self.slots@.len(),
                n == old(self).slots@.len(),
                marks@.len() == n,
                forall|k: int|
                    0 <= k < n ==> (#[trigger] self.slots@[k]).generation == old(
                        self,
                    ).slots@[k].generation,
                forall|k: int|
                    i <= k < n ==> (#[trigger] self.slots@[k]).object == old(self).slots@[k].object,
                forall|k: int|
                    0 <= k < i ==> (#[trigger] self.slots@[k]).object == if marks@[k] {
                        old(self).slots@[k].object
                    } else {
                        None
                    },
            decreases n - i,
        {
            if !marks[i] && self.slots[i].object.is_some() {
                let generation = self.slots[i].generation;
                self.slots.set(i, Slot { generation, object: None });
                self.free.push(i);
            }
            i += 1;
        }
        proof {
            let kept = survivors(old(self)@, roots@);
            assert forall|h: Handle| self@.contains_key(h) <==> kept.contains_key(h) by {
                old(self).lemma_live_cell(h);
                self.lemma_live_cell(h);
                if h.index < n {
                    let k = h.index as int;
                    assert(self.slots@[k].generation == old(self).slots@[k].generation);
                    assert(marks@[k] <==> old(self).occupied(k) && reachable(
                        old(self)@,
                        roots@,
                        old(self).handle_at(k),
                    ));
                }
            }
            assert forall|h: Handle| self@.contains_key(h) implies self@[h] == kept[h] by {
                old(self).lemma_live_cell(h);
                self.lemma_live_cell(h);
            }
            assert(self@ =~= kept);
            assert(self.issued() =~= old(self).issued());
        }
    }
}

} // verus!
