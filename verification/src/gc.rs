use vstd::prelude::*;

use crate::objects::{entry_refs, fnv_hash, lemma_children_cover, lemma_with_mark, value_refs, Object, Str};
use crate::table::Table;
use crate::token::bytes_eq;
use crate::value::{GcRef, Value};

verus! {

/// The collected heap: the objects, the table of interned strings, the grey
/// stack of the mark phase, the float literals, and the allocation level at
/// which the next collection is due.
pub struct Gc {
    next_gc: usize,
    heap: Vec<Option<Object>>,
    strings: Table,
    grey_stack: Vec<GcRef>,
    floats: Vec<Vec<u8>>,
}

/// A slot after the sweep: a marked object stays, unmarked; any other is freed.
pub open spec fn swept(slot: Option<Object>) -> Option<Object> {
    match slot {
        Some(o) => if o.header().marked {
            Some(o.with_mark(false))
        } else {
            None
        },
        None => None,
    }
}

impl Gc {
    pub closed spec fn heap(&self) -> Seq<Option<Object>> {
        self.heap@
    }

    pub closed spec fn grey(&self) -> Seq<GcRef> {
        self.grey_stack@
    }

    pub closed spec fn strings(&self) -> Table {
        self.strings
    }

    pub closed spec fn next_gc_spec(&self) -> usize {
        self.next_gc
    }

    pub closed spec fn floats(&self) -> Seq<Seq<u8>> {
        self.floats@.map_values(|f: Vec<u8>| f@)
    }

    /// Whether `r` names an object on the heap.
    pub open spec fn live(&self, r: GcRef) -> bool {
        r.index < self.heap().len() && self.heap()[r.index as int] is Some
    }

    /// The object that `r` names.
    pub open spec fn obj(&self, r: GcRef) -> Object {
        self.heap()[r.index as int]->Some_0
    }

    pub open spec fn is_marked(&self, r: GcRef) -> bool {
        self.live(r) && self.obj(r).header().marked
    }

    /// Whether `r` names an interned string.
    pub open spec fn interned(&self, r: GcRef) -> bool {
        self.strings().has_key(r)
    }

    /// The bytes of the string object `r`.
    pub open spec fn str_bytes(&self, r: GcRef) -> Seq<u8> {
        self.obj(r)->Str_0.s@
    }

    /// `to` is `from`, or is reached from the live object `from` by
    /// following at most `n` of the references that the collector traces.
    pub open spec fn reaches(&self, from: GcRef, to: GcRef, n: nat) -> bool
        decreases n,
    {
        from == to || (n > 0 && self.live(from) && exists|k: int|
            0 <= k < self.obj(from).children().len()
                && self.reaches(#[trigger] self.obj(from).children()[k], to, (n - 1) as nat))
    }

    /// Every object that a live object refers to is live.
    pub open spec fn closed_heap(&self) -> bool {
        forall|r: GcRef, k: int|
            self.live(r) && 0 <= k < self.obj(r).children().len() ==> self.live(#[trigger] self.obj(r).children()[k])
    }

    /// The grey stack holds marked objects.
    pub open spec fn grey_ok(&self) -> bool {
        forall|k: int| 0 <= k < self.grey().len() ==> self.is_marked(#[trigger] self.grey()[k])
    }

    /// A marked object that is off the grey stack (but for `ex`) has all its children marked.
    pub open spec fn tricolor_except(&self, ex: Option<GcRef>) -> bool {
        forall|r: GcRef, k: int|
            self.is_marked(r) && !self.grey().contains(r) && ex != Some(r) && 0 <= k < self.obj(r).children().len()
                ==> self.is_marked(#[trigger] self.obj(r).children()[k])
    }

    /// The interned strings are live string objects with distinct contents and correct hashes.
    pub open spec fn strings_ok(&self) -> bool {
        &&& self.strings().wf()
        &&& forall|k: GcRef| #[trigger] self.interned(k) ==> self.live(k) && self.obj(k) is Str
            && self.obj(k)->Str_0.hash == fnv_hash(self.str_bytes(k))
        &&& forall|k1: GcRef, k2: GcRef|
            #[trigger] self.interned(k1) && #[trigger] self.interned(k2) && k1 != k2
                ==> self.str_bytes(k1) != self.str_bytes(k2)
    }

    pub open spec fn inv(&self, ex: Option<GcRef>) -> bool {
        &&& self.closed_heap()
        &&& self.grey_ok()
        &&& self.tricolor_except(ex)
        &&& self.strings_ok()
    }

    pub open spec fn wf(&self) -> bool {
        self.inv(None)
    }

    /// No cycle of references can be reached from the grey objects: some rank
    /// drops along every reference that tracing can follow from them, so
    /// tracing ends.
    pub open spec fn grey_acyclic(&self) -> bool {
        exists|rank: spec_fn(GcRef) -> nat| #[trigger] grey_ranked(*self, rank)
    }

    /// `later` holds the objects of `self` in the same slots with the same
    /// contents; marks may have been added, and the strings, the float
    /// literals and the collection threshold are as they were.
    pub open spec fn keeps_objects(&self, later: &Gc) -> bool {
        &&& later.heap().len() == self.heap().len()
        &&& forall|q: GcRef| #[trigger] later.live(q) == self.live(q)
        &&& forall|q: GcRef| self.live(q) ==> #[trigger] later.obj(q).with_mark(false) == self.obj(q).with_mark(false)
        &&& forall|q: GcRef| self.live(q) ==> #[trigger] later.obj(q).children() == self.obj(q).children()
        &&& forall|q: GcRef| self.is_marked(q) ==> #[trigger] later.is_marked(q)
        &&& later.strings() == self.strings()
        &&& later.next_gc_spec() == self.next_gc_spec()
        &&& later.floats() == self.floats()
    }

    /// `later` holds the objects of `self` in the same slots, unchanged, and
    /// perhaps more after them.
    pub open spec fn extends(&self, later: &Gc) -> bool {
        &&& later.heap().len() >= self.heap().len()
        &&& forall|q: GcRef| self.live(q) ==> #[trigger] later.live(q) && later.obj(q) == self.obj(q)
    }

    proof fn lemma_heap_bound(&self)
        ensures
            self.heap().len() <= usize::MAX,
    {
        assert(self.heap.len() == self.heap@.len());
    }

    proof fn lemma_same_heap(a: &Gc, b: &Gc, ex: Option<GcRef>)
        requires
            a.inv(ex),
            b.heap() == a.heap(),
            b.grey() == a.grey(),
        ensures
            b.closed_heap(),
            b.grey_ok(),
            b.tricolor_except(ex),
    {
        assert forall|q: GcRef, k: int|
            b.live(q) && 0 <= k < b.obj(q).children().len() implies b.live(#[trigger] b.obj(q).children()[k]) by {
            assert(a.obj(q) == b.obj(q));
            assert(a.live(a.obj(q).children()[k]));
        }
        assert forall|k: int| 0 <= k < b.grey().len() implies b.is_marked(#[trigger] b.grey()[k]) by {
            assert(a.is_marked(a.grey()[k]));
        }
        assert forall|q: GcRef, k: int|
            b.is_marked(q) && !b.grey().contains(q) && ex != Some(q) && 0 <= k < b.obj(q).children().len()
                implies b.is_marked(#[trigger] b.obj(q).children()[k]) by {
            assert(a.obj(q) == b.obj(q));
            assert(a.is_marked(q));
            assert(a.is_marked(a.obj(q).children()[k]));
        }
    }

    proof fn lemma_keeps_trans(a: &Gc, b: &Gc, c: &Gc)
        requires
            a.keeps_objects(b),
            b.keeps_objects(c),
        ensures
            a.keeps_objects(c),
    {
    }

    /// An empty heap; the first collection is due at 1 MiB.
    pub fn new() -> (gc: Gc)
        ensures
            gc.wf(),
            gc.heap().len() == 0,
            gc.grey().len() == 0,
            gc.strings().entries().len() == 0,
            gc.floats().len() == 0,
            gc.next_gc_spec() == 1024 * 1024,
    {
        Gc { next_gc: 1024 * 1024, heap: Vec::new(), strings: Table::new(), grey_stack: Vec::new(), floats: Vec::new() }
    }

    /// The object that `r` names.
    pub fn get(&self, r: GcRef) -> (o: &Object)
        requires
            self.live(r),
        ensures
            *o == self.obj(r),
    {
        match &self.heap[r.index] {
            Some(o) => o,
            None => vstd::pervasive::unreached(),
        }
    }

    /// Sets the mark of the live object `r`; nothing else changes.
    fn set_mark(&mut self, r: GcRef, m: bool)
        requires
            old(self).live(r),
        ensures
            final(self).heap() == old(self).heap().update(r.index as int, Some(old(self).obj(r).with_mark(m))),
            final(self).grey() == old(self).grey(),
            final(self).strings() == old(self).strings(),
            final(self).next_gc_spec() == old(self).next_gc_spec(),
            final(self).floats() == old(self).floats(),
    {
        match &mut self.heap[r.index] {
            Some(o) => o.set_marked(m),
            None => {},
        }
    }

    /// Marks `r` and puts it on the grey stack, whether it was marked or not.
    fn mark_object_inner(&mut self, r: GcRef, Ghost(ex): Ghost<Option<GcRef>>)
        requires
            old(self).inv(ex),
            old(self).live(r),
        ensures
            final(self).inv(ex),
            final(self).is_marked(r),
            old(self).keeps_objects(final(self)),
            forall|q: GcRef| q != r ==> (#[trigger] final(self).is_marked(q) == old(self).is_marked(q)),
            final(self).grey() == old(self).grey().push(r),
    {
        let ghost before = *self;
        self.set_mark(r, true);
        self.grey_stack.push(r);
        proof {
            lemma_with_mark(before.obj(r), true, false);
                        assert forall|q: GcRef| #[trigger] self.live(q) == before.live(q) by {
                if q.index != r.index && q.index < before.heap().len() {
                    assert(self.heap()[q.index as int] == before.heap()[q.index as int]);
                }
            }
            assert forall|q: GcRef| before.live(q) implies #[trigger] self.obj(q).with_mark(false) == before.obj(q).with_mark(false)
                && self.obj(q).children() == before.obj(q).children() by {
                if q.index != r.index {
                    assert(self.heap()[q.index as int] == before.heap()[q.index as int]);
                }
            }
            assert forall|q: GcRef| q != r implies (#[trigger] self.is_marked(q) == before.is_marked(q)) by {
                if q.index < before.heap().len() && q.index != r.index {
                    assert(self.heap()[q.index as int] == before.heap()[q.index as int]);
                }
            }
            assert forall|k: int| 0 <= k < self.grey().len() implies self.is_marked(#[trigger] self.grey()[k]) by {
                if k < before.grey().len() {
                    assert(self.grey()[k] == before.grey()[k]);
                }
            }
            assert forall|q: GcRef| before.grey().contains(q) implies #[trigger] self.grey().contains(q) by {
                let k = choose|k: int| 0 <= k < before.grey().len() && before.grey()[k] == q;
                assert(self.grey()[k] == q);
            }
            assert(self.grey()[self.grey().len() - 1] == r);
            assert(self.grey().contains(r));
            assert forall|q: GcRef, k: int|
                self.is_marked(q) && !self.grey().contains(q) && ex != Some(q) && 0 <= k < self.obj(q).children().len()
                    implies self.is_marked(#[trigger] self.obj(q).children()[k]) by {
                assert(q != r);
                assert(before.is_marked(q));
                assert(!before.grey().contains(q));
                assert(self.obj(q).children() == before.obj(q).children());
                let c = before.obj(q).children()[k];
                assert(before.is_marked(c));
                if c != r {
                    assert(self.is_marked(c) == before.is_marked(c));
                }
            }
            assert forall|q: GcRef, k: int|
                self.live(q) && 0 <= k < self.obj(q).children().len() implies self.live(#[trigger] self.obj(q).children()[k]) by {
                assert(before.live(q));
                assert(self.obj(q).children() == before.obj(q).children());
                assert(before.live(before.obj(q).children()[k]));
            }
            assert forall|k: GcRef| #[trigger] self.interned(k) implies self.live(k) && self.obj(k) is Str
                && self.obj(k)->Str_0.hash == fnv_hash(self.str_bytes(k)) by {
                assert(before.interned(k));
                lemma_with_mark(before.obj(k), true, false);
            }
            assert forall|k1: GcRef, k2: GcRef|
                #[trigger] self.interned(k1) && #[trigger] self.interned(k2) && k1 != k2
                    implies self.str_bytes(k1) != self.str_bytes(k2) by {
                assert(before.interned(k1) && before.interned(k2));
                lemma_with_mark(before.obj(k1), true, false);
                lemma_with_mark(before.obj(k2), true, false);
            }
        }
    }

    /// Marks the object `r` and puts it on the grey stack, even when it is
    /// marked already.
    pub fn mark_object(&mut self, r: GcRef)
        requires
            old(self).wf(),
            old(self).live(r),
        ensures
            final(self).wf(),
            final(self).is_marked(r),
            old(self).keeps_objects(final(self)),
            forall|q: GcRef| q != r ==> (#[trigger] final(self).is_marked(q) == old(self).is_marked(q)),
            final(self).grey() == old(self).grey().push(r),
    {
        self.mark_object_inner(r, Ghost(None));
    }

    /// Marks the object that `value` refers to, if any.
    pub fn mark_value(&mut self, value: Value)
        requires
            old(self).wf(),
            value.object() matches Some(r) ==> old(self).live(r),
        ensures
            final(self).wf(),
            value.object() matches Some(r) ==> final(self).is_marked(r),
            old(self).keeps_objects(final(self)),
            forall|q: GcRef| Some(q) != value.object() ==> (#[trigger] final(self).is_marked(q) == old(self).is_marked(q)),
            final(self).grey() == old(self).grey() + match value.object() {
                Some(r) => seq![r],
                None => Seq::empty(),
            },
    {
        match value {
            Value::Array(r) => self.mark_object(r),
            Value::BoundMethod(r) => self.mark_object(r),
            Value::Class(r) => self.mark_object(r),
            Value::Closure(r) => self.mark_object(r),
            Value::Function(r) => self.mark_object(r),
            Value::Instance(r) => self.mark_object(r),
            Value::String(r) => self.mark_object(r),
            _ => {},
        }
        proof {
            assert(self.grey() =~= old(self).grey() + match value.object() {
                Some(r) => seq![r],
                None => Seq::empty(),
            });
        }
    }

    /// Marks every key of `table` and every object its values refer to.
    pub fn mark_table(&mut self, table: &Table)
        requires
            old(self).wf(),
            forall|k: int| 0 <= k < entry_refs(table.entries()).len() ==> old(self).live(#[trigger] entry_refs(table.entries())[k]),
        ensures
            final(self).wf(),
            old(self).keeps_objects(final(self)),
            forall|k: int| 0 <= k < entry_refs(table.entries()).len() ==> final(self).is_marked(#[trigger] entry_refs(table.entries())[k]),
            forall|q: GcRef| #[trigger] final(self).is_marked(q) ==> old(self).is_marked(q) || entry_refs(table.entries()).contains(q),
            final(self).grey() == old(self).grey() + entry_refs(table.entries()),
    {
        let refs = table_refs(table);
        let ghost start = *self;
        let mut i: usize = 0;
        while i < refs.len()
            invariant
                self.wf(),
                i <= refs.len(),
                refs@ == entry_refs(table.entries()),
                forall|k: int| 0 <= k < refs@.len() ==> start.live(#[trigger] refs@[k]),
                start.keeps_objects(self),
                forall|k: int| 0 <= k < i ==> self.is_marked(#[trigger] refs@[k]),
                forall|q: GcRef| #[trigger] self.is_marked(q) ==> start.is_marked(q) || refs@.subrange(0, i as int).contains(q),
                self.grey() == start.grey() + refs@.subrange(0, i as int),
            decreases refs.len() - i,
        {
            let ghost before = *self;
            let r = refs[i];
            assert(start.live(refs@[i as int]));
            proof {
                assert(start.keeps_objects(&before));
            }
            self.mark_object(r);
            proof {
                assert(refs@.subrange(0, i + 1) =~= refs@.subrange(0, i as int).push(r));
                Gc::lemma_keeps_trans(&start, &before, self);
                assert forall|q: GcRef| #[trigger] self.is_marked(q) implies start.is_marked(q) || refs@.subrange(0, i + 1).contains(q) by {
                    if q == r {
                        assert(refs@.subrange(0, i + 1)[i as int] == q);
                    } else {
                        assert(before.is_marked(q));
                        if !start.is_marked(q) {
                            let k = choose|k: int| 0 <= k < i && refs@.subrange(0, i as int)[k] == q;
                            assert(refs@.subrange(0, i + 1)[k] == q);
                        }
                    }
                }
            }
            i += 1;
        }
        assert(refs@.subrange(0, refs@.len() as int) =~= refs@);
    }

    /// Marks everything that the grey object `r`, just taken off the grey
    /// stack, refers to, and puts each of those references on the grey stack.
    fn blacken_object(&mut self, r: GcRef)
        requires
            old(self).inv(Some(r)),
            old(self).is_marked(r),
        ensures
            final(self).wf(),
            old(self).keeps_objects(final(self)),
            forall|q: GcRef| #[trigger] final(self).is_marked(q) ==> old(self).is_marked(q) || old(self).obj(r).children().contains(q),
            final(self).grey() == old(self).grey() + old(self).obj(r).children(),
    {
        let children = self.children_of(r);
        let ghost start = *self;
        let mut i: usize = 0;
        while i < children.len()
            invariant
                self.inv(Some(r)),
                start.closed_heap(),
                start.live(r),
                self.is_marked(r),
                i <= children.len(),
                children@ == start.obj(r).children(),
                forall|k: int| 0 <= k < i ==> self.is_marked(#[trigger] children@[k]),
                start.keeps_objects(self),
                forall|q: GcRef| #[trigger] self.is_marked(q) ==> start.is_marked(q) || children@.subrange(0, i as int).contains(q),
                self.grey() == start.grey() + children@.subrange(0, i as int),
            decreases children.len() - i,
        {
            let c = children[i];
            proof {
                assert(start.live(start.obj(r).children()[i as int]));
            }
            let ghost before = *self;
            self.mark_object_inner(c, Ghost(Some(r)));
            proof {
                assert(children@.subrange(0, i + 1) =~= children@.subrange(0, i as int).push(c));
                assert forall|q: GcRef| #[trigger] self.is_marked(q) implies start.is_marked(q) || children@.subrange(0, i + 1).contains(q) by {
                    if q == c {
                        assert(children@.subrange(0, i + 1)[i as int] == q);
                    } else {
                        assert(before.is_marked(q));
                        if !start.is_marked(q) {
                            let k = choose|k: int| 0 <= k < i && children@.subrange(0, i as int)[k] == q;
                            assert(children@.subrange(0, i + 1)[k] == q);
                        }
                    }
                }
                Gc::lemma_keeps_trans(&start, &before, self);
                if c == r {
                    assert(before.is_marked(r));
                }
            }
            i += 1;
        }
        proof {
            assert(children@.subrange(0, children@.len() as int) =~= children@);
            assert forall|q: GcRef, k: int|
                self.is_marked(q) && !self.grey().contains(q) && None::<GcRef> != Some(q) && 0 <= k < self.obj(q).children().len()
                    implies self.is_marked(#[trigger] self.obj(q).children()[k]) by {
                if q == r {
                    assert(self.obj(r).children()[k] == children@[k]);
                }
            }
        }
    }

    /// Blackens grey objects until the grey stack is empty.
    fn trace_references(&mut self)
        requires
            old(self).wf(),
            old(self).grey_acyclic(),
        ensures
            final(self).wf(),
            final(self).grey().len() == 0,
            old(self).keeps_objects(final(self)),
            forall|q: GcRef| #[trigger] final(self).is_marked(q)
                ==> exists|r: GcRef, n: nat| old(self).is_marked(r) && #[trigger] old(self).reaches(r, q, n),
    {
        let ghost start = *self;
        let ghost rank = choose|rank: spec_fn(GcRef) -> nat| grey_ranked(start, rank);
        assert forall|q: GcRef| #[trigger] self.is_marked(q)
            implies exists|r: GcRef, n: nat| start.is_marked(r) && #[trigger] start.reaches(r, q, n) by {
            assert(start.reaches(q, q, 0));
        }
        while self.grey_stack.len() > 0
            invariant
                self.wf(),
                start.keeps_objects(self),
                forall|q: GcRef| #[trigger] self.is_marked(q)
                    ==> exists|r: GcRef, n: nat| start.is_marked(r) && #[trigger] start.reaches(r, q, n),
                forall|k: int| 0 <= k < self.grey().len() ==> descends(start, rank, #[trigger] self.grey()[k]),
            decreases stack_count(start, rank, self.grey()),
        {
            let ghost before = *self;
            let r = self.grey_stack.pop().unwrap();
            let ghost popped = *self;
            proof {
                assert(before.grey()[before.grey().len() - 1] == r);
                assert(popped.grey() =~= before.grey().drop_last());
                assert(popped.heap() == before.heap());
                assert(popped.strings() == before.strings());
                assert(before.is_marked(r));
                assert forall|k: int| 0 <= k < popped.grey().len() implies popped.is_marked(#[trigger] popped.grey()[k]) by {
                    assert(popped.grey()[k] == before.grey()[k]);
                }
                assert forall|q: GcRef| #[trigger] before.grey().contains(q) implies popped.grey().contains(q) || q == r by {
                    let k = choose|k: int| 0 <= k < before.grey().len() && before.grey()[k] == q;
                    if k < before.grey().len() - 1 {
                        assert(popped.grey()[k] == q);
                    }
                }
                assert forall|q: GcRef, k: int|
                    popped.is_marked(q) && !popped.grey().contains(q) && Some(r) != Some(q) && 0 <= k < popped.obj(q).children().len()
                        implies popped.is_marked(#[trigger] popped.obj(q).children()[k]) by {
                    assert(!before.grey().contains(q));
                    assert(popped.obj(q) == before.obj(q));
                    assert(before.is_marked(q));
                    assert(before.is_marked(before.obj(q).children()[k]));
                }
                assert forall|q: GcRef, k: int|
                    popped.live(q) && 0 <= k < popped.obj(q).children().len() implies popped.live(#[trigger] popped.obj(q).children()[k]) by {
                    assert(popped.obj(q) == before.obj(q));
                    assert(before.live(before.obj(q).children()[k]));
                }
                assert forall|k: GcRef| #[trigger] popped.interned(k) implies popped.live(k) && popped.obj(k) is Str
                    && popped.obj(k)->Str_0.hash == fnv_hash(popped.str_bytes(k)) by {
                    assert(before.interned(k));
                }
                assert forall|k1: GcRef, k2: GcRef|
                    #[trigger] popped.interned(k1) && #[trigger] popped.interned(k2) && k1 != k2
                        implies popped.str_bytes(k1) != popped.str_bytes(k2) by {
                    assert(before.interned(k1) && before.interned(k2));
                }
                assert(before.keeps_objects(&popped));
                Gc::lemma_keeps_trans(&start, &before, &popped);
            }
            self.blacken_object(r);
            proof {
                assert forall|q: GcRef| #[trigger] self.is_marked(q)
                    implies exists|r0: GcRef, n: nat| start.is_marked(r0) && #[trigger] start.reaches(r0, q, n) by {
                    if !popped.is_marked(q) {
                        assert(popped.obj(r).children().contains(q));
                        let k = choose|k: int| 0 <= k < popped.obj(r).children().len() && popped.obj(r).children()[k] == q;
                        assert(before.is_marked(r));
                        let (r0, n) = choose|r0: GcRef, n: nat| start.is_marked(r0) && #[trigger] start.reaches(r0, r, n);
                        assert(start.live(r));
                        assert(start.obj(r).children() == popped.obj(r).children());
                        lemma_reaches_extend(start, r0, r, n, k);
                        assert(start.reaches(r0, q, n + 1));
                    } else {
                        assert(before.is_marked(q));
                    }
                }
                Gc::lemma_keeps_trans(&start, &popped, self);
                // the grey objects still descend, and the count of pushes left drops by one
                assert(descends(start, rank, r)) by {
                    assert(descends(start, rank, before.grey()[before.grey().len() - 1]));
                }
                assert(start.live(r));
                let cs = start.obj(r).children();
                assert(popped.obj(r).children() == cs);
                assert(self.grey() == popped.grey() + cs);
                assert forall|k: int| 0 <= k < cs.len() implies rank(cs[k]) < rank(r) by {
                    assert(start.reaches(r, r, 0));
                }
                assert forall|k: int| 0 <= k < self.grey().len() implies descends(start, rank, #[trigger] self.grey()[k]) by {
                    if k < popped.grey().len() {
                        assert(self.grey()[k] == popped.grey()[k]);
                        assert(popped.grey()[k] == before.grey()[k]);
                    } else {
                        let j = k - popped.grey().len();
                        assert(self.grey()[k] == cs[j]);
                        lemma_child_descends(start, rank, r, j);
                    }
                }
                lemma_children_count(start, rank, r, cs.len());
                assert(cs.subrange(0, cs.len() as int) =~= cs);
                lemma_stack_count_append(start, rank, popped.grey(), cs);
                assert(before.grey() =~= popped.grey().push(r));
                assert(before.grey().drop_last() =~= popped.grey());
            }
        }
    }

    /// Takes every string that is not marked out of the table of interned strings.
    fn remove_white_strings(&mut self)
        requires
            old(self).wf(),
        ensures
            final(self).wf(),
            final(self).heap() == old(self).heap(),
            final(self).grey() == old(self).grey(),
            final(self).next_gc_spec() == old(self).next_gc_spec(),
            final(self).floats() == old(self).floats(),
            forall|k: GcRef| #[trigger] final(self).interned(k) <==> old(self).interned(k) && old(self).is_marked(k),
    {
        let mut keys: Vec<GcRef> = Vec::new();
        let mut i: usize = 0;
        while i < self.strings.len()
            invariant
                i <= self.strings().entries().len(),
                keys@.len() == i,
                forall|j: int| 0 <= j < i ==> #[trigger] keys@[j] == self.strings().entries()[j].key,
            decreases self.strings().entries().len() - i,
        {
            keys.push(self.strings.entry(i).key);
            i += 1;
        }
        let ghost start = *self;
        assert forall|k: GcRef| #[trigger] start.interned(k) implies keys@.contains(k) by {
            let j = choose|j: int| 0 <= j < start.strings().entries().len() && #[trigger] start.strings().entries()[j].key == k;
            assert(keys@[j] == k);
        }
        let mut i: usize = 0;
        while i < keys.len()
            invariant
                i <= keys.len(),
                forall|k: GcRef| start.interned(k) ==> keys@.contains(k),
                self.strings().wf(),
                self.heap() == start.heap(),
                self.grey() == start.grey(),
                self.next_gc_spec() == start.next_gc_spec(),
                self.floats() == start.floats(),
                forall|k: GcRef| #[trigger] self.interned(k)
                    <==> start.interned(k) && (start.is_marked(k) || !keys@.subrange(0, i as int).contains(k)),
            decreases keys.len() - i,
        {
            let k = keys[i];
            let ghost before = *self;
            let marked = self.get_marked(k);
            if !marked {
                self.strings.delete(k);
            }
            proof {
                let ghost sub0 = keys@.subrange(0, i as int);
                let ghost sub1 = keys@.subrange(0, i + 1);
                assert(sub1 =~= sub0.push(k));
                assert forall|q: GcRef| #[trigger] self.interned(q)
                    <==> start.interned(q) && (start.is_marked(q) || !sub1.contains(q)) by {
                    if sub0.contains(q) {
                        let j = choose|j: int| 0 <= j < sub0.len() && sub0[j] == q;
                        assert(sub1[j] == q);
                    }
                    if sub1.contains(q) && q != k {
                        let j = choose|j: int| 0 <= j < sub1.len() && sub1[j] == q;
                        assert(sub0[j] == q);
                    }
                    assert(sub1[i as int] == k);
                    assert(before.interned(q) == self.interned(q) || q == k);
                }
            }
            i += 1;
        }
        assert(keys@.subrange(0, keys@.len() as int) =~= keys@);
        proof {
            Gc::lemma_same_heap(&start, self, None);
            assert forall|k: GcRef| #[trigger] self.interned(k) implies self.live(k) && self.obj(k) is Str
                && self.obj(k)->Str_0.hash == fnv_hash(self.str_bytes(k)) by {
                assert(start.interned(k));
            }
            assert forall|k1: GcRef, k2: GcRef|
                #[trigger] self.interned(k1) && #[trigger] self.interned(k2) && k1 != k2
                    implies self.str_bytes(k1) != self.str_bytes(k2) by {
                assert(start.interned(k1) && start.interned(k2));
            }
        }
    }

    /// Whether `r` names an object on the heap.
    pub fn is_live(&self, r: GcRef) -> (b: bool)
        ensures
            b == self.live(r),
    {
        r.index < self.heap.len() && self.heap[r.index].is_some()
    }

    /// Whether `r` names a marked object.
    pub fn marked(&self, r: GcRef) -> (b: bool)
        ensures
            b == self.is_marked(r),
    {
        self.get_marked(r)
    }

    /// Whether `r` names an interned string.
    pub fn is_interned(&self, r: GcRef) -> (b: bool)
        requires
            self.strings().wf(),
        ensures
            b == self.interned(r),
    {
        match self.strings.get(r) {
            Some(_) => true,
            None => false,
        }
    }

    /// The number of objects on the heap.
    pub fn object_count(&self) -> (n: usize)
        ensures
            n == count_live(self.heap()),
    {
        let mut n: usize = 0;
        let mut i: usize = 0;
        while i < self.heap.len()
            invariant
                i <= self.heap().len(),
                n == count_live(self.heap().subrange(0, i as int)),
                n <= i,
            decreases self.heap().len() - i,
        {
            proof {
                assert(self.heap().subrange(0, i + 1).drop_last() =~= self.heap().subrange(0, i as int));
            }
            if self.heap[i].is_some() {
                n += 1;
            }
            i += 1;
        }
        assert(self.heap().subrange(0, self.heap().len() as int) =~= self.heap());
        n
    }

    /// Whether `r` names a marked object.
    fn get_marked(&self, r: GcRef) -> (m: bool)
        ensures
            m == self.is_marked(r),
    {
        if r.index < self.heap.len() {
            match &self.heap[r.index] {
                Some(o) => o.is_marked(),
                None => false,
            }
        } else {
            false
        }
    }

    /// Frees every unmarked object and clears the mark of every other.
    fn sweep(&mut self)
        ensures
            final(self).heap() == old(self).heap().map_values(|slot: Option<Object>| swept(slot)),
            final(self).grey() == old(self).grey(),
            final(self).strings() == old(self).strings(),
            final(self).next_gc_spec() == old(self).next_gc_spec(),
            final(self).floats() == old(self).floats(),
    {
        let ghost start = *self;
        let mut i: usize = 0;
        while i < self.heap.len()
            invariant
                i <= self.heap().len(),
                self.heap().len() == start.heap().len(),
                forall|j: int| 0 <= j < i ==> #[trigger] self.heap()[j] == swept(start.heap()[j]),
                forall|j: int| i <= j < self.heap().len() ==> #[trigger] self.heap()[j] == start.heap()[j],
                self.grey() == start.grey(),
                self.strings() == start.strings(),
                self.next_gc_spec() == start.next_gc_spec(),
                self.floats() == start.floats(),
            decreases self.heap().len() - i,
        {
            let keep = match &self.heap[i] {
                Some(o) => o.is_marked(),
                None => false,
            };
            if keep {
                match &mut self.heap[i] {
                    Some(o) => o.set_marked(false),
                    None => {},
                }
            } else {
                self.heap.set(i, None);
            }
            i += 1;
        }
        assert(self.heap() =~= start.heap().map_values(|slot: Option<Object>| swept(slot)));
    }

    /// A rank for each slot of the heap, from as many rounds as there are
    /// slots in which each object gets one more than the highest rank among
    /// what it refers to (capped at the number of slots). On a heap without
    /// cycles the ranks settle; `ranks_fit` tells whether they did.
    pub fn heap_ranks(&self) -> (ranks: Vec<usize>)
        requires
            self.wf(),
        ensures
            ranks@.len() == self.heap().len(),
    {
        let n = self.heap.len();
        let mut ranks: Vec<usize> = Vec::new();
        let mut i: usize = 0;
        while i < n
            invariant
                i <= n,
                ranks@.len() == i,
                forall|k: int| 0 <= k < i ==> ranks@[k] <= n,
            decreases n - i,
        {
            ranks.push(0);
            i += 1;
        }
        let mut round: usize = 0;
        while round < n
            invariant
                n == self.heap().len(),
                ranks@.len() == n,
                forall|k: int| 0 <= k < n ==> ranks@[k] <= n,
            decreases n - round,
        {
            let mut i: usize = 0;
            while i < n
                invariant
                    n == self.heap().len(),
                    ranks@.len() == n,
                    i <= n,
                    forall|k: int| 0 <= k < n ==> ranks@[k] <= n,
                decreases n - i,
            {
                if self.heap[i].is_some() {
                    let cs = self.children_of(GcRef { index: i });
                    let mut top: usize = 0;
                    let mut j: usize = 0;
                    while j < cs.len()
                        invariant
                            j <= cs@.len(),
                            top <= n,
                            ranks@.len() == n,
                            forall|k: int| 0 <= k < n ==> ranks@[k] <= n,
                        decreases cs.len() - j,
                    {
                        let c = cs[j].index;
                        if c < n && ranks[c] >= top {
                            top = if ranks[c] < n {
                                ranks[c] + 1
                            } else {
                                n
                            };
                        }
                        j += 1;
                    }
                    ranks.set(i, top);
                }
                i += 1;
            }
            round += 1;
        }
        ranks
    }

    /// Whether `ranks` drops along every reference of every object: then no
    /// cycle of references exists, and tracing from any grey objects ends.
    pub fn ranks_fit(&self, ranks: &Vec<usize>) -> (b: bool)
        requires
            self.wf(),
        ensures
            b == ranks_fit_spec(*self, ranks@),
            b ==> self.grey_acyclic(),
    {
        if ranks.len() != self.heap.len() {
            return false;
        }
        let n = self.heap.len();
        let mut i: usize = 0;
        while i < n
            invariant
                n == self.heap().len(),
                ranks@.len() == n,
                i <= n,
                forall|x: GcRef, k: int|
                    x.index < i && self.live(x) && 0 <= k < self.obj(x).children().len() ==> rank_drops(*self, ranks@, x, k),
            decreases n - i,
        {
            if self.heap[i].is_some() {
                let x = GcRef { index: i };
                let cs = self.children_of(x);
                let mut j: usize = 0;
                while j < cs.len()
                    invariant
                        n == self.heap().len(),
                        ranks@.len() == n,
                        i < n,
                        self.live(x),
                        x.index == i,
                        cs@ == self.obj(x).children(),
                        j <= cs@.len(),
                        forall|k: int| 0 <= k < j ==> rank_drops(*self, ranks@, x, k),
                    decreases cs.len() - j,
                {
                    let c = cs[j].index;
                    if c >= n || ranks[c] >= ranks[i] {
                        proof {
                            assert(!rank_drops(*self, ranks@, x, j as int));
                        }
                        return false;
                    }
                    j += 1;
                }
                proof {
                    assert forall|y: GcRef, k: int|
                        y.index < i + 1 && self.live(y) && 0 <= k < self.obj(y).children().len() implies rank_drops(*self, ranks@, y, k) by {
                        if y.index == i {
                            assert(y == x);
                        }
                    }
                }
            }
            i += 1;
        }
        proof {
            let rank: spec_fn(GcRef) -> nat = |x: GcRef| if x.index < ranks@.len() {
                ranks@[x.index as int] as nat
            } else {
                0nat
            };
            assert forall|k: int| 0 <= k < self.grey().len() implies descends(*self, rank, #[trigger] self.grey()[k]) by {
                assert forall|y: GcRef, m: nat, j: int|
                    self.reaches(self.grey()[k], y, m) && self.live(y) && 0 <= j < self.obj(y).children().len()
                        implies rank(self.obj(y).children()[j]) < rank(y) by {
                    assert(rank_drops(*self, ranks@, y, j));
                }
            }
            assert(grey_ranked(*self, rank));
        }
        true
    }

    /// Sets the next threshold to twice `bytes_allocated`, the bytes in use
    /// once a collection has freed what it could.
    pub fn set_threshold(&mut self, bytes_allocated: usize)
        requires
            old(self).wf(),
            bytes_allocated <= usize::MAX / 2,
        ensures
            final(self).wf(),
            final(self).next_gc_spec() == bytes_allocated * 2,
            final(self).heap() == old(self).heap(),
            final(self).grey() == old(self).grey(),
            final(self).strings() == old(self).strings(),
            final(self).floats() == old(self).floats(),
    {
        let ghost before = *self;
        self.next_gc = bytes_allocated * 2;
        proof {
            Gc::lemma_same_heap(&before, self, None);
            assert(self.strings() == before.strings());
            assert forall|k: GcRef| #[trigger] self.interned(k) implies self.live(k) && self.obj(k) is Str
                && self.obj(k)->Str_0.hash == fnv_hash(self.str_bytes(k)) by {
                assert(before.interned(k));
            }
            assert forall|k1: GcRef, k2: GcRef|
                #[trigger] self.interned(k1) && #[trigger] self.interned(k2) && k1 != k2
                    implies self.str_bytes(k1) != self.str_bytes(k2) by {
                assert(before.interned(k1) && before.interned(k2));
            }
        }
    }

    /// Traces from the grey objects, drops the strings that nothing marked,
    /// frees every object that is not marked, and sets the next threshold to
    /// twice the bytes now allocated. Tracing puts every reference it meets on
    /// the grey stack, marked or not, so it ends only where no cycle of
    /// references can be reached from the grey objects (`ranks_fit` tests a
    /// heap for that).
    pub fn collect_garbage(&mut self, bytes_allocated: usize)
        requires
            old(self).wf(),
            old(self).grey_acyclic(),
            bytes_allocated <= usize::MAX / 2,
        ensures
            final(self).wf(),
            final(self).grey().len() == 0,
            final(self).heap().len() == old(self).heap().len(),
            forall|q: GcRef| old(self).is_marked(q) ==> #[trigger] final(self).live(q),
            forall|r: GcRef, q: GcRef, n: nat|
                old(self).is_marked(r) && #[trigger] old(self).reaches(r, q, n) ==> final(self).live(q),
            forall|q: GcRef| #[trigger] final(self).live(q)
                ==> exists|r: GcRef, n: nat| old(self).is_marked(r) && #[trigger] old(self).reaches(r, q, n),
            forall|q: GcRef| #[trigger] final(self).live(q)
                ==> old(self).live(q) && final(self).obj(q) == old(self).obj(q).with_mark(false),
            forall|q: GcRef| !(#[trigger] final(self).is_marked(q)),
            forall|k: GcRef| #[trigger] final(self).interned(k) <==> old(self).interned(k) && final(self).live(k),
            final(self).next_gc_spec() == bytes_allocated * 2,
            final(self).floats() == old(self).floats(),
    {
        let ghost start = *self;
        self.trace_references();
        let ghost traced = *self;
        self.remove_white_strings();
        let ghost cleaned = *self;
        self.sweep();
        self.next_gc = bytes_allocated * 2;
        proof {
            assert forall|q: GcRef| #[trigger] self.live(q) == traced.is_marked(q) by {
                if q.index < self.heap().len() {
                    lemma_with_mark(traced.obj(q), true, false);
                }
            }
            assert forall|q: GcRef| #[trigger] self.live(q) implies self.obj(q) == traced.obj(q).with_mark(false) by {
            }
            assert forall|q: GcRef| #[trigger] self.live(q)
                implies old(self).live(q) && self.obj(q) == old(self).obj(q).with_mark(false) by {
                lemma_with_mark(old(self).obj(q), true, false);
                lemma_with_mark(traced.obj(q), true, false);
                assert(traced.obj(q).with_mark(false) == start.obj(q).with_mark(false));
                lemma_with_mark(old(self).obj(q), false, false);
            }
            assert forall|q: GcRef| !(#[trigger] self.is_marked(q)) by {
                if self.live(q) {
                    lemma_with_mark(traced.obj(q), false, false);
                }
            }
            assert forall|q: GcRef, k: int|
                self.live(q) && 0 <= k < self.obj(q).children().len() implies self.live(#[trigger] self.obj(q).children()[k]) by {
                lemma_with_mark(traced.obj(q), false, false);
                assert(traced.is_marked(q));
                assert(!traced.grey().contains(q));
                assert(traced.is_marked(traced.obj(q).children()[k]));
            }
            assert forall|k: GcRef| #[trigger] self.interned(k) <==> old(self).interned(k) && self.live(k) by {
                assert(cleaned.interned(k) == self.interned(k));
            }
            assert forall|p: GcRef| #[trigger] self.live(p)
                implies old(self).live(p) && self.obj(p).children() == old(self).obj(p).children() by {
                lemma_with_mark(old(self).obj(p), false, false);
            }
            assert forall|r: GcRef, q: GcRef, n: nat|
                old(self).is_marked(r) && #[trigger] old(self).reaches(r, q, n) implies self.live(q) by {
                lemma_reached_survives(*old(self), *self, r, q, n);
            }
            assert forall|k: GcRef| #[trigger] self.interned(k) implies self.live(k) && self.obj(k) is Str
                && self.obj(k)->Str_0.hash == fnv_hash(self.str_bytes(k)) by {
                lemma_with_mark(traced.obj(k), false, false);
            }
            assert forall|k1: GcRef, k2: GcRef|
                #[trigger] self.interned(k1) && #[trigger] self.interned(k2) && k1 != k2
                    implies self.str_bytes(k1) != self.str_bytes(k2) by {
                lemma_with_mark(traced.obj(k1), false, false);
                lemma_with_mark(traced.obj(k2), false, false);
                assert(traced.interned(k1) && traced.interned(k2));
            }
        }
    }

    /// Whether `bytes_allocated` has passed the threshold of the next collection.
    pub fn should_gc(&self, bytes_allocated: usize) -> (r: bool)
        ensures
            r == (bytes_allocated > self.next_gc_spec()),
    {
        bytes_allocated > self.next_gc
    }

    /// Puts `object` on the heap, in a new slot after every other.
    pub fn alloc_object(&mut self, object: Object) -> (r: GcRef)
        requires
            old(self).wf(),
            !object.header().marked,
            forall|k: int| 0 <= k < object.children().len() ==> old(self).live(#[trigger] object.children()[k]),
        ensures
            final(self).wf(),
            r.index == old(self).heap().len(),
            final(self).heap() == old(self).heap().push(Some(object)),
            final(self).live(r),
            final(self).obj(r) == object,
            final(self).grey() == old(self).grey(),
            final(self).strings() == old(self).strings(),
            final(self).next_gc_spec() == old(self).next_gc_spec(),
            final(self).floats() == old(self).floats(),
            old(self).extends(final(self)),
    {
        let ghost before = *self;
        let r = GcRef { index: self.heap.len() };
        self.heap.push(Some(object));
        proof {
            assert forall|q: GcRef| before.live(q) implies #[trigger] self.live(q) && self.obj(q) == before.obj(q) by {
                assert(self.heap()[q.index as int] == before.heap()[q.index as int]);
            }
            assert forall|q: GcRef| #[trigger] self.live(q) && q != r implies before.live(q) by {
                assert(self.heap()[q.index as int] == before.heap()[q.index as int]);
            }
            assert forall|k: int| 0 <= k < self.grey().len() implies self.is_marked(#[trigger] self.grey()[k]) by {
                assert(before.is_marked(before.grey()[k]));
            }
            assert forall|q: GcRef, k: int|
                self.live(q) && 0 <= k < self.obj(q).children().len() implies self.live(#[trigger] self.obj(q).children()[k]) by {
                if q != r {
                    assert(before.live(before.obj(q).children()[k]));
                }
            }
            assert forall|q: GcRef, k: int|
                self.is_marked(q) && !self.grey().contains(q) && None::<GcRef> != Some(q) && 0 <= k < self.obj(q).children().len()
                    implies self.is_marked(#[trigger] self.obj(q).children()[k]) by {
                assert(q != r);
                assert(before.is_marked(before.obj(q).children()[k]));
            }
            assert forall|k: GcRef| #[trigger] self.interned(k) implies self.live(k) && self.obj(k) is Str
                && self.obj(k)->Str_0.hash == fnv_hash(self.str_bytes(k)) by {
                assert(before.interned(k));
            }
            assert forall|k1: GcRef, k2: GcRef|
                #[trigger] self.interned(k1) && #[trigger] self.interned(k2) && k1 != k2
                    implies self.str_bytes(k1) != self.str_bytes(k2) by {
                assert(before.interned(k1) && before.interned(k2));
            }
        }
        r
    }

    /// The interned string with the bytes `s`, if there is one.
    fn find_string(&self, s: &[u8], hash: usize) -> (r: Option<GcRef>)
        requires
            self.strings_ok(),
            hash == fnv_hash(s@),
        ensures
            match r {
                Some(k) => self.interned(k) && self.str_bytes(k) == s@,
                None => forall|k: GcRef| #[trigger] self.interned(k) ==> self.str_bytes(k) != s@,
            },
    {
        let mut i: usize = 0;
        while i < self.strings.len()
            invariant
                self.strings_ok(),
                hash == fnv_hash(s@),
                i <= self.strings().entries().len(),
                forall|j: int| 0 <= j < i ==> self.str_bytes(#[trigger] self.strings().entries()[j].key) != s@,
            decreases self.strings().entries().len() - i,
        {
            let k = self.strings.entry(i).key;
            assert(self.interned(k));
            match self.get(k) {
                Object::Str(ls) => {
                    if ls.hash == hash && bytes_eq(ls.s.as_slice(), s) {
                        return Some(k);
                    }
                },
                _ => {},
            }
            i += 1;
        }
        assert forall|k: GcRef| #[trigger] self.interned(k) implies self.str_bytes(k) != s@ by {
            let j = choose|j: int| 0 <= j < self.strings().entries().len() && #[trigger] self.strings().entries()[j].key == k;
        }
        None
    }

    /// The interned string object with the bytes `s`: the one there is, or a
    /// new one, put on the heap and into the table of interned strings.
    pub fn intern(&mut self, s: Vec<u8>) -> (r: GcRef)
        requires
            old(self).wf(),
        ensures
            final(self).wf(),
            final(self).interned(r),
            final(self).live(r),
            final(self).obj(r) is Str,
            final(self).str_bytes(r) == s@,
            old(self).extends(final(self)),
            forall|k: GcRef| #[trigger] final(self).interned(k) <==> old(self).interned(k) || k == r,
            old(self).interned(r) <==> exists|k: GcRef| #[trigger] old(self).interned(k) && old(self).str_bytes(k) == s@,
            old(self).interned(r) ==> *final(self) == *old(self),
            !old(self).interned(r) ==> r.index == old(self).heap().len() && final(self).heap().len() == old(self).heap().len() + 1,
    {
        let ls = Str::from_string(s);
        match self.find_string(ls.s.as_slice(), ls.hash) {
            Some(k) => k,
            None => {
                let ghost before = *self;
                let ghost bytes = ls.s@;
                let obj = Object::Str(ls);
                let r = self.alloc_object(obj);
                let ghost allocated = *self;
                assert(!before.interned(r)) by {
                    if before.interned(r) {
                        assert(before.live(r));
                    }
                }
                self.strings.set(r, Value::Nil);
                proof {
                    assert forall|k: GcRef| #[trigger] self.interned(k) implies self.live(k) && self.obj(k) is Str
                        && self.obj(k)->Str_0.hash == fnv_hash(self.str_bytes(k)) by {
                        if k != r {
                            assert(before.interned(k));
                        }
                    }
                    assert forall|k1: GcRef, k2: GcRef|
                        #[trigger] self.interned(k1) && #[trigger] self.interned(k2) && k1 != k2
                            implies self.str_bytes(k1) != self.str_bytes(k2) by {
                        if k1 != r && k2 != r {
                            assert(before.interned(k1) && before.interned(k2));
                        } else if k1 == r {
                            assert(before.interned(k2));
                        } else {
                            assert(before.interned(k1));
                        }
                    }
                    assert forall|k: GcRef| #[trigger] before.interned(k) implies before.str_bytes(k) != s@ by {}
                    Gc::lemma_same_heap(&allocated, self, None);
                    assert forall|k: GcRef, c: int|
                        self.is_marked(k) && !self.grey().contains(k) && None::<GcRef> != Some(k) && 0 <= c < self.obj(k).children().len()
                            implies self.is_marked(#[trigger] self.obj(k).children()[c]) by {
                        assert(allocated.is_marked(allocated.obj(k).children()[c]));
                    }
                }
                r
            },
        }
    }

    /// Records the literal of a float; its number is what a value holds.
    pub fn add_float(&mut self, literal: Vec<u8>) -> (n: usize)
        ensures
            n == old(self).floats().len(),
            final(self).floats() == old(self).floats().push(literal@),
            final(self).heap() == old(self).heap(),
            final(self).grey() == old(self).grey(),
            final(self).strings() == old(self).strings(),
            final(self).next_gc_spec() == old(self).next_gc_spec(),
            old(self).wf() ==> final(self).wf(),
            old(self).extends(final(self)),
    {
        let n = self.floats.len();
        self.floats.push(literal);
        assert(self.floats() =~= old(self).floats().push(literal@));
        proof {
            if old(self).wf() {
                Gc::lemma_same_heap(old(self), self, None);
                assert forall|k: GcRef| #[trigger] self.interned(k) implies self.live(k) && self.obj(k) is Str
                    && self.obj(k)->Str_0.hash == fnv_hash(self.str_bytes(k)) by {
                    assert(old(self).interned(k));
                }
                assert forall|k1: GcRef, k2: GcRef|
                    #[trigger] self.interned(k1) && #[trigger] self.interned(k2) && k1 != k2
                        implies self.str_bytes(k1) != self.str_bytes(k2) by {
                    assert(old(self).interned(k1) && old(self).interned(k2));
                }
            }
        }
        n
    }

    /// The literal of the float numbered `n`.
    pub fn float_literal(&self, n: usize) -> (literal: &[u8])
        requires
            n < self.floats().len(),
        ensures
            literal@ == self.floats()[n as int],
    {
        self.floats[n].as_slice()
    }

    /// Whether `r` names an array object.
    pub open spec fn is_array(&self, r: GcRef) -> bool {
        self.live(r) && self.obj(r) is Array
    }

    /// The items of the array object `r`.
    pub open spec fn array_items(&self, r: GcRef) -> Seq<Value> {
        self.obj(r)->Array_0.items@
    }

    /// `later` is `self` with the items of the array `r` replaced by `items`.
    pub open spec fn with_array_items(&self, later: &Gc, r: GcRef, items: Seq<Value>) -> bool {
        &&& later.heap().len() == self.heap().len()
        &&& later.is_array(r)
        &&& later.array_items(r) == items
        &&& later.obj(r)->Array_0.header == self.obj(r)->Array_0.header
        &&& forall|q: GcRef| q != r ==> #[trigger] later.live(q) == self.live(q)
        &&& forall|q: GcRef| q != r && self.live(q) ==> #[trigger] later.obj(q) == self.obj(q)
        &&& later.grey() == self.grey()
        &&& later.strings() == self.strings()
        &&& later.next_gc_spec() == self.next_gc_spec()
        &&& later.floats() == self.floats()
    }

    proof fn lemma_array_update_wf(a: &Gc, b: &Gc, r: GcRef)
        requires
            a.wf(),
            a.is_array(r),
            b.is_array(r),
            b.heap().len() == a.heap().len(),
            b.obj(r)->Array_0.header == a.obj(r)->Array_0.header,
            forall|q: GcRef| q != r ==> #[trigger] b.live(q) == a.live(q),
            forall|q: GcRef| q != r && a.live(q) ==> #[trigger] b.obj(q) == a.obj(q),
            b.grey() == a.grey(),
            b.strings() == a.strings(),
        ensures
            b.wf(),
    {
        assert forall|q: GcRef| #[trigger] b.live(q) == a.live(q) by {}
        assert forall|q: GcRef, k: int|
            b.live(q) && 0 <= k < b.obj(q).children().len() implies b.live(#[trigger] b.obj(q).children()[k]) by {
            if q != r {
                assert(a.live(a.obj(q).children()[k]));
            }
        }
        assert forall|k: int| 0 <= k < b.grey().len() implies b.is_marked(#[trigger] b.grey()[k]) by {
            let q = a.grey()[k];
            assert(a.is_marked(q));
        }
        assert forall|q: GcRef, k: int|
            b.is_marked(q) && !b.grey().contains(q) && None::<GcRef> != Some(q) && 0 <= k < b.obj(q).children().len()
                implies b.is_marked(#[trigger] b.obj(q).children()[k]) by {
            if q != r {
                let c = a.obj(q).children()[k];
                assert(a.is_marked(c));
                if c == r {
                } else {
                    assert(b.obj(c) == a.obj(c));
                }
            }
        }
        assert forall|k: GcRef| #[trigger] b.interned(k) implies b.live(k) && b.obj(k) is Str
            && b.obj(k)->Str_0.hash == fnv_hash(b.str_bytes(k)) by {
            assert(a.interned(k));
        }
        assert forall|k1: GcRef, k2: GcRef|
            #[trigger] b.interned(k1) && #[trigger] b.interned(k2) && k1 != k2
                implies b.str_bytes(k1) != b.str_bytes(k2) by {
            assert(a.interned(k1) && a.interned(k2));
        }
    }

    /// Appends `v` to the items of the array `r`.
    pub fn array_push(&mut self, r: GcRef, v: Value)
        requires
            old(self).wf(),
            old(self).is_array(r),
        ensures
            final(self).wf(),
            old(self).with_array_items(final(self), r, old(self).array_items(r).push(v)),
    {
        match &mut self.heap[r.index] {
            Some(Object::Array(a)) => a.items.push(v),
            _ => {},
        }
        proof {
            assert forall|q: GcRef| q != r && old(self).live(q) implies #[trigger] self.obj(q) == old(self).obj(q) by {
                if q.index != r.index {
                    assert(self.heap()[q.index as int] == old(self).heap()[q.index as int]);
                }
            }
            assert forall|q: GcRef| q != r implies #[trigger] self.live(q) == old(self).live(q) by {
                if q.index != r.index && q.index < self.heap().len() {
                    assert(self.heap()[q.index as int] == old(self).heap()[q.index as int]);
                }
            }
            Gc::lemma_array_update_wf(old(self), self, r);
        }
    }

    /// Takes the last item off the array `r`, if it has one.
    pub fn array_pop(&mut self, r: GcRef) -> (v: Option<Value>)
        requires
            old(self).wf(),
            old(self).is_array(r),
        ensures
            final(self).wf(),
            old(self).array_items(r).len() == 0 ==> v is None && old(self).with_array_items(final(self), r, old(self).array_items(r)),
            old(self).array_items(r).len() > 0 ==> v == Some(old(self).array_items(r).last())
                && old(self).with_array_items(final(self), r, old(self).array_items(r).drop_last()),
    {
        let v = match &mut self.heap[r.index] {
            Some(Object::Array(a)) => a.items.pop(),
            _ => None,
        };
        proof {
            assert forall|q: GcRef| q != r && old(self).live(q) implies #[trigger] self.obj(q) == old(self).obj(q) by {
                if q.index != r.index {
                    assert(self.heap()[q.index as int] == old(self).heap()[q.index as int]);
                }
            }
            assert forall|q: GcRef| q != r implies #[trigger] self.live(q) == old(self).live(q) by {
                if q.index != r.index && q.index < self.heap().len() {
                    assert(self.heap()[q.index as int] == old(self).heap()[q.index as int]);
                }
            }
            Gc::lemma_array_update_wf(old(self), self, r);
        }
        v
    }

    /// The number of items of the array `r`.
    pub fn array_len(&self, r: GcRef) -> (n: usize)
        requires
            self.is_array(r),
        ensures
            n == self.array_items(r).len(),
    {
        match self.get(r) {
            Object::Array(a) => a.items.len(),
            _ => 0,
        }
    }

    /// The item at `i` of the array `r`.
    pub fn array_get(&self, r: GcRef, i: usize) -> (v: Value)
        requires
            self.is_array(r),
            i < self.array_items(r).len(),
        ensures
            v == self.array_items(r)[i as int],
    {
        match self.get(r) {
            Object::Array(a) => a.items[i],
            _ => Value::Nil,
        }
    }

    /// The objects that the collector traces from the live object `r`.
    fn children_of(&self, r: GcRef) -> (v: Vec<GcRef>)
        requires
            self.live(r),
        ensures
            v@ == self.obj(r).children(),
    {
        match self.get(r) {
            Object::Array(_) => Vec::new(),
            Object::Function(f) => {
                let mut v: Vec<GcRef> = Vec::new();
                v.push(f.name);
                let refs = values_refs(f.chunk.constants.as_slice());
                v.append(&mut refs.clone());
                assert(v@ =~= seq![f.name] + value_refs(f.chunk.constants@));
                v
            },
            Object::Closure(c) => {
                let mut v: Vec<GcRef> = Vec::new();
                v.push(c.function);
                let mut i: usize = 0;
                while i < c.upvalues.len()
                    invariant
                        i <= c.upvalues.len(),
                        v@ == seq![c.function] + c.upvalues@.subrange(0, i as int),
                    decreases c.upvalues.len() - i,
                {
                    v.push(c.upvalues[i]);
                    i += 1;
                    assert(v@ =~= seq![c.function] + c.upvalues@.subrange(0, i as int));
                }
                assert(c.upvalues@.subrange(0, c.upvalues@.len() as int) =~= c.upvalues@);
                v
            },
            Object::Str(_) => Vec::new(),
            Object::Upvalue(u) => {
                let mut v: Vec<GcRef> = Vec::new();
                if let Some(value) = u.closed {
                    if let Some(obj) = value.object_ref() {
                        v.push(obj);
                    }
                }
                assert(v@ =~= self.obj(r).children());
                v
            },
            Object::Class(c) => {
                let mut v: Vec<GcRef> = Vec::new();
                v.push(c.name);
                let mut refs = table_refs(&c.methods);
                v.append(&mut refs);
                assert(v@ =~= seq![c.name] + entry_refs(c.methods.entries()));
                v
            },
            Object::Instance(i) => {
                let mut v: Vec<GcRef> = Vec::new();
                v.push(i.class);
                let mut refs = table_refs(&i.fields);
                v.append(&mut refs);
                assert(v@ =~= seq![i.class] + entry_refs(i.fields.entries()));
                v
            },
            Object::BoundMethod(b) => {
                let mut v: Vec<GcRef> = Vec::new();
                if let Some(obj) = b.receiver.object_ref() {
                    v.push(obj);
                }
                v.push(b.method);
                assert(v@ =~= self.obj(r).children());
                v
            },
            Object::Role(role) => {
                let mut v: Vec<GcRef> = Vec::new();
                v.push(role.class);
                let mut refs = table_refs(&role.methods);
                v.append(&mut refs);
                assert(v@ =~= seq![role.class] + entry_refs(role.methods.entries()));
                v
            },
        }
    }

}

/// Every reference that tracing can follow from `x` leads from an object to
/// one of lower rank.
pub open spec fn descends(g: Gc, rank: spec_fn(GcRef) -> nat, x: GcRef) -> bool {
    forall|y: GcRef, n: nat, k: int|
        #![trigger g.reaches(x, y, n), g.obj(y).children()[k]]
        g.reaches(x, y, n) && g.live(y) && 0 <= k < g.obj(y).children().len() ==> rank(g.obj(y).children()[k]) < rank(y)
}

/// The `k`-th object that `x` refers to has a slot of lower rank than `x` in `ranks`.
pub open spec fn rank_drops(g: Gc, ranks: Seq<usize>, x: GcRef, k: int) -> bool {
    let c = g.obj(x).children()[k];
    c.index < ranks.len() && x.index < ranks.len() && ranks[c.index as int] < ranks[x.index as int]
}

/// `ranks` has a slot for each slot of the heap and drops along every
/// reference of every object.
pub open spec fn ranks_fit_spec(g: Gc, ranks: Seq<usize>) -> bool {
    &&& ranks.len() == g.heap().len()
    &&& forall|x: GcRef, k: int|
        g.live(x) && 0 <= k < g.obj(x).children().len() ==> #[trigger] rank_drops(g, ranks, x, k)
}

/// `rank` drops along every reference that tracing can follow from the grey objects.
pub open spec fn grey_ranked(g: Gc, rank: spec_fn(GcRef) -> nat) -> bool {
    forall|k: int| 0 <= k < g.grey().len() ==> descends(g, rank, #[trigger] g.grey()[k])
}

/// How many times tracing from `x` puts an object on the grey stack, `x`
/// included, where `rank` drops along the references followed.
pub open spec fn trace_count(g: Gc, rank: spec_fn(GcRef) -> nat, x: GcRef) -> nat
    decreases rank(x), 1nat, 0nat,
{
    if g.live(x) {
        1 + children_count(g, rank, x, g.obj(x).children().len())
    } else {
        1
    }
}

/// The sum of `trace_count` over the first `k` objects that `x` refers to.
pub open spec fn children_count(g: Gc, rank: spec_fn(GcRef) -> nat, x: GcRef, k: nat) -> nat
    decreases rank(x), 0nat, k,
{
    if k == 0 || !g.live(x) || k > g.obj(x).children().len() {
        0
    } else {
        let c = g.obj(x).children()[k - 1];
        children_count(g, rank, x, (k - 1) as nat) + if rank(c) < rank(x) {
            trace_count(g, rank, c)
        } else {
            0
        }
    }
}

/// The sum of `trace_count` over the objects of the stack `s`.
pub open spec fn stack_count(g: Gc, rank: spec_fn(GcRef) -> nat, s: Seq<GcRef>) -> nat
    decreases s.len(),
{
    if s.len() == 0 {
        0
    } else {
        stack_count(g, rank, s.drop_last()) + trace_count(g, rank, s.last())
    }
}

proof fn lemma_stack_count_append(g: Gc, rank: spec_fn(GcRef) -> nat, a: Seq<GcRef>, b: Seq<GcRef>)
    ensures
        stack_count(g, rank, a + b) == stack_count(g, rank, a) + stack_count(g, rank, b),
    decreases b.len(),
{
    if b.len() == 0 {
        assert(a + b =~= a);
    } else {
        lemma_stack_count_append(g, rank, a, b.drop_last());
        assert((a + b).drop_last() =~= a + b.drop_last());
        assert((a + b).last() == b.last());
    }
}

proof fn lemma_children_count(g: Gc, rank: spec_fn(GcRef) -> nat, x: GcRef, k: nat)
    requires
        g.live(x),
        k <= g.obj(x).children().len(),
        forall|j: int| 0 <= j < k ==> rank(#[trigger] g.obj(x).children()[j]) < rank(x),
    ensures
        children_count(g, rank, x, k) == stack_count(g, rank, g.obj(x).children().subrange(0, k as int)),
    decreases k,
{
    let cs = g.obj(x).children();
    if k == 0 {
        assert(cs.subrange(0, 0) =~= Seq::<GcRef>::empty());
    } else {
        lemma_children_count(g, rank, x, (k - 1) as nat);
        assert(cs.subrange(0, k as int).drop_last() =~= cs.subrange(0, k - 1));
        assert(cs.subrange(0, k as int).last() == cs[k - 1]);
    }
}

/// What an object that `r` refers to reaches, `r` reaches in one more step.
proof fn lemma_reaches_child(g: Gc, r: GcRef, k: int, y: GcRef, n: nat)
    requires
        g.live(r),
        0 <= k < g.obj(r).children().len(),
        g.reaches(g.obj(r).children()[k], y, n),
    ensures
        g.reaches(r, y, n + 1),
{
    assert((n + 1 - 1) as nat == n);
    assert(g.reaches(g.obj(r).children()[k], y, (n + 1 - 1) as nat));
}

/// An object that `r` refers to descends when `r` does.
proof fn lemma_child_descends(g: Gc, rank: spec_fn(GcRef) -> nat, r: GcRef, k: int)
    requires
        g.live(r),
        0 <= k < g.obj(r).children().len(),
        descends(g, rank, r),
    ensures
        descends(g, rank, g.obj(r).children()[k]),
{
    let c = g.obj(r).children()[k];
    assert forall|y: GcRef, n: nat, j: int|
        g.reaches(c, y, n) && g.live(y) && 0 <= j < g.obj(y).children().len()
            implies rank(g.obj(y).children()[j]) < rank(y) by {
        lemma_reaches_child(g, r, k, y, n);
    }
}

/// A path to a live object `b` goes on to each object that `b` refers to.
proof fn lemma_reaches_extend(g: Gc, a: GcRef, b: GcRef, n: nat, k: int)
    requires
        g.reaches(a, b, n),
        g.live(b),
        0 <= k < g.obj(b).children().len(),
    ensures
        g.reaches(a, g.obj(b).children()[k], n + 1),
    decreases n,
{
    let c = g.obj(b).children()[k];
    if a == b {
        assert(g.reaches(c, c, n));
        assert((n + 1 - 1) as nat == n);
        assert(g.reaches(a, c, n + 1));
    } else {
        let j = choose|j: int|
            0 <= j < g.obj(a).children().len() && g.reaches(#[trigger] g.obj(a).children()[j], b, (n - 1) as nat);
        lemma_reaches_extend(g, g.obj(a).children()[j], b, (n - 1) as nat, k);
        assert(g.reaches(g.obj(a).children()[j], c, n));
        assert((n + 1 - 1) as nat == n);
        assert(g.reaches(a, c, n + 1));
    }
}

/// What `before` reaches from an object that `after` keeps, `after` keeps
/// too, when `after` keeps every object's references and is closed under them.
proof fn lemma_reached_survives(before: Gc, after: Gc, x: GcRef, q: GcRef, n: nat)
    requires
        after.closed_heap(),
        after.live(x),
        forall|p: GcRef| #[trigger] after.live(p)
            ==> before.live(p) && after.obj(p).children() == before.obj(p).children(),
        before.reaches(x, q, n),
    ensures
        after.live(q),
    decreases n,
{
    if x != q {
        let k = choose|k: int|
            0 <= k < before.obj(x).children().len()
                && before.reaches(#[trigger] before.obj(x).children()[k], q, (n - 1) as nat);
        let c = before.obj(x).children()[k];
        assert(after.obj(x).children()[k] == c);
        lemma_reached_survives(before, after, c, q, (n - 1) as nat);
    }
}

/// Interning keeps one string object per text: two interned strings with
/// the same bytes are the same object.
pub proof fn lemma_interned_unique(g: &Gc, k1: GcRef, k2: GcRef)
    requires
        g.wf(),
        g.interned(k1),
        g.interned(k2),
        g.str_bytes(k1) == g.str_bytes(k2),
    ensures
        k1 == k2,
{
}


/// The number of objects on `heap`.
pub open spec fn count_live(heap: Seq<Option<Object>>) -> nat
    decreases heap.len(),
{
    if heap.len() == 0 {
        0
    } else {
        count_live(heap.drop_last()) + (if heap.last() is Some {
            1nat
        } else {
            0nat
        })
    }
}


/// The objects that `values` refer to.
fn values_refs(values: &[Value]) -> (v: Vec<GcRef>)
    ensures
        v@ == value_refs(values@),
{
    let mut v: Vec<GcRef> = Vec::new();
    let mut i: usize = 0;
    while i < values.len()
        invariant
            i <= values.len(),
            v@ == value_refs(values@.subrange(0, i as int)),
        decreases values.len() - i,
    {
        if let Some(r) = values[i].object_ref() {
            v.push(r);
        }
        proof {
            assert(values@.subrange(0, i as int + 1).drop_last() =~= values@.subrange(0, i as int));
        }
        i += 1;
    }
    assert(values@.subrange(0, values@.len() as int) =~= values@);
    v
}

/// The objects that the entries of `table` refer to.
fn table_refs(table: &Table) -> (v: Vec<GcRef>)
    ensures
        v@ == entry_refs(table.entries()),
{
    let mut v: Vec<GcRef> = Vec::new();
    let mut i: usize = 0;
    while i < table.len()
        invariant
            i <= table.entries().len(),
            v@ == entry_refs(table.entries().subrange(0, i as int)),
        decreases table.entries().len() - i,
    {
        let e = table.entry(i);
        v.push(e.key);
        if let Some(r) = e.value.object_ref() {
            v.push(r);
        }
        proof {
            assert(table.entries().subrange(0, i as int + 1).drop_last() =~= table.entries().subrange(0, i as int));
        }
        i += 1;
    }
    assert(table.entries().subrange(0, table.entries().len() as int) =~= table.entries());
    v
}


/// A well-formed heap, as every collection leaves it, holds no reference
/// from a live object to a freed one: what a live function, closure,
/// upvalue, class, instance (its class, and each key and value object of
/// its fields), bound method or role refers to is live.
pub proof fn lemma_no_dangling(g: Gc, q: GcRef)
    requires
        g.wf(),
        g.live(q),
    ensures
        match g.obj(q) {
            Object::Function(f) => g.live(f.name) && forall|k: int|
                0 <= k < f.chunk.constants@.len() && (#[trigger] f.chunk.constants@[k]).object() is Some
                    ==> g.live(f.chunk.constants@[k].object()->0),
            Object::Closure(c) => g.live(c.function) && forall|k: int| 0 <= k < c.upvalues@.len() ==> g.live(#[trigger] c.upvalues@[k]),
            Object::Upvalue(u) => (u.closed matches Some(v) ==> (v.object() matches Some(r) ==> g.live(r))),
            Object::Class(c) => g.live(c.name) && forall|k: GcRef, v: Value|
                #[trigger] c.methods.has(k, v) ==> g.live(k) && (v.object() matches Some(r) ==> g.live(r)),
            Object::Instance(i) => g.live(i.class) && forall|k: GcRef, v: Value|
                #[trigger] i.fields.has(k, v) ==> g.live(k) && (v.object() matches Some(r) ==> g.live(r)),
            Object::BoundMethod(b) => g.live(b.method) && (b.receiver.object() matches Some(r) ==> g.live(r)),
            Object::Role(r) => g.live(r.class) && forall|k: GcRef, v: Value|
                #[trigger] r.methods.has(k, v) ==> g.live(k) && (v.object() matches Some(x) ==> g.live(x)),
            _ => true,
        },
{
    let o = g.obj(q);
    lemma_children_cover(o);
    assert forall|x: GcRef| o.children().contains(x) implies g.live(x) by {
        let j = choose|j: int| 0 <= j < o.children().len() && o.children()[j] == x;
        assert(g.live(o.children()[j]));
    }
}

} // verus!
