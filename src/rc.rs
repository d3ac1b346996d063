//! Reference-counted shared ownership with weak handles.
//!
//! Shared values live in allocation blocks of a `Heap`. An `Rc` handle counts
//! toward its block's strong count and a `Weak` handle toward its weak count.
//! When the strong count reaches zero the value leaves the block and is handed
//! to the caller, who drops it (and gives back any handles it holds); the
//! block itself is freed once the weak count is zero too.
use vstd::prelude::*;
use core::marker::PhantomData;

verus! {

/// One shared value with its counters. `value` is `None` once the last
/// strong handle has been given back.
#[derive(Debug)]
pub struct AllocationBlock<T> {
    pub value: Option<T>,
    pub strong: usize,
    pub weak: usize,
}

/// The blocks of a heap by index; `None` marks a freed block.
pub type Blocks<T> = Seq<Option<AllocationBlock<T>>>;

/// The store of allocation blocks that `Rc` and `Weak` handles point into.
#[derive(Debug)]
pub struct Heap<T> {
    blocks: Vec<Option<AllocationBlock<T>>>,
}

/// A strong handle: keeps the value of its block alive.
#[derive(Debug)]
pub struct Rc<T> {
    index: usize,
    marker: PhantomData<T>,
}

/// A weak handle: keeps only the block, not its value.
#[derive(Debug)]
pub struct Weak<T> {
    index: usize,
    marker: PhantomData<T>,
}

/// A block that is allocated and not freed.
pub open spec fn allocated<T>(h: Blocks<T>, i: int) -> bool {
    0 <= i < h.len() && h[i] is Some
}

/// A block whose value is still alive.
pub open spec fn alive<T>(h: Blocks<T>, i: int) -> bool {
    allocated(h, i) && h[i].unwrap().strong > 0
}

/// The strong count of block `i`; zero once freed.
pub open spec fn strong_of<T>(h: Blocks<T>, i: int) -> nat {
    if allocated(h, i) {
        h[i].unwrap().strong as nat
    } else {
        0
    }
}

/// The weak count of block `i`; zero once freed.
pub open spec fn weak_of<T>(h: Blocks<T>, i: int) -> nat {
    if allocated(h, i) {
        h[i].unwrap().weak as nat
    } else {
        0
    }
}

/// A block is consistent: its value is present exactly while strong handles
/// exist, and it has at least one handle of either kind (else it is freed).
pub open spec fn block_wf<T>(b: AllocationBlock<T>) -> bool {
    &&& (b.value is Some <==> b.strong > 0)
    &&& (b.strong > 0 || b.weak > 0)
}

/// Every block that is not freed is consistent.
pub open spec fn blocks_wf<T>(h: Blocks<T>) -> bool {
    forall|i: int| 0 <= i < h.len() && #[trigger] h[i] is Some ==> block_wf(h[i].unwrap())
}

/// Replacing one slot by a consistent block, or freeing it, keeps the blocks
/// consistent.
proof fn lemma_update_wf<T>(h: Blocks<T>, i: int, slot: Option<AllocationBlock<T>>)
    requires
        blocks_wf(h),
        0 <= i < h.len(),
        slot matches Some(b) ==> block_wf(b),
    ensures
        blocks_wf(h.update(i, slot)),
{
    let g = h.update(i, slot);
    assert forall|j: int| 0 <= j < g.len() && #[trigger] g[j] is Some implies block_wf(
        g[j].unwrap(),
    ) by {
        if j != i {
            assert(g[j] == h[j]);
        }
    }
}

/// The blocks after a new block holding `v` is allocated.
pub open spec fn spec_new<T>(h: Blocks<T>, v: T) -> Blocks<T> {
    h.push(Some(AllocationBlock { value: Some(v), strong: 1, weak: 0 }))
}

/// The blocks after the strong count of block `i` goes up by one.
pub open spec fn spec_clone<T>(h: Blocks<T>, i: int) -> Blocks<T> {
    let b = h[i].unwrap();
    h.update(i, Some(AllocationBlock { value: b.value, strong: (b.strong + 1) as usize, weak: b.weak }))
}

/// The blocks after the weak count of block `i` goes up by one.
pub open spec fn spec_downgrade<T>(h: Blocks<T>, i: int) -> Blocks<T> {
    let b = h[i].unwrap();
    h.update(i, Some(AllocationBlock { value: b.value, strong: b.strong, weak: (b.weak + 1) as usize }))
}

/// The blocks after one strong handle of block `i` is given back: the value
/// leaves with the last one, and the block is freed if no weak handle is left.
pub open spec fn spec_release<T>(h: Blocks<T>, i: int) -> Blocks<T> {
    let b = h[i].unwrap();
    if b.strong > 1 {
        h.update(i, Some(AllocationBlock { value: b.value, strong: (b.strong - 1) as usize, weak: b.weak }))
    } else if b.weak > 0 {
        h.update(i, Some(AllocationBlock { value: None, strong: 0, weak: b.weak }))
    } else {
        h.update(i, None)
    }
}

/// The blocks after one weak handle of block `i` is given back: the block is
/// freed with the last handle of either kind.
pub open spec fn spec_release_weak<T>(h: Blocks<T>, i: int) -> Blocks<T> {
    let b = h[i].unwrap();
    if b.weak > 1 || b.strong > 0 {
        h.update(i, Some(AllocationBlock { value: b.value, strong: b.strong, weak: (b.weak - 1) as usize }))
    } else {
        h.update(i, None)
    }
}

impl<T> View for Heap<T> {
    type V = Blocks<T>;

    closed spec fn view(&self) -> Blocks<T> {
        self.blocks@
    }
}

impl<T> Heap<T> {
    /// Every block of the heap is consistent.
    pub open spec fn wf(&self) -> bool {
        blocks_wf(self@)
    }

    /// An empty heap.
    pub fn new() -> (h: Heap<T>)
        ensures
            h.wf(),
            h@ == Seq::<Option<AllocationBlock<T>>>::empty(),
    {
        Heap { blocks: Vec::new() }
    }
}

impl<T> Rc<T> {
    /// The index of the block this handle points to.
    pub closed spec fn block(&self) -> int {
        self.index as int
    }

    /// Allocates a block holding `value`, with one strong and no weak handle.
    pub fn new(heap: &mut Heap<T>, value: T) -> (r: Rc<T>)
        requires
            old(heap).wf(),
        ensures
            final(heap).wf(),
            final(heap)@ == spec_new(old(heap)@, value),
            r.block() == old(heap)@.len(),
    {
        let index = heap.blocks.len();
        heap.blocks.push(Some(AllocationBlock { value: Some(value), strong: 1, weak: 0 }));
        proof {
            assert forall|i: int| 0 <= i < heap@.len() && #[trigger] heap@[i] is Some implies block_wf(
                heap@[i].unwrap(),
            ) by {
                if i < index {
                    assert(heap@[i] == old(heap)@[i]);
                }
            }
        }
        Rc { index, marker: PhantomData }
    }

    /// The number of strong handles to this handle's block.
    pub fn strong_count(this: &Rc<T>, heap: &Heap<T>) -> (r: usize)
        requires
            allocated(heap@, this.block()),
        ensures
            r == strong_of(heap@, this.block()),
    {
        match &heap.blocks[this.index] {
            Some(b) => b.strong,
            None => 0,
        }
    }

    /// The number of weak handles to this handle's block.
    pub fn weak_count(this: &Rc<T>, heap: &Heap<T>) -> (r: usize)
        requires
            allocated(heap@, this.block()),
        ensures
            r == weak_of(heap@, this.block()),
    {
        match &heap.blocks[this.index] {
            Some(b) => b.weak,
            None => 0,
        }
    }

    /// A new strong handle to the same block. The strong count must have
    /// room for one more.
    pub fn clone(&self, heap: &mut Heap<T>) -> (r: Rc<T>)
        requires
            old(heap).wf(),
            alive(old(heap)@, self.block()),
            strong_of(old(heap)@, self.block()) < usize::MAX,
        ensures
            final(heap).wf(),
            final(heap)@ == spec_clone(old(heap)@, self.block()),
            r.block() == self.block(),
    {
        let ghost h = heap@;
        match &mut heap.blocks[self.index] {
            Some(b) => {
                b.strong = b.strong + 1;
            },
            None => {},
        }
        proof {
            lemma_update_wf(h, self.block(), heap@[self.block()]);
            assert(heap@ =~= spec_clone(h, self.block()));
        }
        Rc { index: self.index, marker: PhantomData }
    }

    /// The shared value, valid while this strong handle exists.
    pub fn deref<'a>(&self, heap: &'a Heap<T>) -> (r: &'a T)
        requires
            heap.wf(),
            alive(heap@, self.block()),
        ensures
            Some(*r) == heap@[self.block()].unwrap().value,
    {
        let b = heap.blocks[self.index].as_ref().unwrap();
        b.value.as_ref().unwrap()
    }

    /// Mutable access to the shared value. The heap is borrowed exclusively
    /// for as long as the reference lives, so no other handle can reach any
    /// value in the meantime.
    pub fn deref_mut<'a>(&self, heap: &'a mut Heap<T>) -> (r: &'a mut T)
        requires
            old(heap).wf(),
            alive(old(heap)@, self.block()),
        ensures
            Some(*r) == old(heap)@[self.block()].unwrap().value,
            final(heap).wf(),
            final(heap)@ == old(heap)@.update(
                self.block(),
                Some(
                    AllocationBlock {
                        value: Some(*final(r)),
                        strong: old(heap)@[self.block()].unwrap().strong,
                        weak: old(heap)@[self.block()].unwrap().weak,
                    },
                ),
            ),
    {
        let slot: Option<&mut AllocationBlock<T>> = match &mut heap.blocks[self.index] {
            Some(b) => Some(b),
            None => None,
        };
        let b = slot.unwrap();
        let v: Option<&mut T> = match &mut b.value {
            Some(v) => Some(v),
            None => None,
        };
        v.unwrap()
    }

    /// A new weak handle to this handle's block. The weak count must have
    /// room for one more.
    pub fn downgrade(this: &Rc<T>, heap: &mut Heap<T>) -> (r: Weak<T>)
        requires
            old(heap).wf(),
            alive(old(heap)@, this.block()),
            weak_of(old(heap)@, this.block()) < usize::MAX,
        ensures
            final(heap).wf(),
            final(heap)@ == spec_downgrade(old(heap)@, this.block()),
            r.block() == this.block(),
    {
        let ghost h = heap@;
        match &mut heap.blocks[this.index] {
            Some(b) => {
                b.weak = b.weak + 1;
            },
            None => {},
        }
        proof {
            lemma_update_wf(h, this.block(), heap@[this.block()]);
            assert(heap@ =~= spec_downgrade(h, this.block()));
        }
        Weak { index: this.index, marker: PhantomData }
    }

    /// Gives this strong handle back. With the last one the value leaves
    /// the block and is returned, for the caller to drop; the block is freed
    /// at once if no weak handle is left.
    pub fn release(self, heap: &mut Heap<T>) -> (r: Option<T>)
        requires
            old(heap).wf(),
            alive(old(heap)@, self.block()),
        ensures
            final(heap).wf(),
            final(heap)@ == spec_release(old(heap)@, self.block()),
            strong_of(old(heap)@, self.block()) == 1 ==> r == old(heap)@[self.block()].unwrap().value,
            strong_of(old(heap)@, self.block()) > 1 ==> r is None,
    {
        let ghost h = heap@;
        let i = self.index;
        let mut out: Option<T> = None;
        let mut free = false;
        match &mut heap.blocks[i] {
            Some(b) => {
                if b.strong > 1 {
                    b.strong = b.strong - 1;
                } else {
                    out = b.value.take();
                    b.strong = 0;
                    free = b.weak == 0;
                }
            },
            None => {},
        }
        if free {
            heap.blocks[i] = None;
        }
        proof {
            lemma_update_wf(h, i as int, spec_release(h, i as int)[i as int]);
            assert(heap@ =~= spec_release(h, i as int));
        }
        out
    }
}

impl<T> Weak<T> {
    /// The index of the block this handle points to.
    pub closed spec fn block(&self) -> int {
        self.index as int
    }

    /// The number of strong handles to this handle's block; zero once the
    /// value is gone.
    pub fn strong_count(&self, heap: &Heap<T>) -> (r: usize)
        requires
            0 <= self.block() < heap@.len(),
        ensures
            r == strong_of(heap@, self.block()),
    {
        match &heap.blocks[self.index] {
            Some(b) => b.strong,
            None => 0,
        }
    }

    /// A strong handle to the value if it is still alive, else `None`. The
    /// strong count must have room for one more.
    pub fn upgrade(&self, heap: &mut Heap<T>) -> (r: Option<Rc<T>>)
        requires
            old(heap).wf(),
            allocated(old(heap)@, self.block()),
            strong_of(old(heap)@, self.block()) < usize::MAX,
        ensures
            final(heap).wf(),
            alive(old(heap)@, self.block()) ==> final(heap)@ == spec_clone(old(heap)@, self.block())
                && (r matches Some(o) && o.block() == self.block()),
            !alive(old(heap)@, self.block()) ==> final(heap)@ == old(heap)@ && r is None,
    {
        let ghost h = heap@;
        let mut up = false;
        match &mut heap.blocks[self.index] {
            Some(b) => {
                if b.strong > 0 {
                    b.strong = b.strong + 1;
                    up = true;
                }
            },
            None => {},
        }
        proof {
            if up {
                lemma_update_wf(h, self.block(), heap@[self.block()]);
                assert(heap@ =~= spec_clone(h, self.block()));
            } else {
                assert(heap@ =~= h);
            }
        }
        if up {
            Some(Rc { index: self.index, marker: PhantomData })
        } else {
            None
        }
    }

    /// A new weak handle to the same block. The weak count must have room
    /// for one more.
    pub fn clone(&self, heap: &mut Heap<T>) -> (r: Weak<T>)
        requires
            old(heap).wf(),
            allocated(old(heap)@, self.block()),
            weak_of(old(heap)@, self.block()) < usize::MAX,
        ensures
            final(heap).wf(),
            final(heap)@ == spec_downgrade(old(heap)@, self.block()),
            r.block() == self.block(),
    {
        let ghost h = heap@;
        match &mut heap.blocks[self.index] {
            Some(b) => {
                b.weak = b.weak + 1;
            },
            None => {},
        }
        proof {
            lemma_update_wf(h, self.block(), heap@[self.block()]);
            assert(heap@ =~= spec_downgrade(h, self.block()));
        }
        Weak { index: self.index, marker: PhantomData }
    }

    /// Gives this weak handle back; the block is freed with the last handle
    /// of either kind.
    pub fn release(self, heap: &mut Heap<T>)
        requires
            old(heap).wf(),
            allocated(old(heap)@, self.block()),
            weak_of(old(heap)@, self.block()) > 0,
        ensures
            final(heap).wf(),
            final(heap)@ == spec_release_weak(old(heap)@, self.block()),
    {
        let ghost h = heap@;
        let i = self.index;
        let mut free = false;
        match &mut heap.blocks[i] {
            Some(b) => {
                if b.weak > 1 || b.strong > 0 {
                    b.weak = b.weak - 1;
                } else {
                    free = true;
                }
            },
            None => {},
        }
        if free {
            heap.blocks[i] = None;
        }
        proof {
            lemma_update_wf(h, i as int, spec_release_weak(h, i as int)[i as int]);
            assert(heap@ =~= spec_release_weak(h, i as int));
        }
    }
}

/// The blocks after `n` strong handles of block `i` are cloned.
pub open spec fn spec_clones<T>(h: Blocks<T>, i: int, n: nat) -> Blocks<T>
    decreases n,
{
    if n == 0 {
        h
    } else {
        spec_clone(spec_clones(h, i, (n - 1) as nat), i)
    }
}

/// The blocks after `n` strong handles of block `i` are given back.
pub open spec fn spec_releases<T>(h: Blocks<T>, i: int, n: nat) -> Blocks<T>
    decreases n,
{
    if n == 0 {
        h
    } else {
        spec_release(spec_releases(h, i, (n - 1) as nat), i)
    }
}

/// The blocks after `n` downgrades of block `i`.
pub open spec fn spec_downgrades<T>(h: Blocks<T>, i: int, n: nat) -> Blocks<T>
    decreases n,
{
    if n == 0 {
        h
    } else {
        spec_downgrade(spec_downgrades(h, i, (n - 1) as nat), i)
    }
}

proof fn lemma_clones<T>(h: Blocks<T>, i: int, n: nat)
    requires
        allocated(h, i),
        strong_of(h, i) + n <= usize::MAX,
    ensures
        allocated(spec_clones(h, i, n), i),
        strong_of(spec_clones(h, i, n), i) == strong_of(h, i) + n,
        weak_of(spec_clones(h, i, n), i) == weak_of(h, i),
    decreases n,
{
    if n > 0 {
        lemma_clones(h, i, (n - 1) as nat);
    }
}

proof fn lemma_releases<T>(h: Blocks<T>, i: int, n: nat)
    requires
        allocated(h, i),
        strong_of(h, i) > n,
    ensures
        allocated(spec_releases(h, i, n), i),
        strong_of(spec_releases(h, i, n), i) == strong_of(h, i) - n,
        weak_of(spec_releases(h, i, n), i) == weak_of(h, i),
    decreases n,
{
    if n > 0 {
        lemma_releases(h, i, (n - 1) as nat);
    }
}

proof fn lemma_downgrades<T>(h: Blocks<T>, i: int, n: nat)
    requires
        allocated(h, i),
        weak_of(h, i) + n <= usize::MAX,
    ensures
        allocated(spec_downgrades(h, i, n), i),
        weak_of(spec_downgrades(h, i, n), i) == weak_of(h, i) + n,
        strong_of(spec_downgrades(h, i, n), i) == strong_of(h, i),
    decreases n,
{
    if n > 0 {
        lemma_downgrades(h, i, (n - 1) as nat);
    }
}

/// Counting for a freshly allocated value: after `n` clones the strong count
/// is `n + 1`; after `n` of those handles are given back it is 1 again; and
/// after `k` downgrades the weak count is `k`.
pub proof fn lemma_counts_of_new<T>(h: Blocks<T>, v: T, n: nat, k: nat)
    requires
        n < usize::MAX,
        k <= usize::MAX,
    ensures
        strong_of(spec_clones(spec_new(h, v), h.len() as int, n), h.len() as int) == n + 1,
        strong_of(
            spec_releases(spec_clones(spec_new(h, v), h.len() as int, n), h.len() as int, n),
            h.len() as int,
        ) == 1,
        weak_of(spec_downgrades(spec_new(h, v), h.len() as int, k), h.len() as int) == k,
{
    let i = h.len() as int;
    let h1 = spec_new(h, v);
    assert(allocated(h1, i) && strong_of(h1, i) == 1 && weak_of(h1, i) == 0);
    lemma_clones(h1, i, n);
    lemma_releases(spec_clones(h1, i, n), i, n);
    lemma_downgrades(h1, i, k);
}

/// `upgrade` finds the value while any strong handle exists; once the last
/// one is given back the value is gone, and a block that still has weak
/// handles stays allocated, so `upgrade` on it returns `None`.
pub proof fn lemma_upgrade_after_last_release<T>(h: Blocks<T>, i: int)
    requires
        blocks_wf(h),
        allocated(h, i),
    ensures
        alive(h, i) <==> strong_of(h, i) > 0,
        strong_of(h, i) == 1 ==> !alive(spec_release(h, i), i),
        strong_of(h, i) == 1 && weak_of(h, i) > 0 ==> allocated(spec_release(h, i), i)
            && strong_of(spec_release(h, i), i) == 0,
        strong_of(h, i) > 1 ==> alive(spec_release(h, i), i),
{
}

} // verus!
