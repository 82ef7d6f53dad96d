//! The lazily initialized container itself.
//!
//! A `LazyVec<T, I>` presents ordinary indexed-vector semantics (push, pop,
//! indexed read and write, grow) over a backing store whose cells start out
//! *shared* — logically denoting one default value that the container holds —
//! and are promoted to *owned*, independently mutable values only when first
//! written.  The logical length (cells considered live) can be smaller than
//! the physical capacity (cells allocated).

use vstd::prelude::*;

use crate::idx::RawOffset;

verus! {

/// One slot of the backing store: either still the shared default, or an
/// owned value written at least once.  The transition is one-way
/// (`Shared` to `Owned`), except that `pop` resets the vacated slot to
/// `Shared` so a later `push` into it starts fresh.
#[derive(Debug, PartialEq, Eq)]
pub enum Cell<T> {
    Shared,
    Owned(T),
}

/// Error returned by [`LazyVec::get_disjoint_mut`] when the supplied offsets
/// are not pairwise distinct.
#[derive(Debug, PartialEq, Eq)]
pub struct DuplicateOffset;

/// Capacity used by [`LazyVec::new`].
pub const DEFAULT_CAPACITY: usize = 4096;

/// A lazily initialized version of `Vec<T>`.
///
/// The container is created with a label (used only for diagnostics), a
/// default value, and a physical capacity; every cell starts as
/// [`Cell::Shared`], denoting the default.  Cells are addressed through a
/// caller-chosen index type `I` that converts to and from raw offsets (see
/// [`RawOffset`]).
#[derive(Debug, PartialEq, Eq)]
pub struct LazyVec<T, I = usize> {
    label: String,
    len: usize,
    raw: Vec<Cell<T>>,
    default: T,
    index_marker: core::marker::PhantomData<I>,
}

/// Holds when the offsets in `s` are pairwise distinct.
pub open spec fn pairwise_distinct(s: Seq<usize>) -> bool {
    forall|a: int, b: int| 0 <= a < b < s.len() ==> s[a] != s[b]
}

/// The backing store after one push onto a store `cells` of logical length
/// `len`: an existing physical slot at `len` is overwritten, otherwise a new
/// physical cell is appended.
pub open spec fn pushed_cells<T>(cells: Seq<Cell<T>>, len: nat, v: T) -> Seq<Cell<T>> {
    if len < cells.len() {
        cells.update(len as int, Cell::Owned(v))
    } else {
        cells.push(Cell::Owned(v))
    }
}

impl<T, I> LazyVec<T, I> {
    /// The backing store: one `Cell` per physically allocated slot.
    pub closed spec fn cells(&self) -> Seq<Cell<T>> {
        self.raw@
    }

    /// The logical length: number of cells considered live.
    pub closed spec fn spec_len(&self) -> nat {
        self.len as nat
    }

    /// The physical capacity: number of cells allocated.
    pub open spec fn spec_capacity(&self) -> nat {
        self.cells().len()
    }

    /// The diagnostic label.
    pub closed spec fn spec_label(&self) -> Seq<char> {
        self.label@
    }

    /// The default value that every `Shared` cell denotes.
    pub closed spec fn spec_default(&self) -> T {
        self.default
    }

    /// The value an indexed read observes at offset `i`: the owned value if
    /// the cell was written, the shared default otherwise.
    pub open spec fn value_at(&self, i: int) -> T {
        match self.cells()[i] {
            Cell::Shared => self.spec_default(),
            Cell::Owned(v) => v,
        }
    }

    /// Well-formedness: the live prefix never exceeds the allocation.
    pub open spec fn wf(&self) -> bool {
        self.spec_len() <= self.spec_capacity()
    }

    /// Create a container whose physical capacity is `len`, with every cell
    /// still `Shared` and logical length zero.
    pub fn with_len(label: String, len: usize, default: T) -> (r: Self)
        ensures
            r.wf(),
            r.spec_len() == 0,
            r.spec_capacity() == len,
            r.spec_label() == label@,
            r.spec_default() == default,
            forall|i: int| 0 <= i < len ==> r.cells()[i] is Shared,
    {
        let mut raw: Vec<Cell<T>> = Vec::new();
        let mut i: usize = 0;
        while i < len
            invariant
                i <= len,
                raw@.len() == i,
                forall|j: int| 0 <= j < i ==> raw@[j] is Shared,
            decreases len - i,
        {
            raw.push(Cell::Shared);
            i = i + 1;
        }
        LazyVec { label, len: 0, raw, default, index_marker: core::marker::PhantomData }
    }

    /// Create a container with the default physical capacity,
    /// [`DEFAULT_CAPACITY`].
    pub fn new(label: String, default: T) -> (r: Self)
        ensures
            r.wf(),
            r.spec_len() == 0,
            r.spec_capacity() == DEFAULT_CAPACITY,
            r.spec_label() == label@,
            r.spec_default() == default,
            forall|i: int| 0 <= i < DEFAULT_CAPACITY ==> r.cells()[i] is Shared,
    {
        Self::with_len(label, DEFAULT_CAPACITY, default)
    }

    /// The logical length.
    pub fn len(&self) -> (r: usize)
        ensures
            r == self.spec_len(),
    {
        self.len
    }

    /// Whether the logical length is zero.
    pub fn is_empty(&self) -> (r: bool)
        ensures
            r == (self.spec_len() == 0),
    {
        self.len == 0
    }

    /// The physical capacity.
    pub fn capacity(&self) -> (r: usize)
        ensures
            r == self.spec_capacity(),
    {
        self.raw.len()
    }

    /// The diagnostic label.
    pub fn label(&self) -> (r: &str)
        ensures
            r@ == self.spec_label(),
    {
        self.label.as_str()
    }

    /// Extend the backing store with `Shared` cells so that the physical
    /// capacity is at least `new_len`.  Never changes the logical length,
    /// and when `new_len` is within the current capacity it is a no-op:
    /// the capacity and every existing cell state are left unchanged.
    pub fn grow_to(&mut self, new_len: usize)
        requires
            old(self).wf(),
        ensures
            final(self).wf(),
            final(self).spec_len() == old(self).spec_len(),
            final(self).spec_label() == old(self).spec_label(),
            final(self).spec_default() == old(self).spec_default(),
            new_len <= old(self).spec_capacity() ==> final(self).cells() == old(self).cells(),
            new_len > old(self).spec_capacity() ==> {
                &&& final(self).spec_capacity() == new_len
                &&& forall|i: int|
                    0 <= i < old(self).spec_capacity() ==> final(self).cells()[i] == old(
                        self,
                    ).cells()[i]
                &&& forall|i: int|
                    old(self).spec_capacity() <= i < new_len ==> final(self).cells()[i] is Shared
            },
    {
        while self.raw.len() < new_len
            invariant
                self.len == old(self).len,
                self.label == old(self).label,
                self.default == old(self).default,
                self.raw@.len() >= old(self).raw@.len(),
                self.raw@.len() > old(self).raw@.len() ==> self.raw@.len() <= new_len,
                forall|i: int|
                    0 <= i < old(self).raw@.len() ==> self.raw@[i] == old(self).raw@[i],
                forall|i: int| old(self).raw@.len() <= i < self.raw@.len() ==> self.raw@[i] is Shared,
            decreases new_len - self.raw.len(),
        {
            self.raw.push(Cell::Shared);
        }
    }

    /// Recycle the container: grow the capacity to at least `len`, then
    /// force-reset every cell at offsets `0 .. len` back to `Shared`,
    /// discarding any previously owned values there.  The logical length is
    /// not changed; `push` and `pop` remain its only mutators.
    pub fn reinit(&mut self, len: usize)
        requires
            old(self).wf(),
        ensures
            final(self).wf(),
            final(self).spec_len() == old(self).spec_len(),
            final(self).spec_label() == old(self).spec_label(),
            final(self).spec_default() == old(self).spec_default(),
            len <= old(self).spec_capacity() ==> final(self).spec_capacity() == old(
                self,
            ).spec_capacity(),
            len > old(self).spec_capacity() ==> final(self).spec_capacity() == len,
            forall|i: int| 0 <= i < len ==> final(self).cells()[i] is Shared,
            forall|i: int|
                len <= i < old(self).spec_capacity() ==> final(self).cells()[i] == old(
                    self,
                ).cells()[i],
    {
        self.grow_to(len);
        let ghost grown = *self;
        let mut i: usize = 0;
        while i < len
            invariant
                i <= len,
                len <= grown.raw@.len(),
                self.len == grown.len,
                self.label == grown.label,
                self.default == grown.default,
                self.raw@.len() == grown.raw@.len(),
                forall|j: int| 0 <= j < i ==> self.raw@[j] is Shared,
                forall|j: int| i <= j < grown.raw@.len() ==> self.raw@[j] == grown.raw@[j],
            decreases len - i,
        {
            self.raw.set(i, Cell::Shared);
            i = i + 1;
        }
    }

    /// Whether the cell at raw offset `offset` has been promoted to `Owned`.
    pub fn is_promoted(&self, offset: usize) -> (r: bool)
        requires
            offset < self.spec_capacity(),
        ensures
            r == (self.cells()[offset as int] is Owned),
    {
        match &self.raw[offset] {
            Cell::Shared => false,
            Cell::Owned(_) => true,
        }
    }

    /// Borrow every live element, most recently pushed first.
    ///
    /// The borrows are returned as a vector rather than a lazy iterator,
    /// so the traversal order — highest offset down to offset zero — is
    /// fixed in the result.  Reading never promotes a cell.
    pub fn iter(&self) -> (r: Vec<&T>)
        requires
            self.wf(),
        ensures
            r@.len() == self.spec_len(),
            forall|k: int|
                0 <= k < r@.len() ==> *r@[k] == self.value_at(self.spec_len() - 1 - k),
    {
        let mut out: Vec<&T> = Vec::new();
        let mut j: usize = self.len;
        while j > 0
            invariant
                self.wf(),
                j <= self.spec_len(),
                out@.len() == self.spec_len() - j,
                forall|k: int|
                    0 <= k < out@.len() ==> *out@[k] == self.value_at(self.spec_len() - 1 - k),
            decreases j,
        {
            j = j - 1;
            let v = self.read_cell(j);
            out.push(v);
        }
        out
    }

    /// Borrow the value a read observes at raw offset `offset`: the owned
    /// value if the cell was written, the shared default otherwise.
    fn read_cell(&self, offset: usize) -> (r: &T)
        requires
            offset < self.spec_capacity(),
        ensures
            *r == self.value_at(offset as int),
    {
        match &self.raw[offset] {
            Cell::Shared => &self.default,
            Cell::Owned(v) => v,
        }
    }
}

impl<T, I: RawOffset> LazyVec<T, I> {
    /// Append `value` at the logical end and return its address in the
    /// typed-index domain.  An existing physical slot at the logical length
    /// is overwritten; otherwise a new physical cell is appended.  Either
    /// way the logical length grows by one and the new cell is `Owned`.
    pub fn push(&mut self, value: T) -> (r: I)
        requires
            old(self).wf(),
        ensures
            final(self).wf(),
            r.raw() == old(self).spec_len(),
            final(self).spec_len() == old(self).spec_len() + 1,
            final(self).spec_label() == old(self).spec_label(),
            final(self).spec_default() == old(self).spec_default(),
            final(self).cells() == pushed_cells(
                old(self).cells(),
                old(self).spec_len(),
                value,
            ),
            final(self).spec_capacity() == if old(self).spec_len() < old(self).spec_capacity() {
                old(self).spec_capacity()
            } else {
                old(self).spec_capacity() + 1
            },
    {
        let idx = I::from_raw(self.len);
        if self.len < self.raw.len() {
            self.raw.set(self.len, Cell::Owned(value));
            self.len = self.len + 1;
        } else {
            self.raw.push(Cell::Owned(value));
            self.len = self.raw.len();
        }
        idx
    }

    /// Remove the last live cell: its owned value is returned and its slot
    /// is reset to `Shared`, so a later push into that physical slot starts
    /// fresh.  The cell must have been promoted (a value pushed or written
    /// there); popping a never-written cell is a caller bug and is excluded
    /// by the precondition.
    pub fn pop(&mut self) -> (r: T)
        requires
            old(self).wf(),
            old(self).spec_len() > 0,
            old(self).cells()[old(self).spec_len() - 1] is Owned,
        ensures
            final(self).wf(),
            final(self).spec_len() == old(self).spec_len() - 1,
            final(self).spec_capacity() == old(self).spec_capacity(),
            final(self).spec_label() == old(self).spec_label(),
            final(self).spec_default() == old(self).spec_default(),
            final(self).cells() == old(self).cells().update(
                old(self).spec_len() - 1,
                Cell::Shared,
            ),
            old(self).cells()[old(self).spec_len() - 1] == Cell::Owned(r),
    {
        let i = self.len - 1;
        let mut taken = Cell::Shared;
        self.raw.set_and_swap(i, &mut taken);
        self.len = i;
        match taken {
            Cell::Owned(v) => v,
            Cell::Shared => unreached(),
        }
    }

    /// Indexed read.  Returns `None` exactly when the offset the index
    /// denotes is outside the logical range; cells that are allocated but
    /// not live are not addressable here.  Reading never promotes a cell.
    pub fn get(&self, index: I) -> (r: Option<&T>)
        requires
            self.wf(),
        ensures
            match r {
                Some(v) => index.raw() < self.spec_len() && *v == self.value_at(
                    index.raw() as int,
                ),
                None => index.raw() >= self.spec_len(),
            },
    {
        let i = index.to_raw();
        if i < self.len {
            Some(self.read_cell(i))
        } else {
            None
        }
    }

    /// Indexed write: store `value` at the offset the index denotes,
    /// promoting the cell to `Owned`.  The offset must be inside the
    /// logical range.
    pub fn set(&mut self, index: I, value: T)
        requires
            old(self).wf(),
            index.raw() < old(self).spec_len(),
        ensures
            final(self).wf(),
            final(self).spec_len() == old(self).spec_len(),
            final(self).spec_capacity() == old(self).spec_capacity(),
            final(self).spec_label() == old(self).spec_label(),
            final(self).spec_default() == old(self).spec_default(),
            final(self).cells() == old(self).cells().update(
                index.raw() as int,
                Cell::Owned(value),
            ),
    {
        let i = index.to_raw();
        self.raw.set(i, Cell::Owned(value));
    }

    /// The raw offset of the most recently pushed element.  The container
    /// must not be logically empty.
    pub fn last_idx(&self) -> (r: usize)
        requires
            self.spec_len() > 0,
        ensures
            r == self.spec_len() - 1,
    {
        self.len - 1
    }

    /// Borrow the most recently pushed element.  The container must not be
    /// logically empty.
    pub fn last_ref(&self) -> (r: &T)
        requires
            self.wf(),
            self.spec_len() > 0,
        ensures
            *r == self.value_at(self.spec_len() - 1),
    {
        self.read_cell(self.len - 1)
    }
}

impl<T: Clone, I: RawOffset> LazyVec<T, I> {
    /// Mutable indexed access.  The offset must be inside the logical range.
    ///
    /// The cell is always promoted to `Owned` on access, even if the caller
    /// never writes through the returned reference: a still-`Shared` cell
    /// receives a clone of the default first (copy-on-write).  This is a
    /// chosen behavior, not an optimization gap.
    pub fn get_mut(&mut self, index: I) -> (r: &mut T)
        requires
            old(self).wf(),
            index.raw() < old(self).spec_len(),
        ensures
            old(self).cells()[index.raw() as int] is Owned ==> *r == old(self).value_at(
                index.raw() as int,
            ),
            old(self).cells()[index.raw() as int] is Shared ==> cloned(
                old(self).spec_default(),
                *r,
            ),
            final(self).wf(),
            final(self).spec_len() == old(self).spec_len(),
            final(self).spec_capacity() == old(self).spec_capacity(),
            final(self).spec_label() == old(self).spec_label(),
            final(self).spec_default() == old(self).spec_default(),
            final(self).cells() == old(self).cells().update(
                index.raw() as int,
                Cell::Owned(*final(r)),
            ),
    {
        let i = index.to_raw();
        let promote = match &self.raw[i] {
            Cell::Shared => true,
            Cell::Owned(_) => false,
        };
        if promote {
            let d = self.default.clone();
            self.raw.set(i, Cell::Owned(d));
        }
        let cell = &mut self.raw[i];
        match cell {
            Cell::Owned(v) => v,
            Cell::Shared => unreached(),
        }
    }

    /// Mutable access to the most recently pushed element.  The container
    /// must not be logically empty.  As with [`Self::get_mut`], the cell is
    /// promoted to `Owned` on access.
    pub fn last_mut(&mut self) -> (r: &mut T)
        requires
            old(self).wf(),
            old(self).spec_len() > 0,
        ensures
            old(self).cells()[old(self).spec_len() - 1] is Owned ==> *r == old(self).value_at(
                old(self).spec_len() - 1,
            ),
            old(self).cells()[old(self).spec_len() - 1] is Shared ==> cloned(
                old(self).spec_default(),
                *r,
            ),
            final(self).wf(),
            final(self).spec_len() == old(self).spec_len(),
            final(self).spec_capacity() == old(self).spec_capacity(),
            final(self).spec_label() == old(self).spec_label(),
            final(self).spec_default() == old(self).spec_default(),
            final(self).cells() == old(self).cells().update(
                old(self).spec_len() - 1,
                Cell::Owned(*final(r)),
            ),
    {
        let i = self.last_idx();
        self.get_mut(I::from_raw(i))
    }

    /// Mutable traversal of the live range, most recently pushed first.
    ///
    /// Every visited cell is promoted to `Owned` — a still-`Shared` cell
    /// receives a clone of the default — even if it is never written
    /// afterwards; this mirrors the copy-on-write behavior of single-cell
    /// mutable access and is a chosen behavior.  Because a method cannot
    /// hand out one live mutable borrow per cell, the traversal order is
    /// returned as typed indices (highest offset first) and writes go
    /// through [`Self::set`] or [`Self::get_mut`].
    pub fn iter_mut(&mut self) -> (r: Vec<I>)
        requires
            old(self).wf(),
        ensures
            final(self).wf(),
            final(self).spec_len() == old(self).spec_len(),
            final(self).spec_capacity() == old(self).spec_capacity(),
            final(self).spec_label() == old(self).spec_label(),
            final(self).spec_default() == old(self).spec_default(),
            r@.len() == old(self).spec_len(),
            forall|k: int|
                0 <= k < r@.len() ==> r@[k].raw() == old(self).spec_len() - 1 - k,
            forall|i: int|
                0 <= i < old(self).spec_len() ==> final(self).cells()[i] is Owned,
            forall|i: int|
                0 <= i < old(self).spec_len() && old(self).cells()[i] is Owned
                    ==> final(self).cells()[i] == old(self).cells()[i],
            forall|i: int|
                0 <= i < old(self).spec_len() && old(self).cells()[i] is Shared
                    ==> (final(self).cells()[i] matches Cell::Owned(w) && cloned(
                    old(self).spec_default(),
                    w,
                )),
            forall|i: int|
                old(self).spec_len() <= i < old(self).spec_capacity() ==> final(self).cells()[i]
                    == old(self).cells()[i],
    {
        let n = self.len;
        let mut i: usize = 0;
        while i < n
            invariant
                i <= n,
                n == old(self).len,
                self.len == old(self).len,
                self.label == old(self).label,
                self.default == old(self).default,
                self.raw@.len() == old(self).raw@.len(),
                n <= self.raw@.len(),
                forall|j: int| 0 <= j < i ==> self.raw@[j] is Owned,
                forall|j: int|
                    0 <= j < i && old(self).raw@[j] is Owned ==> self.raw@[j] == old(self).raw@[j],
                forall|j: int|
                    0 <= j < i && old(self).raw@[j] is Shared ==> (self.raw@[j] matches Cell::Owned(
                        w,
                    ) && cloned(old(self).default, w)),
                forall|j: int| i <= j < self.raw@.len() ==> self.raw@[j] == old(self).raw@[j],
            decreases n - i,
        {
            let promote = match &self.raw[i] {
                Cell::Shared => true,
                Cell::Owned(_) => false,
            };
            if promote {
                let d = self.default.clone();
                self.raw.set(i, Cell::Owned(d));
            }
            i = i + 1;
        }
        let mut out: Vec<I> = Vec::new();
        let mut j: usize = n;
        while j > 0
            invariant
                j <= n,
                out@.len() == n - j,
                forall|k: int| 0 <= k < out@.len() ==> out@[k].raw() == n - 1 - k,
            decreases j,
        {
            j = j - 1;
            out.push(I::from_raw(j));
        }
        out
    }

    /// Disjoint mutable access: write one value into each of several cells
    /// in a single operation, promoting each addressed cell to `Owned`.
    ///
    /// The offsets are first checked for pairwise distinctness — two writes
    /// into the same cell would not be independent — and the operation
    /// fails with [`DuplicateOffset`], leaving the container untouched,
    /// exactly when the check finds a repeat.  On success the cell at
    /// `offsets[k]` holds `values[k]` and every other cell is unchanged.
    ///
    /// Offsets are deliberately *not* checked against the logical length,
    /// only against the physical capacity: the operation may address
    /// allocated-but-not-yet-live cells, and callers that depend on
    /// logical-length bounds must check it themselves.
    pub fn get_disjoint_mut(&mut self, offsets: Vec<usize>, values: Vec<T>) -> (r: Result<
        (),
        DuplicateOffset,
    >)
        requires
            old(self).wf(),
            offsets@.len() == values@.len(),
            forall|k: int| 0 <= k < offsets@.len() ==> offsets@[k] < old(self).spec_capacity(),
        ensures
            final(self).wf(),
            final(self).spec_len() == old(self).spec_len(),
            final(self).spec_capacity() == old(self).spec_capacity(),
            final(self).spec_label() == old(self).spec_label(),
            final(self).spec_default() == old(self).spec_default(),
            r is Ok <==> pairwise_distinct(offsets@),
            r is Err ==> final(self).cells() == old(self).cells(),
            r is Ok ==> forall|k: int|
                0 <= k < offsets@.len() ==> final(self).cells()[offsets@[k] as int] == Cell::Owned(
                    values@[k],
                ),
            r is Ok ==> forall|i: usize|
                i < old(self).spec_capacity() && !offsets@.contains(i) ==> final(self).cells()[i as int]
                    == old(self).cells()[i as int],
    {
        let n = offsets.len();
        let mut a: usize = 0;
        while a < n
            invariant
                old(self).wf(),
                a <= n,
                n == offsets@.len(),
                *self == *old(self),
                forall|x: int, y: int| 0 <= x < y < n && x < a ==> offsets@[x] != offsets@[y],
            decreases n - a,
        {
            let mut b: usize = a + 1;
            while b < n
                invariant
                    old(self).wf(),
                    a < n,
                    a + 1 <= b <= n,
                    n == offsets@.len(),
                    *self == *old(self),
                    forall|y: int| a < y < b ==> offsets@[a as int] != offsets@[y],
                decreases n - b,
            {
                if offsets[a] == offsets[b] {
                    return Err(DuplicateOffset);
                }
                b = b + 1;
            }
            a = a + 1;
        }
        assert(pairwise_distinct(offsets@));
        let mut vals = values;
        proof {
            assert(vals@ =~= values@.subrange(0, n as int));
        }
        let mut k: usize = n;
        while k > 0
            invariant
                old(self).wf(),
                k <= n,
                n == offsets@.len(),
                n == values@.len(),
                pairwise_distinct(offsets@),
                vals@ == values@.subrange(0, k as int),
                forall|j: int| 0 <= j < n ==> offsets@[j] < self.raw@.len(),
                self.len == old(self).len,
                self.label == old(self).label,
                self.default == old(self).default,
                self.raw@.len() == old(self).raw@.len(),
                forall|j: int|
                    k <= j < n ==> self.raw@[offsets@[j] as int] == Cell::Owned(values@[j]),
                forall|i: usize|
                    i < self.raw@.len() ==> (self.raw@[i as int] == old(self).raw@[i as int]
                        || exists|j: int|
                        k <= j < n && offsets@[j] == i && self.raw@[i as int] == Cell::Owned(
                            values@[j],
                        )),
            decreases k,
        {
            k = k - 1;
            let v = match vals.pop() {
                Some(v) => v,
                None => unreached(),
            };
            proof {
                assert(vals@ =~= values@.subrange(0, k as int));
            }
            let off = offsets[k];
            self.raw.set(off, Cell::Owned(v));
        }
        Ok(())
    }
}

} // verus!
