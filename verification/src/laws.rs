//! Container-wide laws, proved over the same model the method contracts use.
//!
//! The methods of `LazyVec` describe a single push or pop through
//! [`pushed_cells`](crate::container::pushed_cells) and a single
//! `update(len - 1, Cell::Shared)` of the backing store.  This module
//! iterates those one-step descriptions into whole push and pop sequences
//! and proves what a caller observes across them: pushing values and then
//! popping as many returns the container to its original logical length and
//! yields the values in reverse push order, and after a reset the live
//! prefix can only show the default or a freshly pushed value.

use vstd::prelude::*;

use crate::container::Cell;
use crate::container::pushed_cells;

verus! {

/// The backing store and logical length after pushing every element of
/// `vs` in order, starting from store `cells` with logical length `len`.
/// One step is exactly what `LazyVec::push` promises of its effect.
pub open spec fn push_all<T>(cells: Seq<Cell<T>>, len: nat, vs: Seq<T>) -> (Seq<Cell<T>>, nat)
    decreases vs.len(),
{
    if vs.len() == 0 {
        (cells, len)
    } else {
        let prev = push_all(cells, len, vs.drop_last());
        (pushed_cells(prev.0, prev.1, vs.last()), (prev.1 + 1) as nat)
    }
}

/// The value one pop returns: the owned payload of the last live cell.
pub open spec fn popped_value<T>(cells: Seq<Cell<T>>, len: nat) -> T
    recommends
        len >= 1,
        cells[len - 1] is Owned,
{
    match cells[len - 1] {
        Cell::Owned(v) => v,
        Cell::Shared => arbitrary(),
    }
}

/// The backing store, logical length and returned values after `n` pops,
/// in pop order.  One step is exactly what `LazyVec::pop` promises of its
/// effect: the popped slot is reset to `Shared` and the length shrinks.
pub open spec fn pop_all<T>(cells: Seq<Cell<T>>, len: nat, n: nat) -> (
    Seq<Cell<T>>,
    nat,
    Seq<T>,
)
    decreases n,
{
    if n == 0 {
        (cells, len, Seq::empty())
    } else {
        let v = popped_value(cells, len);
        let c1 = cells.update(len - 1, Cell::Shared);
        let rest = pop_all(c1, (len - 1) as nat, (n - 1) as nat);
        (rest.0, rest.1, seq![v] + rest.2)
    }
}

/// `vs` in reverse order: the last element first.
pub open spec fn rev<T>(vs: Seq<T>) -> Seq<T>
    decreases vs.len(),
{
    if vs.len() == 0 {
        Seq::empty()
    } else {
        seq![vs.last()] + rev(vs.drop_last())
    }
}

/// `rev` really is elementwise reversal.
pub proof fn lemma_rev_is_reverse<T>(vs: Seq<T>)
    ensures
        rev(vs).len() == vs.len(),
        forall|k: int| 0 <= k < vs.len() ==> rev(vs)[k] == vs[vs.len() - 1 - k],
    decreases vs.len(),
{
    if vs.len() > 0 {
        lemma_rev_is_reverse(vs.drop_last());
    }
}

/// What a sequence of pushes does to the store: the length grows by one per
/// push, the pushed values sit owned at consecutive offsets starting at the
/// old length, and every other cell — below the old length or above the
/// pushed range — is untouched.
pub proof fn lemma_push_all_props<T>(cells: Seq<Cell<T>>, len: nat, vs: Seq<T>)
    requires
        len <= cells.len(),
    ensures
        ({
            let r = push_all(cells, len, vs);
            &&& r.1 == len + vs.len()
            &&& r.1 <= r.0.len()
            &&& r.0.len() == if len + vs.len() <= cells.len() {
                cells.len() as int
            } else {
                (len + vs.len()) as int
            }
            &&& forall|i: int| 0 <= i < len ==> r.0[i] == cells[i]
            &&& forall|k: int| 0 <= k < vs.len() ==> r.0[len + k] == Cell::Owned(vs[k])
            &&& forall|i: int| len + vs.len() <= i < cells.len() ==> r.0[i] == cells[i]
        }),
    decreases vs.len(),
{
    if vs.len() > 0 {
        lemma_push_all_props(cells, len, vs.drop_last());
        let prev = push_all(cells, len, vs.drop_last());
        let r = push_all(cells, len, vs);
        assert(r.0 == pushed_cells(prev.0, prev.1, vs.last()));
        assert(prev.1 == len + vs.len() - 1);
        assert forall|k: int| 0 <= k < vs.len() implies r.0[len + k] == Cell::Owned(vs[k]) by {
            if k < vs.len() - 1 {
                assert(vs.drop_last()[k] == vs[k]);
                assert(prev.0[len + k] == Cell::Owned(vs[k]));
            } else {
                assert(vs.last() == vs[k]);
            }
        }
    }
}

/// Pops read only the live prefix: two stores that agree below the logical
/// length yield the same lengths and the same values, pop for pop.
pub proof fn lemma_pop_all_agrees<T>(c1: Seq<Cell<T>>, c2: Seq<Cell<T>>, len: nat, n: nat)
    requires
        n <= len,
        len <= c1.len(),
        len <= c2.len(),
        forall|i: int| 0 <= i < len ==> c1[i] == c2[i],
    ensures
        pop_all(c1, len, n).1 == pop_all(c2, len, n).1,
        pop_all(c1, len, n).2 == pop_all(c2, len, n).2,
    decreases n,
{
    if n > 0 {
        let d1 = c1.update(len - 1, Cell::Shared);
        let d2 = c2.update(len - 1, Cell::Shared);
        lemma_pop_all_agrees(d1, d2, (len - 1) as nat, (n - 1) as nat);
    }
}

/// Round trip: pushing the values of `vs` and then popping as many times
/// returns the container to its original logical length, and the pops yield
/// the pushed values in reverse push order.  Starting from an empty
/// container (`len == 0`), the round trip therefore ends logically empty.
pub proof fn lemma_push_pop_round_trip<T>(cells: Seq<Cell<T>>, len: nat, vs: Seq<T>)
    requires
        len <= cells.len(),
    ensures
        ({
            let p = push_all(cells, len, vs);
            let q = pop_all(p.0, p.1, vs.len());
            &&& q.1 == len
            &&& q.2 == rev(vs)
        }),
    decreases vs.len(),
{
    if vs.len() > 0 {
        let n = vs.len();
        let prev = push_all(cells, len, vs.drop_last());
        lemma_push_all_props(cells, len, vs.drop_last());
        lemma_push_all_props(cells, len, vs);
        let p = push_all(cells, len, vs);
        assert(p.0 == pushed_cells(prev.0, prev.1, vs.last()));
        assert(p.0[prev.1 as int] == Cell::Owned(vs.last()));
        let c1 = p.0.update(prev.1 as int, Cell::Shared);
        lemma_push_pop_round_trip(cells, len, vs.drop_last());
        lemma_pop_all_agrees(c1, prev.0, prev.1, (n - 1) as nat);
        assert(pop_all(p.0, p.1, n).2 == seq![vs.last()] + pop_all(c1, prev.1, (n - 1) as nat).2);
    }
}

/// No leftovers after a reset: starting from a store whose cells below
/// `lim` are all `Shared` — the state `reinit(lim)` leaves behind — a
/// sequence of pushes can only make a cell below `lim` show the shared
/// default or one of the freshly pushed values, never anything older.
pub proof fn lemma_fresh_reads_after_reset<T>(
    cells: Seq<Cell<T>>,
    len: nat,
    vs: Seq<T>,
    lim: nat,
    i: int,
)
    requires
        len <= cells.len(),
        forall|j: int| 0 <= j < lim && j < cells.len() ==> cells[j] is Shared,
        0 <= i < lim,
        i < push_all(cells, len, vs).0.len(),
    ensures
        push_all(cells, len, vs).0[i] is Shared || (exists|k: int|
            0 <= k < vs.len() && i == len + k && push_all(cells, len, vs).0[i] == Cell::Owned(
                vs[k],
            )),
{
    lemma_push_all_props(cells, len, vs);
    let r = push_all(cells, len, vs);
    if i < len {
        assert(r.0[i] == cells[i]);
    } else if i < len + vs.len() {
        let k = i - len;
        assert(r.0[len + k] == Cell::Owned(vs[k]));
    } else {
        assert(i < cells.len());
        assert(r.0[i] == cells[i]);
    }
}

} // verus!
