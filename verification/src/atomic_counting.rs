//! Reference-counted lending.
//!
//! `AtomicLendCell<T>` owns a value and a count of outstanding borrows;
//! issuing a borrow increments the count, releasing one decrements it, and
//! teardown is admitted only while the count is zero. The count converts an
//! improper lifetime ordering into a deterministic refusal at the owner's
//! teardown point instead of a silent dangling read at the borrower's access
//! point.

use vstd::prelude::*;

verus! {

/// The abstract state of a reference-counted lender: the identity of its
/// liveness word, the lent value, and the number of outstanding borrows.
pub ghost struct LendState<T> {
    pub id: int,
    pub value: T,
    pub refcount: nat,
}

/// The abstract state of a borrow: which lender's liveness word it points
/// back at, and the value it was issued for.
pub ghost struct BorrowState<T> {
    pub lender_id: int,
    pub value: T,
}

/// The owner. It holds the payload by value together with the liveness
/// counter; the counter models the atomic word whose address every issued
/// borrow keeps as its back-reference.
pub struct AtomicLendCell<T> {
    data: T,
    refcount: usize,
    id: Ghost<int>,
}

/// A non-owning handle to a value lent by an `AtomicLendCell`. It never owns
/// or copies the payload: it records (in ghost state) the identity of the
/// lender's liveness word and the value it is entitled to read, and all
/// access is mediated by the lender it points back at.
pub struct AtomicBorrowCell<T> {
    lender: Ghost<int>,
    value: Ghost<T>,
}

impl<T> View for AtomicLendCell<T> {
    type V = LendState<T>;

    closed spec fn view(&self) -> LendState<T> {
        LendState { id: self.id@, value: self.data, refcount: self.refcount as nat }
    }
}

impl<T> View for AtomicBorrowCell<T> {
    type V = BorrowState<T>;

    closed spec fn view(&self) -> BorrowState<T> {
        BorrowState { lender_id: self.lender@, value: self.value@ }
    }
}

impl<T> AtomicLendCell<T> {
    /// Wraps `data`; the outstanding-borrow count starts at zero.
    pub fn new(data: T) -> (r: Self)
        ensures
            r@.value == data,
            r@.refcount == 0,
    {
        AtomicLendCell { data, refcount: 0, id: Ghost(arbitrary()) }
    }

    /// Direct read access to the payload, without touching the count.
    pub fn as_ref(&self) -> (r: &T)
        ensures
            *r == self@.value,
    {
        &self.data
    }

    /// Issues a borrow of the payload: the outstanding-borrow count goes up
    /// by one and the returned handle points back at this lender. The bound
    /// on the count is a machine limit of the counter word.
    pub fn borrow(&mut self) -> (r: AtomicBorrowCell<T>)
        requires
            old(self)@.refcount < usize::MAX,
        ensures
            final(self)@.id == old(self)@.id,
            final(self)@.value == old(self)@.value,
            final(self)@.refcount == old(self)@.refcount + 1,
            r.is_for(*final(self)),
    {
        self.refcount = self.refcount + 1;
        AtomicBorrowCell { lender: Ghost(self.id@), value: Ghost(self.data) }
    }

    /// Reads the outstanding-borrow count.
    pub fn refcount(&self) -> (r: usize)
        ensures
            r == self@.refcount,
    {
        self.refcount
    }

    /// Tears the lender down, handing the payload back. Admitted only once
    /// every issued borrow has been released: tearing down with a borrow
    /// outstanding is the fatal lifetime violation, which verified callers
    /// can never reach.
    pub fn into_inner(self) -> (r: T)
        requires
            self@.refcount == 0,
        ensures
            r == self@.value,
    {
        self.data
    }

    /// Attempts teardown, detecting the lifetime violation instead of
    /// assuming its absence: the payload comes back exactly when no borrow
    /// is outstanding, and otherwise the lender is returned untouched.
    pub fn try_into_inner(self) -> (r: Result<T, Self>)
        ensures
            self@.refcount == 0 ==> r == Ok::<T, Self>(self@.value),
            self@.refcount != 0 ==> r == Err::<T, Self>(self),
    {
        if self.refcount == 0 {
            Ok(self.data)
        } else {
            Err(self)
        }
    }
}

impl<'a, T> AtomicLendCell<&'a T> {
    /// Issues a borrow that is entitled to the referenced value rather than
    /// to the reference slot itself, for a lender whose payload is already a
    /// reference. The count is maintained exactly as in `borrow`.
    pub fn borrow_deref(&mut self) -> (r: AtomicBorrowCell<T>)
        requires
            old(self)@.refcount < usize::MAX,
        ensures
            final(self)@.id == old(self)@.id,
            final(self)@.value == old(self)@.value,
            final(self)@.refcount == old(self)@.refcount + 1,
            r.is_for_referenced(*final(self)),
    {
        self.refcount = self.refcount + 1;
        AtomicBorrowCell { lender: Ghost(self.id@), value: Ghost(*self.data) }
    }
}

impl<T> AtomicBorrowCell<T> {
    /// Holds when this borrow was issued by `cell`: it points back at that
    /// lender's liveness word, and the value it is entitled to read is the
    /// lender's payload.
    pub open spec fn is_for(self, cell: AtomicLendCell<T>) -> bool {
        self@.lender_id == cell@.id && self@.value == cell@.value
    }

    /// Holds when this borrow was issued by `cell` through `borrow_deref`:
    /// it points back at that lender's liveness word, and the value it is
    /// entitled to read is the one the lender's payload refers to.
    pub open spec fn is_for_referenced(self, cell: AtomicLendCell<&T>) -> bool {
        self@.lender_id == cell@.id && self@.value == *cell@.value
    }

    /// Reads the borrowed value through the lender it was issued by. No
    /// liveness check is made here: the count mechanism guards teardown, so
    /// a borrow of a still-existing lender is always entitled to read.
    pub fn as_ref<'a>(&self, cell: &'a AtomicLendCell<T>) -> (r: &'a T)
        requires
            self.is_for(*cell),
        ensures
            *r == self@.value,
            *r == cell@.value,
    {
        &cell.data
    }

    /// Reads the referenced value for a borrow issued by `borrow_deref`.
    pub fn as_ref_deref<'a>(&self, cell: &AtomicLendCell<&'a T>) -> (r: &'a T)
        requires
            self.is_for_referenced(*cell),
        ensures
            *r == self@.value,
    {
        let inner: &&'a T = &cell.data;
        *inner
    }

    /// Duplicates this borrow, incrementing the lender's count by one, as
    /// cloning a handle must. The lender's payload type is left generic so
    /// that borrows issued by `borrow_deref` can be duplicated too: only the
    /// count is touched.
    pub fn duplicate<U>(&self, cell: &mut AtomicLendCell<U>) -> (r: Self)
        requires
            self@.lender_id == old(cell)@.id,
            old(cell)@.refcount < usize::MAX,
        ensures
            final(cell)@.id == old(cell)@.id,
            final(cell)@.value == old(cell)@.value,
            final(cell)@.refcount == old(cell)@.refcount + 1,
            r@ == self@,
    {
        cell.refcount = cell.refcount + 1;
        AtomicBorrowCell { lender: Ghost(self.lender@), value: Ghost(self.value@) }
    }

    /// Releases this borrow, decrementing the lender's count by one. A live
    /// borrow always finds the count at one or more — every issue
    /// incremented it and only a release decrements it — so the requirement
    /// states the invariant a valid caller already holds.
    pub fn release<U>(self, cell: &mut AtomicLendCell<U>)
        requires
            self@.lender_id == old(cell)@.id,
            old(cell)@.refcount >= 1,
        ensures
            final(cell)@.id == old(cell)@.id,
            final(cell)@.value == old(cell)@.value,
            final(cell)@.refcount == old(cell)@.refcount - 1,
    {
        cell.refcount = cell.refcount - 1;
    }
}

/// Law: a borrow's entitlement depends only on the lender's identity and
/// payload, never on the count. Every `borrow`, `borrow_deref`, `duplicate`
/// and `release` preserves both, by its contract, so no operation on other
/// borrows ever invalidates an outstanding one — the drops of a family of
/// borrows may interleave in any order.
pub proof fn lemma_entitlement_stable<T>(
    b: AtomicBorrowCell<T>,
    before: AtomicLendCell<T>,
    after: AtomicLendCell<T>,
)
    requires
        b.is_for(before),
        after@.id == before@.id,
        after@.value == before@.value,
    ensures
        b.is_for(after),
{
}

/// The outstanding-borrow count after a history of liveness events, starting
/// from `start`. An event is `true` for an issue (`borrow`, `borrow_deref` or
/// `duplicate`, each of which adds one to the count) and `false` for a
/// `release` (which subtracts one), exactly as the contracts above state.
pub open spec fn count_after(start: int, ops: Seq<bool>) -> int
    decreases ops.len(),
{
    if ops.len() == 0 {
        start
    } else {
        count_after(if ops[0] { start + 1 } else { start - 1 }, ops.drop_first())
    }
}

/// How many events of a history are issues.
pub open spec fn issue_count(ops: Seq<bool>) -> int
    decreases ops.len(),
{
    if ops.len() == 0 {
        0
    } else {
        (if ops[0] { 1int } else { 0int }) + issue_count(ops.drop_first())
    }
}

/// How many events of a history are releases.
pub open spec fn release_count(ops: Seq<bool>) -> int
    decreases ops.len(),
{
    if ops.len() == 0 {
        0
    } else {
        (if ops[0] { 0int } else { 1int }) + release_count(ops.drop_first())
    }
}

proof fn lemma_count_after_net(start: int, ops: Seq<bool>)
    ensures
        count_after(start, ops) == start + issue_count(ops) - release_count(ops),
    decreases ops.len(),
{
    if ops.len() > 0 {
        lemma_count_after_net(if ops[0] { start + 1 } else { start - 1 }, ops.drop_first());
    }
}

proof fn lemma_counts_push(ops: Seq<bool>, b: bool)
    ensures
        issue_count(ops.push(b)) == issue_count(ops) + (if b { 1int } else { 0int }),
        release_count(ops.push(b)) == release_count(ops) + (if b { 0int } else { 1int }),
    decreases ops.len(),
{
    assert(issue_count(ops.push(b)) == (if ops.push(b)[0] {
        1int
    } else {
        0int
    }) + issue_count(ops.push(b).drop_first()));
    assert(release_count(ops.push(b)) == (if ops.push(b)[0] {
        0int
    } else {
        1int
    }) + release_count(ops.push(b).drop_first()));
    if ops.len() == 0 {
        assert(ops.push(b)[0] == b);
        assert(ops.push(b).drop_first() =~= Seq::<bool>::empty());
    } else {
        assert(ops.push(b)[0] == ops[0]);
        assert(ops.push(b).drop_first() =~= ops.drop_first().push(b));
        lemma_counts_push(ops.drop_first(), b);
    }
}

/// Law: for any history of issues and releases in which, at every point, no
/// more borrows have been released than were issued, the count never falls
/// below its starting value; each release finds the count at one above the
/// start or more, so with a non-negative start the release of a live borrow
/// always finds a positive count; and once every issued borrow has been
/// released, the count stands exactly where it started — so a lender that
/// began with no outstanding borrows can be torn down. This holds for any
/// interleaving of the events, and covers duplicated borrows, which count
/// as issues.
pub proof fn lemma_balanced_history_restores_count(start: int, ops: Seq<bool>)
    requires
        start >= 0,
        forall|i: int|
            0 <= i <= ops.len() ==> release_count(#[trigger] ops.take(i)) <= issue_count(
                ops.take(i),
            ),
    ensures
        forall|i: int| 0 <= i <= ops.len() ==> count_after(start, #[trigger] ops.take(i)) >= start,
        forall|i: int|
            0 <= i < ops.len() && !ops[i] ==> count_after(start, #[trigger] ops.take(i)) >= start
                + 1,
        issue_count(ops) == release_count(ops) ==> count_after(start, ops) == start,
{
    assert forall|i: int| 0 <= i <= ops.len() implies count_after(start, ops.take(i)) >= start by {
        lemma_count_after_net(start, ops.take(i));
    }
    assert forall|i: int| 0 <= i < ops.len() && !ops[i] implies count_after(start, ops.take(i))
        >= start + 1 by {
        assert(ops.take(i + 1) =~= ops.take(i).push(ops[i]));
        lemma_counts_push(ops.take(i), ops[i]);
        lemma_count_after_net(start, ops.take(i));
    }
    assert(ops.take(ops.len() as int) =~= ops);
    lemma_count_after_net(start, ops);
}

} // verus!
