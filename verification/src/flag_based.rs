//! Flag-based lending.
//!
//! `AtomicLendCell<T>` owns a value and a single alive flag. Issuing a borrow
//! is a pure copy of the back-reference — no count is kept — and the flag is
//! cleared exactly once, at teardown. Accessing or releasing a borrow is
//! valid only while the flag still reads alive; the `try_` variants perform
//! that check at run time and report the outcome instead of requiring it.

use vstd::prelude::*;

verus! {

/// The abstract state of a flag-based lender: the identity of its liveness
/// flag, the lent value, and whether the lender is still alive.
pub ghost struct LendState<T> {
    pub id: int,
    pub value: T,
    pub alive: bool,
}

/// The abstract state of a borrow: which lender's liveness flag it points
/// back at, and the value it was issued for.
pub ghost struct BorrowState<T> {
    pub lender_id: int,
    pub value: T,
}

/// The owner. It holds the payload by value together with the alive flag;
/// the flag models the atomic boolean whose address every issued borrow
/// keeps as its back-reference.
pub struct AtomicLendCell<T> {
    data: T,
    is_alive: bool,
    id: Ghost<int>,
}

/// A non-owning handle to a value lent by an `AtomicLendCell`. Duplicating
/// it is a free copy — no counter exists — and its validity is checked
/// against the lender's alive flag at each access.
#[derive(Clone, Copy)]
pub struct AtomicBorrowCell<T> {
    lender: Ghost<int>,
    value: Ghost<T>,
}

impl<T> View for AtomicLendCell<T> {
    type V = LendState<T>;

    closed spec fn view(&self) -> LendState<T> {
        LendState { id: self.id@, value: self.data, alive: self.is_alive }
    }
}

impl<T> View for AtomicBorrowCell<T> {
    type V = BorrowState<T>;

    closed spec fn view(&self) -> BorrowState<T> {
        BorrowState { lender_id: self.lender@, value: self.value@ }
    }
}

impl<T> AtomicLendCell<T> {
    /// Wraps `data`; the alive flag starts true.
    pub fn new(data: T) -> (r: Self)
        ensures
            r@.value == data,
            r@.alive,
    {
        AtomicLendCell { data, is_alive: true, id: Ghost(arbitrary()) }
    }

    /// Direct read access to the payload. Valid only while the lender has
    /// not been torn down.
    pub fn as_ref(&self) -> (r: &T)
        requires
            self@.alive,
        ensures
            *r == self@.value,
    {
        &self.data
    }

    /// Issues a borrow of the payload: a pure copy of the back-reference,
    /// with no count kept and no state changed — the performance motivation
    /// for this strategy.
    pub fn borrow(&self) -> (r: AtomicBorrowCell<T>)
        ensures
            r.is_for(*self),
    {
        AtomicBorrowCell { lender: Ghost(self.id@), value: Ghost(self.data) }
    }

    /// Tears the lender down: the alive flag transitions true to false,
    /// exactly once, and nothing sets it back. Outstanding borrows are not
    /// waited for — detecting them is what the flag is for.
    pub fn retire(&mut self)
        ensures
            final(self)@.id == old(self)@.id,
            final(self)@.value == old(self)@.value,
            !final(self)@.alive,
    {
        self.is_alive = false;
    }

    /// Reads the alive flag.
    pub fn is_alive(&self) -> (r: bool)
        ensures
            r == self@.alive,
    {
        self.is_alive
    }
}

impl<'a, T> AtomicLendCell<&'a T> {
    /// Issues a borrow that is entitled to the referenced value rather than
    /// to the reference slot itself, for a lender whose payload is already a
    /// reference. As with `borrow`, no state changes.
    pub fn borrow_deref(&self) -> (r: AtomicBorrowCell<T>)
        ensures
            r.is_for_referenced(*self),
    {
        AtomicBorrowCell { lender: Ghost(self.id@), value: Ghost(*self.data) }
    }
}

impl<T> AtomicBorrowCell<T> {
    /// Holds when this borrow was issued by `cell`: it points back at that
    /// lender's liveness flag, and the value it is entitled to read is the
    /// lender's payload.
    pub open spec fn is_for(self, cell: AtomicLendCell<T>) -> bool {
        self@.lender_id == cell@.id && self@.value == cell@.value
    }

    /// Holds when this borrow was issued by `cell` through `borrow_deref`:
    /// it points back at that lender's liveness flag, and the value it is
    /// entitled to read is the one the lender's payload refers to.
    pub open spec fn is_for_referenced(self, cell: AtomicLendCell<&T>) -> bool {
        self@.lender_id == cell@.id && self@.value == *cell@.value
    }

    /// Reads the borrowed value through the lender it was issued by.
    /// Accessing a borrow after its lender was torn down is the fatal
    /// lifetime violation, so the lender must still be alive: verified
    /// callers can never reach the dangling read.
    pub fn as_ref<'a>(&self, cell: &'a AtomicLendCell<T>) -> (r: &'a T)
        requires
            self.is_for(*cell),
            cell@.alive,
        ensures
            *r == self@.value,
            *r == cell@.value,
    {
        &cell.data
    }

    /// Reads the referenced value for a borrow issued by `borrow_deref`.
    pub fn as_ref_deref<'a>(&self, cell: &AtomicLendCell<&'a T>) -> (r: &'a T)
        requires
            self.is_for_referenced(*cell),
            cell@.alive,
        ensures
            *r == self@.value,
    {
        let inner: &&'a T = &cell.data;
        *inner
    }

    /// Checks the alive flag before reading, as a verification build does:
    /// the value comes back exactly when the lender is still alive, and an
    /// access after teardown is detected and refused rather than performed.
    pub fn try_as_ref<'a>(&self, cell: &'a AtomicLendCell<T>) -> (r: Option<&'a T>)
        requires
            self.is_for(*cell),
        ensures
            r is Some <==> cell@.alive,
            cell@.alive ==> *r->0 == self@.value,
    {
        if cell.is_alive {
            Some(&cell.data)
        } else {
            None
        }
    }

    /// Releases this borrow. No count exists, so nothing is decremented;
    /// but a borrow released after its lender was torn down is the fatal
    /// ordering violation, so the lender must still be alive. The lender's
    /// payload type is left generic so that borrows issued by `borrow_deref`
    /// can be released too.
    pub fn release<U>(self, cell: &AtomicLendCell<U>)
        requires
            self@.lender_id == cell@.id,
            cell@.alive,
    {
    }

    /// Checks the alive flag while releasing, as a verification build does:
    /// reports true exactly when the lender was still alive, so a release
    /// after teardown is detected rather than passed over.
    pub fn try_release<U>(self, cell: &AtomicLendCell<U>) -> (r: bool)
        requires
            self@.lender_id == cell@.id,
        ensures
            r == cell@.alive,
    {
        cell.is_alive
    }
}

/// Law: a borrow's entitlement depends only on the lender's identity and
/// payload, both of which `retire` preserves, so entitlement survives
/// teardown. Liveness is the separate, one-way condition that `retire`
/// clears — which is why every access checks the flag as well, and why
/// `try_as_ref` answers `None` for a still-entitled borrow of a retired
/// lender.
pub proof fn lemma_entitlement_stable<T>(
    b: AtomicBorrowCell<T>,
    before: AtomicLendCell<T>,
    after: AtomicLendCell<T>,
)
    requires
        b.is_for(before),
        after@.id == before@.id,
        after@.value == before@.value,
    ensures
        b.is_for(after),
{
}

} // verus!
