//! A mutable cell whose borrows are checked while the program runs.
//!
//! The cell keeps a borrow state. Taking a borrow hands out a guard token and
//! moves the state forward; giving the guard back moves it toward `Unused`.
//! Reading needs a shared or exclusive guard's state, writing an exclusive one.
use vstd::prelude::*;

verus! {

/// Which borrows of a cell are live.
#[derive(PartialEq, Eq, Structural, Debug, Clone, Copy)]
pub enum BorrowState {
    Unused,
    /// The number of live shared borrows; at least one.
    Shared(usize),
    Exclusive,
}

/// Why a borrow was refused.
#[derive(PartialEq, Eq, Structural, Debug, Clone, Copy)]
pub enum BorrowError {
    /// A shared borrow was asked for while an exclusive one is live.
    AlreadyExclusivelyBorrowed,
    /// An exclusive borrow was asked for while any borrow is live.
    AlreadyBorrowed,
}

/// A live shared borrow of a `RefCell`; hand it back with `RefCell::release`.
#[derive(Debug)]
pub struct Ref {
    _token: (),
}

/// A live exclusive borrow of a `RefCell`; hand it back with
/// `RefCell::release_mut`.
#[derive(Debug)]
pub struct RefMut {
    _token: (),
}

/// A state that the borrow rule allows: a shared count is never zero.
pub open spec fn legal(s: BorrowState) -> bool {
    match s {
        BorrowState::Shared(n) => n >= 1,
        _ => true,
    }
}

/// The state after a shared borrow, or `None` where it is refused.
pub open spec fn after_borrow(s: BorrowState) -> Option<BorrowState> {
    match s {
        BorrowState::Unused => Some(BorrowState::Shared(1)),
        BorrowState::Shared(n) => Some(BorrowState::Shared((n + 1) as usize)),
        BorrowState::Exclusive => None,
    }
}

/// The state after an exclusive borrow, or `None` where it is refused.
pub open spec fn after_borrow_mut(s: BorrowState) -> Option<BorrowState> {
    match s {
        BorrowState::Unused => Some(BorrowState::Exclusive),
        _ => None,
    }
}

/// The state after one live borrow is given back.
pub open spec fn after_release(s: BorrowState) -> BorrowState {
    match s {
        BorrowState::Shared(n) => if n <= 1 {
            BorrowState::Unused
        } else {
            BorrowState::Shared((n - 1) as usize)
        },
        _ => BorrowState::Unused,
    }
}

/// Whether one more shared borrow can be counted.
pub open spec fn room_for_shared(s: BorrowState) -> bool {
    s != BorrowState::Shared(usize::MAX)
}

/// A value with a borrow state.
#[derive(Debug)]
pub struct RefCell<T> {
    value: T,
    state: BorrowState,
}

impl<T> RefCell<T> {
    /// The stored value.
    pub closed spec fn spec_value(&self) -> T {
        self.value
    }

    /// The borrow state.
    pub closed spec fn spec_state(&self) -> BorrowState {
        self.state
    }

    /// The borrow state is one the borrow rule allows.
    pub open spec fn wf(&self) -> bool {
        legal(self.spec_state())
    }

    /// A cell holding `value`, with no borrow live.
    pub fn new(value: T) -> (c: RefCell<T>)
        ensures
            c.wf(),
            c.spec_value() == value,
            c.spec_state() == BorrowState::Unused,
    {
        RefCell { value, state: BorrowState::Unused }
    }

    /// The current borrow state.
    pub fn state(&self) -> (r: BorrowState)
        ensures
            r == self.spec_state(),
    {
        self.state
    }

    /// Takes a shared borrow, or reports why it is refused.
    pub fn try_borrow(&mut self) -> (r: Result<Ref, BorrowError>)
        requires
            old(self).wf(),
            room_for_shared(old(self).spec_state()),
        ensures
            final(self).wf(),
            final(self).spec_value() == old(self).spec_value(),
            match after_borrow(old(self).spec_state()) {
                Some(s) => r is Ok && final(self).spec_state() == s,
                None => r == Err::<Ref, BorrowError>(BorrowError::AlreadyExclusivelyBorrowed)
                    && final(self).spec_state() == old(self).spec_state(),
            },
    {
        match self.state {
            BorrowState::Unused => {
                self.state = BorrowState::Shared(1);
                Ok(Ref { _token: () })
            },
            BorrowState::Shared(n) => {
                self.state = BorrowState::Shared(n + 1);
                Ok(Ref { _token: () })
            },
            BorrowState::Exclusive => Err(BorrowError::AlreadyExclusivelyBorrowed),
        }
    }

    /// Takes a shared borrow. Asking for one while an exclusive borrow is
    /// live is a logic error, ruled out by the precondition.
    pub fn borrow(&mut self) -> (r: Ref)
        requires
            old(self).wf(),
            room_for_shared(old(self).spec_state()),
            old(self).spec_state() != BorrowState::Exclusive,
        ensures
            final(self).wf(),
            final(self).spec_value() == old(self).spec_value(),
            Some(final(self).spec_state()) == after_borrow(old(self).spec_state()),
    {
        match self.state {
            BorrowState::Shared(n) => {
                self.state = BorrowState::Shared(n + 1);
            },
            _ => {
                self.state = BorrowState::Shared(1);
            },
        }
        Ref { _token: () }
    }

    /// Takes an exclusive borrow, or reports why it is refused.
    pub fn try_borrow_mut(&mut self) -> (r: Result<RefMut, BorrowError>)
        requires
            old(self).wf(),
        ensures
            final(self).wf(),
            final(self).spec_value() == old(self).spec_value(),
            match after_borrow_mut(old(self).spec_state()) {
                Some(s) => r is Ok && final(self).spec_state() == s,
                None => r == Err::<RefMut, BorrowError>(BorrowError::AlreadyBorrowed)
                    && final(self).spec_state() == old(self).spec_state(),
            },
    {
        match self.state {
            BorrowState::Unused => {
                self.state = BorrowState::Exclusive;
                Ok(RefMut { _token: () })
            },
            _ => Err(BorrowError::AlreadyBorrowed),
        }
    }

    /// Takes an exclusive borrow. Asking for one while any borrow is live is
    /// a logic error, ruled out by the precondition.
    pub fn borrow_mut(&mut self) -> (r: RefMut)
        requires
            old(self).wf(),
            old(self).spec_state() == BorrowState::Unused,
        ensures
            final(self).wf(),
            final(self).spec_value() == old(self).spec_value(),
            final(self).spec_state() == BorrowState::Exclusive,
    {
        self.state = BorrowState::Exclusive;
        RefMut { _token: () }
    }

    /// Gives a shared borrow back.
    pub fn release(&mut self, guard: Ref)
        requires
            old(self).wf(),
            old(self).spec_state() is Shared,
        ensures
            final(self).wf(),
            final(self).spec_value() == old(self).spec_value(),
            final(self).spec_state() == after_release(old(self).spec_state()),
    {
        let Ref { _token } = guard;
        match self.state {
            BorrowState::Shared(n) => {
                if n <= 1 {
                    self.state = BorrowState::Unused;
                } else {
                    self.state = BorrowState::Shared(n - 1);
                }
            },
            _ => {},
        }
    }

    /// Gives the exclusive borrow back.
    pub fn release_mut(&mut self, guard: RefMut)
        requires
            old(self).wf(),
            old(self).spec_state() == BorrowState::Exclusive,
        ensures
            final(self).wf(),
            final(self).spec_value() == old(self).spec_value(),
            final(self).spec_state() == after_release(old(self).spec_state()),
    {
        let RefMut { _token } = guard;
        self.state = BorrowState::Unused;
    }

    /// Reads the value under a live shared borrow.
    pub fn value(&self, guard: &Ref) -> (r: &T)
        requires
            self.spec_state() is Shared,
        ensures
            *r == self.spec_value(),
    {
        &self.value
    }

    /// Reads or writes the value under the live exclusive borrow.
    pub fn value_mut(&mut self, guard: &RefMut) -> (r: &mut T)
        requires
            old(self).spec_state() == BorrowState::Exclusive,
        ensures
            *r == old(self).spec_value(),
            final(self).spec_value() == *final(r),
            final(self).spec_state() == old(self).spec_state(),
    {
        &mut self.value
    }

    /// Consumes the cell and returns its value.
    pub fn into_inner(self) -> (r: T)
        ensures
            r == self.spec_value(),
    {
        self.value
    }
}

/// The state after `n` shared borrows in a row, or `None` once one is refused.
pub open spec fn after_borrows(s: BorrowState, n: nat) -> Option<BorrowState>
    decreases n,
{
    if n == 0 {
        Some(s)
    } else {
        match after_borrows(s, (n - 1) as nat) {
            Some(t) => after_borrow(t),
            None => None,
        }
    }
}

/// The state after `n` live borrows are given back one by one.
pub open spec fn after_releases(s: BorrowState, n: nat) -> BorrowState
    decreases n,
{
    if n == 0 {
        s
    } else {
        after_release(after_releases(s, (n - 1) as nat))
    }
}

/// Every transition keeps the borrow state legal: never a shared count of
/// zero, and never shared and exclusive borrows at once.
pub proof fn lemma_transitions_keep_legal(s: BorrowState)
    requires
        legal(s),
    ensures
        room_for_shared(s) ==> (after_borrow(s) matches Some(t) ==> legal(t) && t is Shared),
        after_borrow_mut(s) matches Some(t) ==> t == BorrowState::Exclusive,
        legal(after_release(s)),
{
}

/// While any borrow is live an exclusive borrow is refused, and while the
/// exclusive borrow is live a shared one is refused too; `try_borrow_mut`
/// and `try_borrow` report these refusals as `AlreadyBorrowed` and
/// `AlreadyExclusivelyBorrowed`.
pub proof fn lemma_refused_while_borrowed(s: BorrowState)
    ensures
        s != BorrowState::Unused ==> after_borrow_mut(s) is None,
        s == BorrowState::Exclusive ==> after_borrow(s) is None,
        s != BorrowState::Exclusive ==> after_borrow(s) is Some,
{
}

/// Giving back `k` of `n` shared borrows leaves `n - k` of them.
proof fn lemma_releases_count_down(n: nat, k: nat)
    requires
        k < n <= usize::MAX,
    ensures
        after_releases(BorrowState::Shared(n as usize), k) == BorrowState::Shared((n - k) as usize),
    decreases k,
{
    if k > 0 {
        lemma_releases_count_down(n, (k - 1) as nat);
    }
}

/// Starting from an unused cell, `n` shared borrows leave exactly `n` live.
proof fn lemma_borrows_count_up(n: nat)
    requires
        1 <= n <= usize::MAX,
    ensures
        after_borrows(BorrowState::Unused, n) == Some(BorrowState::Shared(n as usize)),
    decreases n,
{
    if n > 1 {
        lemma_borrows_count_up((n - 1) as nat);
    } else {
        assert(after_borrows(BorrowState::Unused, 0) == Some(BorrowState::Unused));
    }
}

/// One borrow episode: after `n` shared borrows of an unused cell are all
/// given back, the cell is unused again and an exclusive borrow succeeds.
pub proof fn lemma_episode_ends_unused(n: nat)
    requires
        1 <= n <= usize::MAX,
    ensures
        after_borrows(BorrowState::Unused, n) == Some(BorrowState::Shared(n as usize)),
        after_releases(BorrowState::Shared(n as usize), n) == BorrowState::Unused,
        after_borrow_mut(after_releases(BorrowState::Shared(n as usize), n)) == Some(
            BorrowState::Exclusive,
        ),
{
    lemma_borrows_count_up(n);
    lemma_releases_count_down(n, (n - 1) as nat);
}

} // verus!
