//! Checkout lanes: a FIFO queue of customers (with removal from arbitrary
//! positions for early exits) paired with a cash register.
//!
//! The lane keeps its customers' `place` fields dense: the customer at
//! index `i` always carries place `i`. Every removal re-establishes that
//! invariant, so a stale place can never corrupt a later exit.

use vstd::prelude::*;
use std::collections::VecDeque;
use crate::customer::Customer;

verus! {

/// Rejection of a register debit.
#[derive(Clone, Copy, Debug, PartialEq, Eq, Structural)]
pub enum RegisterError {
    /// The register holds less cash than the debit asks for.
    InsufficientChange,
}

/// A cash register: an identifying number and its cash on hand, in cents.
pub struct Register {
    pub number: u32,
    pub funds: u64,
}

impl Register {
    /// A fresh, empty register.
    pub fn new() -> (r: Register)
        ensures
            r.number == 0,
            r.funds == 0,
    {
        Register { number: 0, funds: 0 }
    }

    /// Accepts a payment into the till.
    pub fn credit(&mut self, amount: u64)
        requires
            old(self).funds + amount <= u64::MAX,
        ensures
            final(self).number == old(self).number,
            final(self).funds == old(self).funds + amount,
    {
        self.funds = self.funds + amount;
    }

    /// Pays cash out of the till; a debit beyond the cash on hand is
    /// refused with `InsufficientChange` and the till is left unchanged,
    /// never driven negative.
    pub fn try_debit(&mut self, amount: u64) -> (r: Result<(), RegisterError>)
        ensures
            final(self).number == old(self).number,
            amount <= old(self).funds ==> final(self).funds == old(self).funds - amount && r
                == Ok::<(), RegisterError>(()),
            amount > old(self).funds ==> final(self).funds == old(self).funds && r == Err::<
                (),
                RegisterError,
            >(RegisterError::InsufficientChange),
    {
        if amount <= self.funds {
            self.funds = self.funds - amount;
            Ok(())
        } else {
            Err(RegisterError::InsufficientChange)
        }
    }
}

/// A checkout lane: the waiting customers in order, and the lane's register.
pub struct Lane {
    pub customers: VecDeque<Customer>,
    pub register: Register,
}

impl Lane {
    /// The position invariant: places are the dense sequence 0..len-1.
    pub open spec fn wf(&self) -> bool {
        forall|i: int|
            0 <= i < self.customers@.len() ==> (#[trigger] self.customers@[i]).place == i
    }

    /// An empty lane with a fresh register.
    pub fn new() -> (l: Lane)
        ensures
            l.customers@.len() == 0,
            l.register.number == 0,
            l.register.funds == 0,
            l.wf(),
    {
        Lane { customers: VecDeque::new(), register: Register::new() }
    }

    /// Re-establishes the position invariant after a removal: every
    /// customer's place becomes its index, and nothing else changes.
    pub(crate) fn reindex(&mut self)
        ensures
            final(self).register == old(self).register,
            final(self).customers@.len() == old(self).customers@.len(),
            forall|i: int|
                0 <= i < old(self).customers@.len() ==> {
                    let b = old(self).customers@[i];
                    let a = #[trigger] final(self).customers@[i];
                    a.funds == b.funds && a.cart == b.cart && a.preference == b.preference
                        && a.place == i
                },
            final(self).wf(),
    {
        let ghost orig = self.customers@;
        let n = self.customers.len();
        let mut fresh: VecDeque<Customer> = VecDeque::new();
        let mut k: usize = 0;
        while k < n
            invariant
                k <= n,
                n == orig.len(),
                self.register == old(self).register,
                self.customers@ == orig.skip(k as int),
                fresh@.len() == k,
                forall|i: int|
                    0 <= i < k ==> {
                        let b = orig[i];
                        let a = #[trigger] fresh@[i];
                        a.funds == b.funds && a.cart == b.cart && a.preference == b.preference
                            && a.place == i
                    },
            decreases n - k,
        {
            proof {
                assert(orig.skip(k as int)[0] == orig[k as int]);
            }
            let mut c = self.customers.pop_front().unwrap();
            proof {
                assert(orig.skip(k as int).subrange(1, orig.skip(k as int).len() as int) =~= orig
                    .skip(k as int + 1));
            }
            c.place = k;
            fresh.push_back(c);
            k = k + 1;
        }
        self.customers = fresh;
    }

    /// Drops the customer at the head of the lane and closes the gap, so
    /// that the remaining places stay dense; an empty lane is a no-op.
    pub fn pop_front(&mut self)
        ensures
            final(self).register == old(self).register,
            old(self).customers@.len() == 0 ==> final(self).customers@ == old(self).customers@,
            old(self).customers@.len() > 0 ==> final(self).customers@.len() == old(
                self,
            ).customers@.len() - 1 && (forall|i: int|
                0 <= i < final(self).customers@.len() ==> {
                    let b = old(self).customers@[i + 1];
                    let a = #[trigger] final(self).customers@[i];
                    a.funds == b.funds && a.cart == b.cart && a.preference == b.preference
                        && a.place == i
                }),
            final(self).wf() || old(self).customers@.len() == 0,
    {
        if self.customers.len() > 0 {
            self.customers.pop_front();
            self.reindex();
        }
    }

    /// Drops the customer at the tail of the lane; the places of the rest
    /// are untouched and stay dense. An empty lane is a no-op.
    pub fn pop_back(&mut self)
        requires
            old(self).wf(),
        ensures
            final(self).register == old(self).register,
            old(self).customers@.len() == 0 ==> final(self).customers@ == old(self).customers@,
            old(self).customers@.len() > 0 ==> final(self).customers@ == old(
                self,
            ).customers@.drop_last(),
            final(self).wf(),
    {
        if self.customers.len() > 0 {
            self.customers.pop_back();
        }
    }

    /// Appends a customer whose place already names the tail position.
    pub fn add_back(&mut self, customer: Customer)
        requires
            old(self).wf(),
            customer.place == old(self).customers@.len(),
        ensures
            final(self).register == old(self).register,
            final(self).customers@ == old(self).customers@.push(customer),
            final(self).wf(),
    {
        self.customers.push_back(customer);
    }
}

/// Entering a lane and leaving it again without settling restores the
/// lane's customer sequence: joining appends the customer at the tail, and
/// the exit of the tail removes exactly that appended entry.
pub proof fn lemma_enter_exit_lane(customers: Seq<Customer>, c: Customer)
    ensures
        customers.push(c).remove(customers.len() as int) == customers,
{
    assert(customers.push(c).remove(customers.len() as int) =~= customers);
}

} // verus!
