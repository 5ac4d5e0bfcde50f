//! Per-holder share balances and the total of all shares.
use vstd::prelude::*;
use crate::types::{AccountId, Balance, ExchangeError};

verus! {

/// What `holder` has in `entries`: the amount of the entry with that key, or 0.
pub open spec fn balance_in(entries: Seq<(AccountId, Balance)>, holder: Seq<u8>) -> nat
    decreases entries.len(),
{
    if entries.len() == 0 {
        0
    } else if entries.last().0@ == holder {
        entries.last().1 as nat
    } else {
        balance_in(entries.drop_last(), holder)
    }
}

/// The sum of all amounts in `entries`.
pub open spec fn sum_of(entries: Seq<(AccountId, Balance)>) -> nat
    decreases entries.len(),
{
    if entries.len() == 0 {
        0
    } else {
        sum_of(entries.drop_last()) + entries.last().1 as nat
    }
}

/// No holder has two entries.
pub open spec fn keys_unique(entries: Seq<(AccountId, Balance)>) -> bool {
    forall|i: int, j: int|
        0 <= i < j < entries.len() ==> #[trigger] entries[i].0@ != #[trigger] entries[j].0@
}

/// Share balances, one entry per holder, and their total.
#[derive(Clone)]
pub struct ShareLedger {
    entries: Vec<(AccountId, Balance)>,
    total_supply: Balance,
}

proof fn lemma_balance_at(entries: Seq<(AccountId, Balance)>, i: int)
    requires
        keys_unique(entries),
        0 <= i < entries.len(),
    ensures
        balance_in(entries, entries[i].0@) == entries[i].1 as nat,
    decreases entries.len(),
{
    if i != entries.len() - 1 {
        let d = entries.drop_last();
        assert(entries.last().0@ != entries[i].0@);
        assert(d[i] == entries[i]);
        assert(keys_unique(d)) by {
            assert forall|a: int, b: int| 0 <= a < b < d.len() implies d[a].0@ != d[b].0@ by {
                assert(d[a] == entries[a] && d[b] == entries[b]);
            }
        }
        lemma_balance_at(d, i);
    }
}

proof fn lemma_balance_absent(entries: Seq<(AccountId, Balance)>, holder: Seq<u8>)
    requires
        forall|i: int| 0 <= i < entries.len() ==> #[trigger] entries[i].0@ != holder,
    ensures
        balance_in(entries, holder) == 0,
    decreases entries.len(),
{
    if entries.len() > 0 {
        let d = entries.drop_last();
        assert(entries.last().0@ != holder);
        assert forall|i: int| 0 <= i < d.len() implies #[trigger] d[i].0@ != holder by {
            assert(d[i] == entries[i]);
        }
        lemma_balance_absent(d, holder);
    }
}

proof fn lemma_balance_le_sum(entries: Seq<(AccountId, Balance)>, holder: Seq<u8>)
    ensures
        balance_in(entries, holder) <= sum_of(entries),
    decreases entries.len(),
{
    if entries.len() > 0 {
        lemma_balance_le_sum(entries.drop_last(), holder);
    }
}

proof fn lemma_update(entries: Seq<(AccountId, Balance)>, i: int, v: Balance)
    requires
        0 <= i < entries.len(),
        keys_unique(entries),
    ensures
        keys_unique(entries.update(i, (entries[i].0, v))),
        sum_of(entries.update(i, (entries[i].0, v))) + entries[i].1 == sum_of(entries) + v,
        forall|h: Seq<u8>|
            balance_in(#[trigger] entries.update(i, (entries[i].0, v)), h) == if h
                == entries[i].0@ {
                v as nat
            } else {
                balance_in(entries, h)
            },
    decreases entries.len(),
{
    let u = entries.update(i, (entries[i].0, v));
    assert forall|a: int, b: int| 0 <= a < b < u.len() implies #[trigger] u[a].0@ != #[trigger] u[b].0@ by {
        assert(u[a].0@ == entries[a].0@ && u[b].0@ == entries[b].0@);
    }
    let d = entries.drop_last();
    assert(keys_unique(d)) by {
        assert forall|a: int, b: int| 0 <= a < b < d.len() implies d[a].0@ != d[b].0@ by {
            assert(d[a] == entries[a] && d[b] == entries[b]);
        }
    }
    if i == entries.len() - 1 {
        assert(u.drop_last() =~= d);
        assert forall|h: Seq<u8>|
            balance_in(#[trigger] entries.update(i, (entries[i].0, v)), h) == if h
                == entries[i].0@ {
                v as nat
            } else {
                balance_in(entries, h)
            } by {
            if h != entries[i].0@ {
            }
        }
    } else {
        lemma_update(d, i, v);
        assert(u.drop_last() =~= d.update(i, (d[i].0, v)));
        assert(entries.last().0@ != entries[i].0@);
        assert forall|h: Seq<u8>|
            balance_in(#[trigger] entries.update(i, (entries[i].0, v)), h) == if h
                == entries[i].0@ {
                v as nat
            } else {
                balance_in(entries, h)
            } by {
            assert(balance_in(d.update(i, (d[i].0, v)), h) == if h == d[i].0@ {
                v as nat
            } else {
                balance_in(d, h)
            });
        }
    }
}

impl ShareLedger {
    /// The shares that `holder` has.
    pub closed spec fn balance(&self, holder: Seq<u8>) -> nat {
        balance_in(self.entries@, holder)
    }

    /// The total of all shares.
    pub closed spec fn total(&self) -> nat {
        self.total_supply as nat
    }

    /// Each holder has one entry, and the total is the sum of all balances.
    pub closed spec fn wf(&self) -> bool {
        &&& keys_unique(self.entries@)
        &&& self.total_supply as nat == sum_of(self.entries@)
    }

    /// No holder has more shares than the total.
    pub proof fn lemma_balance_le_total(&self, holder: Seq<u8>)
        requires
            self.wf(),
        ensures
            self.balance(holder) <= self.total(),
    {
        lemma_balance_le_sum(self.entries@, holder);
    }

    /// A ledger with no shares.
    pub fn new() -> (r: ShareLedger)
        ensures
            r.wf(),
            r.total() == 0,
            forall|h: Seq<u8>| r.balance(h) == 0,
    {
        ShareLedger { entries: Vec::new(), total_supply: 0 }
    }

    fn find(&self, holder: &AccountId) -> (r: Option<usize>)
        requires
            self.wf(),
        ensures
            match r {
                Some(i) => i < self.entries@.len() && self.entries@[i as int].0@ == holder@,
                None => forall|i: int|
                    0 <= i < self.entries@.len() ==> #[trigger] self.entries@[i].0@ != holder@,
            },
    {
        let mut i: usize = 0;
        while i < self.entries.len()
            invariant
                0 <= i <= self.entries@.len(),
                forall|j: int| 0 <= j < i ==> #[trigger] self.entries@[j].0@ != holder@,
            decreases self.entries@.len() - i,
        {
            if self.entries[i].0 == *holder {
                return Some(i);
            }
            i = i + 1;
        }
        None
    }

    /// The shares that `holder` has (0 for one never seen).
    pub fn balance_of(&self, holder: &AccountId) -> (r: Balance)
        requires
            self.wf(),
        ensures
            r as nat == self.balance(holder@),
    {
        match self.find(holder) {
            Some(i) => {
                proof {
                    lemma_balance_at(self.entries@, i as int);
                }
                self.entries[i].1
            },
            None => {
                proof {
                    lemma_balance_absent(self.entries@, holder@);
                }
                0
            },
        }
    }

    /// The total of all shares.
    pub fn total_supply(&self) -> (r: Balance)
        ensures
            r as nat == self.total(),
    {
        self.total_supply
    }

    /// Adds `amount` shares to `holder` and to the total; fails, changing
    /// nothing, when the total would not fit.
    pub fn mint(&mut self, holder: &AccountId, amount: Balance) -> (r: Result<(), ExchangeError>)
        requires
            old(self).wf(),
        ensures
            final(self).wf(),
            old(self).total() + amount > u128::MAX ==> r == Err::<(), ExchangeError>(
                ExchangeError::ArithmeticOverflow,
            ) && *final(self) == *old(self),
            old(self).total() + amount <= u128::MAX ==> {
                &&& r is Ok
                &&& final(self).total() == old(self).total() + amount
                &&& final(self).balance(holder@) == old(self).balance(holder@) + amount
                &&& forall|h: Seq<u8>|
                    h != holder@ ==> #[trigger] final(self).balance(h) == old(self).balance(h)
            },
    {
        let new_total = match self.total_supply.checked_add(amount) {
            Some(v) => v,
            None => return Err(ExchangeError::ArithmeticOverflow),
        };
        proof {
            lemma_balance_le_sum(self.entries@, holder@);
        }
        match self.find(holder) {
            Some(i) => {
                proof {
                    lemma_balance_at(self.entries@, i as int);
                    lemma_update(self.entries@, i as int, (self.entries@[i as int].1 + amount) as Balance);
                }
                let key = self.entries[i].0;
                let v = self.entries[i].1 + amount;
                self.entries.set(i, (key, v));
            },
            None => {
                proof {
                    lemma_balance_absent(self.entries@, holder@);
                }
                self.entries.push((*holder, amount));
                proof {
                    let s = self.entries@;
                    assert(s.drop_last() =~= old(self).entries@);
                    assert(keys_unique(s)) by {
                        assert forall|a: int, b: int| 0 <= a < b < s.len() implies #[trigger] s[a].0@ != #[trigger] s[b].0@ by {
                            if b < s.len() - 1 {
                                assert(s[a] == old(self).entries@[a] && s[b] == old(self).entries@[b]);
                            } else {
                                assert(s[a] == old(self).entries@[a]);
                            }
                        }
                    }
                }
            },
        }
        self.total_supply = new_total;
        Ok(())
    }

    /// Takes `amount` shares from `holder` and from the total; fails with
    /// `InsufficientBalance`, changing nothing, when `holder` has fewer.
    pub fn burn(&mut self, holder: &AccountId, amount: Balance) -> (r: Result<(), ExchangeError>)
        requires
            old(self).wf(),
        ensures
            final(self).wf(),
            amount > old(self).balance(holder@) ==> r == Err::<(), ExchangeError>(
                ExchangeError::InsufficientBalance,
            ) && *final(self) == *old(self),
            amount <= old(self).balance(holder@) ==> {
                &&& r is Ok
                &&& final(self).total() == old(self).total() - amount
                &&& final(self).balance(holder@) == old(self).balance(holder@) - amount
                &&& forall|h: Seq<u8>|
                    h != holder@ ==> #[trigger] final(self).balance(h) == old(self).balance(h)
            },
    {
        proof {
            lemma_balance_le_sum(self.entries@, holder@);
        }
        match self.find(holder) {
            Some(i) => {
                proof {
                    lemma_balance_at(self.entries@, i as int);
                }
                if self.entries[i].1 < amount {
                    return Err(ExchangeError::InsufficientBalance);
                }
                proof {
                    lemma_update(self.entries@, i as int, (self.entries@[i as int].1 - amount) as Balance);
                }
                let key = self.entries[i].0;
                let v = self.entries[i].1 - amount;
                self.entries.set(i, (key, v));
                self.total_supply = self.total_supply - amount;
                Ok(())
            },
            None => {
                proof {
                    lemma_balance_absent(self.entries@, holder@);
                }
                if amount > 0 {
                    return Err(ExchangeError::InsufficientBalance);
                }
                Ok(())
            },
        }
    }
}

} // verus!
