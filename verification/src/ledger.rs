use vstd::prelude::*;
use crate::errors::Error;

verus! {

// A ledger keeps its balances and allowances as association lists with
// pairwise-distinct keys. `value_in` reads the amount stored under a key
// (absent keys read as zero) and `sum_values` adds every stored amount;
// the ledger's invariant ties the total supply to that sum.

/// No key occurs twice in the association list.
pub open spec fn distinct_keys<K, V>(s: Seq<(K, V)>) -> bool {
    forall|i: int, j: int| 0 <= i < j < s.len() ==> s[i].0 != s[j].0
}

/// The amount stored under `key`; zero when the key is absent.
pub open spec fn value_in<K>(s: Seq<(K, u64)>, key: K) -> u64
    decreases s.len(),
{
    if s.len() == 0 {
        0
    } else if s.last().0 == key {
        s.last().1
    } else {
        value_in(s.drop_last(), key)
    }
}

/// The sum of every stored amount.
pub open spec fn sum_values<K>(s: Seq<(K, u64)>) -> int
    decreases s.len(),
{
    if s.len() == 0 {
        0
    } else {
        sum_values(s.drop_last()) + s.last().1
    }
}

proof fn lemma_sum_nonneg<K>(s: Seq<(K, u64)>)
    ensures
        sum_values(s) >= 0,
    decreases s.len(),
{
    if s.len() > 0 {
        lemma_sum_nonneg(s.drop_last());
    }
}

proof fn lemma_distinct_drop_last<K>(s: Seq<(K, u64)>)
    requires
        s.len() > 0,
        distinct_keys(s),
    ensures
        distinct_keys(s.drop_last()),
{
    assert forall|i: int, j: int|
        0 <= i < j < s.drop_last().len() implies s.drop_last()[i].0 != s.drop_last()[j].0 by {
        assert(s.drop_last()[i] == s[i]);
        assert(s.drop_last()[j] == s[j]);
    }
}

proof fn lemma_value_at_index<K>(s: Seq<(K, u64)>, i: int)
    requires
        distinct_keys(s),
        0 <= i < s.len(),
    ensures
        value_in(s, s[i].0) == s[i].1,
    decreases s.len(),
{
    if i == s.len() - 1 {
        assert(s.last() == s[i]);
    } else {
        lemma_distinct_drop_last(s);
        assert(s.drop_last()[i] == s[i]);
        lemma_value_at_index(s.drop_last(), i);
    }
}

proof fn lemma_value_absent<K>(s: Seq<(K, u64)>, key: K)
    requires
        forall|i: int| 0 <= i < s.len() ==> s[i].0 != key,
    ensures
        value_in(s, key) == 0,
    decreases s.len(),
{
    if s.len() > 0 {
        assert(s.last() == s[s.len() - 1]);
        assert forall|i: int| 0 <= i < s.drop_last().len() implies s.drop_last()[i].0 != key by {
            assert(s.drop_last()[i] == s[i]);
        }
        lemma_value_absent(s.drop_last(), key);
    }
}

proof fn lemma_value_le_sum<K>(s: Seq<(K, u64)>, key: K)
    requires
        distinct_keys(s),
    ensures
        value_in(s, key) <= sum_values(s),
    decreases s.len(),
{
    if s.len() > 0 {
        lemma_sum_nonneg(s.drop_last());
        lemma_distinct_drop_last(s);
        lemma_value_le_sum(s.drop_last(), key);
    }
}

proof fn lemma_two_values_le_sum<K>(s: Seq<(K, u64)>, k1: K, k2: K)
    requires
        distinct_keys(s),
        k1 != k2,
    ensures
        value_in(s, k1) + value_in(s, k2) <= sum_values(s),
    decreases s.len(),
{
    if s.len() > 0 {
        lemma_distinct_drop_last(s);
        if s.last().0 == k1 {
            lemma_value_le_sum(s.drop_last(), k2);
        } else if s.last().0 == k2 {
            lemma_value_le_sum(s.drop_last(), k1);
        } else {
            lemma_two_values_le_sum(s.drop_last(), k1, k2);
        }
    }
}

/// Updating the entry at `i` to a new amount changes exactly that key's
/// value, and moves the sum by the difference.
proof fn lemma_update_value<K>(s: Seq<(K, u64)>, i: int, v: u64, key: K)
    requires
        distinct_keys(s),
        0 <= i < s.len(),
    ensures
        distinct_keys(s.update(i, (s[i].0, v))),
        value_in(s.update(i, (s[i].0, v)), key) == if key == s[i].0 { v } else { value_in(s, key) },
        sum_values(s.update(i, (s[i].0, v))) == sum_values(s) - s[i].1 + v,
    decreases s.len(),
{
    let t = s.update(i, (s[i].0, v));
    assert forall|p: int, q: int| 0 <= p < q < t.len() implies t[p].0 != t[q].0 by {
        assert(t[p].0 == s[p].0);
        assert(t[q].0 == s[q].0);
    }
    if i == s.len() - 1 {
        assert(t.drop_last() =~= s.drop_last());
        assert(t.last() == (s[i].0, v));
        assert(s.last() == s[i]);
    } else {
        assert(t.drop_last() =~= s.drop_last().update(i, (s[i].0, v)));
        assert(t.last() == s.last());
        lemma_distinct_drop_last(s);
        assert(s.drop_last()[i] == s[i]);
        lemma_update_value(s.drop_last(), i, v, key);
    }
}

/// Appending a fresh entry sets that key's value and adds to the sum.
proof fn lemma_push_value<K>(s: Seq<(K, u64)>, k: K, v: u64, key: K)
    ensures
        value_in(s.push((k, v)), key) == if key == k { v } else { value_in(s, key) },
        sum_values(s.push((k, v))) == sum_values(s) + v,
{
    assert(s.push((k, v)).drop_last() =~= s);
    assert(s.push((k, v)).last() == (k, v));
}

/// Index of the entry holding `key`, if one is there.
fn find_index(entries: &Vec<(u64, u64)>, key: u64) -> (r: Option<usize>)
    ensures
        r matches Some(i) ==> i < entries@.len() && entries@[i as int].0 == key,
        r is None ==> forall|j: int| 0 <= j < entries@.len() ==> entries@[j].0 != key,
{
    let mut idx: usize = 0;
    while idx < entries.len()
        invariant
            idx <= entries@.len(),
            forall|j: int| 0 <= j < idx ==> entries@[j].0 != key,
        decreases entries@.len() - idx,
    {
        if entries[idx].0 == key {
            return Some(idx);
        }
        idx += 1;
    }
    None
}

/// Stores `amount` under `key`, overwriting or appending as needed.
fn set_value(entries: &mut Vec<(u64, u64)>, key: u64, amount: u64)
    requires
        distinct_keys(old(entries)@),
    ensures
        distinct_keys(final(entries)@),
        value_in(final(entries)@, key) == amount,
        forall|k: u64| k != key ==> value_in(final(entries)@, k) == value_in(old(entries)@, k),
        sum_values(final(entries)@) == sum_values(old(entries)@) - value_in(old(entries)@, key) + amount,
{
    let ghost s = entries@;
    match find_index(entries, key) {
        Some(i) => {
            entries[i] = (key, amount);
            proof {
                assert((key, amount) == (s[i as int].0, amount));
                lemma_value_at_index(s, i as int);
                lemma_update_value(s, i as int, amount, key);
                assert forall|k: u64| k != key implies value_in(entries@, k) == value_in(s, k) by {
                    lemma_update_value(s, i as int, amount, k);
                }
            }
        }
        None => {
            entries.push((key, amount));
            proof {
                lemma_value_absent(s, key);
                lemma_push_value(s, key, amount, key);
                assert forall|k: u64| k != key implies value_in(entries@, k) == value_in(s, k) by {
                    lemma_push_value(s, key, amount, k);
                }
                assert forall|p: int, q: int|
                    0 <= p < q < entries@.len() implies entries@[p].0 != entries@[q].0 by {
                    if q < s.len() {
                        assert(entries@[p] == s[p]);
                        assert(entries@[q] == s[q]);
                    } else {
                        assert(entries@[p] == s[p]);
                        assert(entries@[q] == (key, amount));
                    }
                }
            }
        }
    }
}

/// Index of the allowance entry for `(owner, spender)`, if one is there.
fn find_allowance_index(entries: &Vec<((u64, u64), u64)>, owner: u64, spender: u64) -> (r: Option<
    usize,
>)
    ensures
        r matches Some(i) ==> i < entries@.len() && entries@[i as int].0 == (owner, spender),
        r is None ==> forall|j: int| 0 <= j < entries@.len() ==> entries@[j].0 != (owner, spender),
{
    let mut idx: usize = 0;
    while idx < entries.len()
        invariant
            idx <= entries@.len(),
            forall|j: int| 0 <= j < idx ==> entries@[j].0 != (owner, spender),
        decreases entries@.len() - idx,
    {
        let e = entries[idx];
        if e.0.0 == owner && e.0.1 == spender {
            return Some(idx);
        }
        idx += 1;
    }
    None
}

/// Stores `amount` under the allowance key `(owner, spender)`.
fn set_allowance_value(entries: &mut Vec<((u64, u64), u64)>, owner: u64, spender: u64, amount: u64)
    requires
        distinct_keys(old(entries)@),
    ensures
        distinct_keys(final(entries)@),
        value_in(final(entries)@, (owner, spender)) == amount,
        forall|k: (u64, u64)|
            k != (owner, spender) ==> value_in(final(entries)@, k) == value_in(old(entries)@, k),
{
    let ghost s = entries@;
    match find_allowance_index(entries, owner, spender) {
        Some(i) => {
            entries[i] = ((owner, spender), amount);
            proof {
                assert(((owner, spender), amount) == (s[i as int].0, amount));
                lemma_update_value(s, i as int, amount, (owner, spender));
                assert forall|k: (u64, u64)|
                    k != (owner, spender) implies value_in(entries@, k) == value_in(s, k) by {
                    lemma_update_value(s, i as int, amount, k);
                }
            }
        }
        None => {
            entries.push(((owner, spender), amount));
            proof {
                lemma_push_value(s, (owner, spender), amount, (owner, spender));
                assert forall|k: (u64, u64)|
                    k != (owner, spender) implies value_in(entries@, k) == value_in(s, k) by {
                    lemma_push_value(s, (owner, spender), amount, k);
                }
                assert forall|p: int, q: int|
                    0 <= p < q < entries@.len() implies entries@[p].0 != entries@[q].0 by {
                    if q < s.len() {
                        assert(entries@[p] == s[p]);
                        assert(entries@[q] == s[q]);
                    } else {
                        assert(entries@[p] == s[p]);
                        assert(entries@[q] == ((owner, spender), amount));
                    }
                }
            }
        }
    }
}

/// True when an allowance of `allowance` admits a debit of `amount`:
/// either it is at least `amount`, or it is the unlimited sentinel
/// `u64::MAX`, which is never drawn down.
pub open spec fn allowance_covers(allowance: u64, amount: u64) -> bool {
    allowance == u64::MAX || allowance >= amount
}

/// The fungible-share accounting of one pair: a balance per holder, an
/// allowance per (owner, spender), and the total supply.
///
/// The invariant `wf` ties the total supply to the sum of all balances at
/// every observable point. All mutation goes through the methods below,
/// each of which preserves `wf` and commits either its whole effect or,
/// on an error, none of it.
pub struct ShareLedger {
    pub balances: Vec<(u64, u64)>,
    pub allowances: Vec<((u64, u64), u64)>,
    pub total_supply: u64,
}

impl ShareLedger {
    /// The ledger's invariant: keys are unique and the total supply equals
    /// the sum of every holder's balance.
    pub open spec fn wf(self) -> bool {
        &&& distinct_keys(self.balances@)
        &&& distinct_keys(self.allowances@)
        &&& self.total_supply as int == sum_values(self.balances@)
    }

    /// The balance of `holder`; holders never seen read as zero.
    pub open spec fn spec_balance(self, holder: u64) -> u64 {
        value_in(self.balances@, holder)
    }

    /// The allowance `owner` has granted `spender`; never granted reads as zero.
    pub open spec fn spec_allowance(self, owner: u64, spender: u64) -> u64 {
        value_in(self.allowances@, (owner, spender))
    }

    pub open spec fn spec_total_supply(self) -> u64 {
        self.total_supply
    }

    /// An empty ledger: no balances, no allowances, zero supply.
    pub fn new() -> (r: ShareLedger)
        ensures
            r.wf(),
            r.spec_total_supply() == 0,
            forall|h: u64| r.spec_balance(h) == 0,
            forall|o: u64, s: u64| r.spec_allowance(o, s) == 0,
    {
        ShareLedger { balances: Vec::new(), allowances: Vec::new(), total_supply: 0 }
    }

    /// The balance of `holder`.
    pub fn balance(&self, holder: u64) -> (r: u64)
        requires
            self.wf(),
        ensures
            r == self.spec_balance(holder),
    {
        match find_index(&self.balances, holder) {
            Some(i) => {
                proof {
                    lemma_value_at_index(self.balances@, i as int);
                }
                self.balances[i].1
            }
            None => {
                proof {
                    lemma_value_absent(self.balances@, holder);
                }
                0
            }
        }
    }

    /// The allowance `owner` has granted `spender`.
    pub fn allowance(&self, owner: u64, spender: u64) -> (r: u64)
        requires
            self.wf(),
        ensures
            r == self.spec_allowance(owner, spender),
    {
        match find_allowance_index(&self.allowances, owner, spender) {
            Some(i) => {
                proof {
                    lemma_value_at_index(self.allowances@, i as int);
                }
                self.allowances[i].1
            }
            None => {
                proof {
                    lemma_value_absent(self.allowances@, (owner, spender));
                }
                0
            }
        }
    }

    /// The total number of shares in circulation; equal, under `wf`, to the
    /// sum of every holder's balance.
    pub fn total_supply(&self) -> (r: u64)
        ensures
            r == self.spec_total_supply(),
    {
        self.total_supply
    }

    /// Creates `amount` new shares for `holder`: the holder's balance and
    /// the total supply rise by `amount` as one atomic step. The owning
    /// pair alone is meant to call this; it is not part of the surface a
    /// pair exposes to arbitrary callers.
    pub fn mint(&mut self, holder: u64, amount: u64)
        requires
            old(self).wf(),
            amount > 0,
            old(self).spec_total_supply() + amount <= u64::MAX,
        ensures
            final(self).wf(),
            final(self).spec_total_supply() == old(self).spec_total_supply() + amount,
            final(self).spec_balance(holder) == old(self).spec_balance(holder) + amount,
            forall|h: u64| h != holder ==> final(self).spec_balance(h) == old(self).spec_balance(h),
            final(self).allowances@ == old(self).allowances@,
    {
        let b = self.balance(holder);
        proof {
            lemma_value_le_sum(self.balances@, holder);
        }
        set_value(&mut self.balances, holder, b + amount);
        self.total_supply = self.total_supply + amount;
    }

    /// Destroys `amount` shares held by `holder`. When the holder's balance
    /// is short, fails with `InsufficientBalance` and changes nothing: in
    /// particular the total supply is not decremented.
    pub fn burn(&mut self, holder: u64, amount: u64) -> (r: Result<(), Error>)
        requires
            old(self).wf(),
        ensures
            final(self).wf(),
            old(self).spec_balance(holder) < amount ==> {
                &&& r == Err::<(), Error>(Error::InsufficientBalance)
                &&& *final(self) == *old(self)
            },
            old(self).spec_balance(holder) >= amount ==> {
                &&& r == Ok::<(), Error>(())
                &&& final(self).spec_total_supply() == old(self).spec_total_supply() - amount
                &&& final(self).spec_balance(holder) == old(self).spec_balance(holder) - amount
                &&& forall|h: u64|
                    h != holder ==> final(self).spec_balance(h) == old(self).spec_balance(h)
                &&& final(self).allowances@ == old(self).allowances@
            },
    {
        let b = self.balance(holder);
        if b < amount {
            return Err(Error::InsufficientBalance);
        }
        proof {
            lemma_value_le_sum(self.balances@, holder);
        }
        set_value(&mut self.balances, holder, b - amount);
        self.total_supply = self.total_supply - amount;
        Ok(())
    }

    /// Moves `amount` shares from `from` to `to` as one atomic step. When
    /// `from`'s balance is short, fails with `InsufficientBalance` and
    /// leaves both balances unchanged.
    pub fn transfer(&mut self, from: u64, to: u64, amount: u64) -> (r: Result<(), Error>)
        requires
            old(self).wf(),
        ensures
            final(self).wf(),
            old(self).spec_balance(from) < amount ==> {
                &&& r == Err::<(), Error>(Error::InsufficientBalance)
                &&& *final(self) == *old(self)
            },
            old(self).spec_balance(from) >= amount ==> {
                &&& r == Ok::<(), Error>(())
                &&& final(self).spec_total_supply() == old(self).spec_total_supply()
                &&& final(self).allowances@ == old(self).allowances@
                &&& from != to ==> {
                    &&& final(self).spec_balance(from) == old(self).spec_balance(from) - amount
                    &&& final(self).spec_balance(to) == old(self).spec_balance(to) + amount
                }
                &&& from == to ==> final(self).spec_balance(from) == old(self).spec_balance(from)
                &&& forall|h: u64|
                    h != from && h != to
                        ==> final(self).spec_balance(h) == old(self).spec_balance(h)
            },
    {
        let bf = self.balance(from);
        if bf < amount {
            return Err(Error::InsufficientBalance);
        }
        if from == to {
            return Ok(());
        }
        let bt = self.balance(to);
        proof {
            lemma_two_values_le_sum(self.balances@, from, to);
        }
        set_value(&mut self.balances, from, bf - amount);
        set_value(&mut self.balances, to, bt + amount);
        Ok(())
    }

    /// Grants `spender` an allowance of exactly `amount` over `owner`'s
    /// shares, overwriting any earlier grant. `u64::MAX` grants the
    /// unlimited allowance, which later transfers never draw down.
    pub fn approve(&mut self, owner: u64, spender: u64, amount: u64)
        requires
            old(self).wf(),
        ensures
            final(self).wf(),
            final(self).spec_allowance(owner, spender) == amount,
            forall|o: u64, s: u64|
                !(o == owner && s == spender)
                    ==> final(self).spec_allowance(o, s) == old(self).spec_allowance(o, s),
            final(self).balances@ == old(self).balances@,
            final(self).spec_total_supply() == old(self).spec_total_supply(),
    {
        set_allowance_value(&mut self.allowances, owner, spender, amount);
    }

    /// Moves `amount` of `owner`'s shares to `to` on behalf of `spender`,
    /// drawing the allowance down first (unless it is the unlimited
    /// sentinel). The allowance check and the transfer commit as one unit:
    /// a short allowance changes nothing, and a short balance fails
    /// without having consumed any allowance.
    pub fn transfer_from(&mut self, spender: u64, owner: u64, to: u64, amount: u64) -> (r: Result<
        (),
        Error,
    >)
        requires
            old(self).wf(),
        ensures
            final(self).wf(),
            !allowance_covers(old(self).spec_allowance(owner, spender), amount) ==> {
                &&& r == Err::<(), Error>(Error::InsufficientAllowance)
                &&& *final(self) == *old(self)
            },
            allowance_covers(old(self).spec_allowance(owner, spender), amount) && old(self).spec_balance(owner) < amount ==> {
                &&& r == Err::<(), Error>(Error::InsufficientBalance)
                &&& *final(self) == *old(self)
            },
            allowance_covers(old(self).spec_allowance(owner, spender), amount) && old(self).spec_balance(owner) >= amount ==> {
                &&& r == Ok::<(), Error>(())
                &&& final(self).spec_total_supply() == old(self).spec_total_supply()
                &&& owner != to ==> {
                    &&& final(self).spec_balance(owner) == old(self).spec_balance(owner) - amount
                    &&& final(self).spec_balance(to) == old(self).spec_balance(to) + amount
                }
                &&& owner == to ==> final(self).spec_balance(owner) == old(self).spec_balance(owner)
                &&& forall|h: u64|
                    h != owner && h != to
                        ==> final(self).spec_balance(h) == old(self).spec_balance(h)
                &&& old(self).spec_allowance(owner, spender) == u64::MAX
                    ==> final(self).spec_allowance(owner, spender) == u64::MAX
                &&& old(self).spec_allowance(owner, spender) != u64::MAX
                    ==> final(self).spec_allowance(owner, spender) == old(self).spec_allowance(
                        owner,
                        spender,
                    ) - amount
                &&& forall|o: u64, s: u64|
                    !(o == owner && s == spender)
                        ==> final(self).spec_allowance(o, s) == old(self).spec_allowance(o, s)
            },
    {
        let a = self.allowance(owner, spender);
        if a != u64::MAX && a < amount {
            return Err(Error::InsufficientAllowance);
        }
        let b = self.balance(owner);
        if b < amount {
            return Err(Error::InsufficientBalance);
        }
        if a != u64::MAX {
            set_allowance_value(&mut self.allowances, owner, spender, a - amount);
        }
        self.transfer(owner, to, amount)
    }
}

} // verus!
