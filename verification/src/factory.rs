use vstd::prelude::*;
use crate::auth::{authorizes, require_authorization, Action, Authorization, Invocation};
use crate::errors::Error;

verus! {

// The factory keeps exactly one registry entry per unordered asset pair.
// Two distinct asset handles `a`, `b` are canonicalized to the ordered key
// `(canonical_low(a, b), canonical_high(a, b))`, so lookups by `(a, b)` and
// `(b, a)` resolve to the same entry. Asset handles are opaque identifiers;
// any stable total order works, and this crate orders them as integers.

/// The smaller of two asset handles under the canonical ordering.
pub open spec fn canonical_low(a: u64, b: u64) -> u64 {
    if a <= b {
        a
    } else {
        b
    }
}

/// The larger of two asset handles under the canonical ordering.
pub open spec fn canonical_high(a: u64, b: u64) -> u64 {
    if a <= b {
        b
    } else {
        a
    }
}

/// One registry record: a canonical pair key and the address of the pair
/// deployed for it.
#[derive(Clone, Copy, Debug, PartialEq, Eq, Structural)]
pub struct PairEntry {
    pub token_0: u64,
    pub token_1: u64,
    pub address: u64,
}

/// The address registered under the canonical key `(t0, t1)`, if any.
pub open spec fn pair_address_in(s: Seq<PairEntry>, t0: u64, t1: u64) -> Option<u64>
    decreases s.len(),
{
    if s.len() == 0 {
        None
    } else if s.last().token_0 == t0 && s.last().token_1 == t1 {
        Some(s.last().address)
    } else {
        pair_address_in(s.drop_last(), t0, t1)
    }
}

/// No canonical key occurs twice in the registry.
pub open spec fn distinct_pair_keys(s: Seq<PairEntry>) -> bool {
    forall|i: int, j: int|
        0 <= i < j < s.len() ==> !(s[i].token_0 == s[j].token_0 && s[i].token_1 == s[j].token_1)
}

proof fn lemma_distinct_pair_keys_drop_last(s: Seq<PairEntry>)
    requires
        s.len() > 0,
        distinct_pair_keys(s),
    ensures
        distinct_pair_keys(s.drop_last()),
{
    assert forall|i: int, j: int|
        0 <= i < j < s.drop_last().len() implies !(s.drop_last()[i].token_0
        == s.drop_last()[j].token_0 && s.drop_last()[i].token_1 == s.drop_last()[j].token_1) by {
        assert(s.drop_last()[i] == s[i]);
        assert(s.drop_last()[j] == s[j]);
    }
}

proof fn lemma_pair_address_at_index(s: Seq<PairEntry>, i: int)
    requires
        distinct_pair_keys(s),
        0 <= i < s.len(),
    ensures
        pair_address_in(s, s[i].token_0, s[i].token_1) == Some(s[i].address),
    decreases s.len(),
{
    if i == s.len() - 1 {
        assert(s.last() == s[i]);
    } else {
        assert(s.last() == s[s.len() - 1]);
        lemma_distinct_pair_keys_drop_last(s);
        assert(s.drop_last()[i] == s[i]);
        lemma_pair_address_at_index(s.drop_last(), i);
    }
}

proof fn lemma_pair_address_absent(s: Seq<PairEntry>, t0: u64, t1: u64)
    requires
        forall|i: int| 0 <= i < s.len() ==> !(s[i].token_0 == t0 && s[i].token_1 == t1),
    ensures
        pair_address_in(s, t0, t1) is None,
    decreases s.len(),
{
    if s.len() > 0 {
        assert(s.last() == s[s.len() - 1]);
        assert forall|i: int|
            0 <= i < s.drop_last().len() implies !(s.drop_last()[i].token_0 == t0
            && s.drop_last()[i].token_1 == t1) by {
            assert(s.drop_last()[i] == s[i]);
        }
        lemma_pair_address_absent(s.drop_last(), t0, t1);
    }
}

/// Index of the registry entry with canonical key `(t0, t1)`, if one is there.
fn find_pair_index(pairs: &Vec<PairEntry>, t0: u64, t1: u64) -> (r: Option<usize>)
    ensures
        r matches Some(i) ==> i < pairs@.len() && pairs@[i as int].token_0 == t0
            && pairs@[i as int].token_1 == t1,
        r is None ==> forall|j: int|
            0 <= j < pairs@.len() ==> !(pairs@[j].token_0 == t0 && pairs@[j].token_1 == t1),
{
    let mut idx: usize = 0;
    while idx < pairs.len()
        invariant
            idx <= pairs@.len(),
            forall|j: int| 0 <= j < idx ==> !(pairs@[j].token_0 == t0 && pairs@[j].token_1 == t1),
        decreases pairs@.len() - idx,
    {
        let e = pairs[idx];
        if e.token_0 == t0 && e.token_1 == t1 {
            return Some(idx);
        }
        idx += 1;
    }
    None
}

/// The factory: the one owner of the pair registry and of the governance
/// state (fee recipient, fee switch, fee-setter authority).
///
/// A factory starts uninitialized; `initialize` runs exactly once. Every
/// governance mutation passes the authorization gate before any state is
/// touched, and every operation commits its whole effect or, on an error,
/// none of it. All mutation goes through the methods below, which preserve
/// the invariant `wf`.
pub struct RaumFiFactory {
    /// This factory's own contract address, fixed at construction.
    pub address: u64,
    pub initialized: bool,
    /// The identity authorized to change the governance state.
    pub fee_to_setter: u64,
    /// The protocol-fee recipient; `None` until a setter assigns one.
    pub fee_to: Option<u64>,
    pub fees_enabled: bool,
    /// The code template handed to the deployment capability for new pairs.
    pub pair_code: u64,
    /// One entry per canonical pair key, created at most once and never
    /// deleted.
    pub pairs: Vec<PairEntry>,
    /// Feeds the deployment capability: every registered address was drawn
    /// from this counter, so each new pair's address is distinct from all
    /// earlier ones.
    pub pair_counter: u64,
}

impl RaumFiFactory {
    /// The registry's invariant: every entry's key is strictly ordered, no
    /// key repeats, and addresses are pairwise distinct and below the
    /// counter that allocates the next one.
    pub open spec fn wf(self) -> bool {
        &&& forall|i: int|
            0 <= i < self.pairs@.len() ==> self.pairs@[i].token_0 < self.pairs@[i].token_1
                && self.pairs@[i].address < self.pair_counter
        &&& distinct_pair_keys(self.pairs@)
        &&& forall|i: int, j: int|
            0 <= i < j < self.pairs@.len() ==> self.pairs@[i].address != self.pairs@[j].address
    }

    /// The address registered for the unordered pair `{a, b}`, if any;
    /// insensitive to argument order by construction.
    pub open spec fn spec_get_pair(self, a: u64, b: u64) -> Option<u64> {
        pair_address_in(self.pairs@, canonical_low(a, b), canonical_high(a, b))
    }

    /// Whether the unordered pair `{a, b}` has a registry entry.
    pub open spec fn spec_has_pair(self, a: u64, b: u64) -> bool {
        self.spec_get_pair(a, b) is Some
    }

    /// A fresh, uninitialized factory registered at `address`.
    pub fn new(address: u64) -> (r: RaumFiFactory)
        ensures
            r.wf(),
            !r.initialized,
            r.address == address,
            r.pairs@.len() == 0,
            r.pair_counter == 0,
    {
        RaumFiFactory {
            address,
            initialized: false,
            fee_to_setter: 0,
            fee_to: None,
            fees_enabled: false,
            pair_code: 0,
            pairs: Vec::new(),
            pair_counter: 0,
        }
    }

    /// One-time setup: records the governance setter and the pair code
    /// template, starts with fees disabled and no fee recipient. A second
    /// call fails with `AlreadyInitialized` and changes nothing.
    pub fn initialize(&mut self, setter: u64, pair_code: u64) -> (r: Result<(), Error>)
        requires
            old(self).wf(),
        ensures
            final(self).wf(),
            old(self).initialized ==> {
                &&& r == Err::<(), Error>(Error::AlreadyInitialized)
                &&& *final(self) == *old(self)
            },
            !old(self).initialized ==> {
                &&& r == Ok::<(), Error>(())
                &&& final(self).initialized
                &&& final(self).fee_to_setter == setter
                &&& final(self).fee_to is None
                &&& !final(self).fees_enabled
                &&& final(self).pair_code == pair_code
                &&& final(self).address == old(self).address
                &&& final(self).pairs@ == old(self).pairs@
                &&& final(self).pair_counter == old(self).pair_counter
            },
    {
        if self.initialized {
            return Err(Error::AlreadyInitialized);
        }
        self.initialized = true;
        self.fee_to_setter = setter;
        self.fee_to = None;
        self.fees_enabled = false;
        self.pair_code = pair_code;
        Ok(())
    }

    /// The identity currently authorized to change governance state.
    pub fn fee_to_setter(&self) -> (r: u64)
        ensures
            r == self.fee_to_setter,
    {
        self.fee_to_setter
    }

    /// The protocol-fee recipient, or `None` while unset.
    pub fn fee_to(&self) -> (r: Option<u64>)
        ensures
            r == self.fee_to,
    {
        self.fee_to
    }

    /// Whether the protocol-fee switch is on.
    pub fn fees_enabled(&self) -> (r: bool)
        ensures
            r == self.fees_enabled,
    {
        self.fees_enabled
    }

    /// Hands the setter authority to `new_setter`, provided `authorization`
    /// binds the *current* setter to exactly this invocation — this target,
    /// this action, this argument. An unauthorized attempt fails with
    /// `Unauthorized` and is indistinguishable from a no-op.
    pub fn set_fee_to_setter(&mut self, new_setter: u64, authorization: &Authorization) -> (r:
        Result<(), Error>)
        requires
            old(self).wf(),
            old(self).initialized,
        ensures
            final(self).wf(),
            authorizes(
                *authorization,
                old(self).fee_to_setter,
                (Invocation {
                    target: old(self).address,
                    action: Action::SetFeeToSetter(new_setter),
                }),
            ) ==> {
                &&& r == Ok::<(), Error>(())
                &&& final(self).fee_to_setter == new_setter
                &&& final(self).address == old(self).address
                &&& final(self).initialized == old(self).initialized
                &&& final(self).fee_to == old(self).fee_to
                &&& final(self).fees_enabled == old(self).fees_enabled
                &&& final(self).pair_code == old(self).pair_code
                &&& final(self).pairs@ == old(self).pairs@
                &&& final(self).pair_counter == old(self).pair_counter
            },
            !authorizes(
                *authorization,
                old(self).fee_to_setter,
                (Invocation {
                    target: old(self).address,
                    action: Action::SetFeeToSetter(new_setter),
                }),
            ) ==> {
                &&& r == Err::<(), Error>(Error::Unauthorized)
                &&& *final(self) == *old(self)
            },
    {
        let invocation = Invocation {
            target: self.address,
            action: Action::SetFeeToSetter(new_setter),
        };
        match require_authorization(self.fee_to_setter, invocation, authorization) {
            Ok(()) => {
                self.fee_to_setter = new_setter;
                Ok(())
            }
            Err(e) => Err(e),
        }
    }

    /// Assigns the protocol-fee recipient, under the same authorization
    /// requirement as `set_fee_to_setter`.
    pub fn set_fee_to(&mut self, new_recipient: u64, authorization: &Authorization) -> (r: Result<
        (),
        Error,
    >)
        requires
            old(self).wf(),
            old(self).initialized,
        ensures
            final(self).wf(),
            authorizes(
                *authorization,
                old(self).fee_to_setter,
                (Invocation { target: old(self).address, action: Action::SetFeeTo(new_recipient) }),
            ) ==> {
                &&& r == Ok::<(), Error>(())
                &&& final(self).fee_to == Some(new_recipient)
                &&& final(self).address == old(self).address
                &&& final(self).initialized == old(self).initialized
                &&& final(self).fee_to_setter == old(self).fee_to_setter
                &&& final(self).fees_enabled == old(self).fees_enabled
                &&& final(self).pair_code == old(self).pair_code
                &&& final(self).pairs@ == old(self).pairs@
                &&& final(self).pair_counter == old(self).pair_counter
            },
            !authorizes(
                *authorization,
                old(self).fee_to_setter,
                (Invocation { target: old(self).address, action: Action::SetFeeTo(new_recipient) }),
            ) ==> {
                &&& r == Err::<(), Error>(Error::Unauthorized)
                &&& *final(self) == *old(self)
            },
    {
        let invocation = Invocation { target: self.address, action: Action::SetFeeTo(new_recipient) };
        match require_authorization(self.fee_to_setter, invocation, authorization) {
            Ok(()) => {
                self.fee_to = Some(new_recipient);
                Ok(())
            }
            Err(e) => Err(e),
        }
    }

    /// Turns the protocol-fee switch on or off, under the same
    /// authorization requirement as `set_fee_to_setter`.
    pub fn set_fees_enabled(&mut self, enabled: bool, authorization: &Authorization) -> (r: Result<
        (),
        Error,
    >)
        requires
            old(self).wf(),
            old(self).initialized,
        ensures
            final(self).wf(),
            authorizes(
                *authorization,
                old(self).fee_to_setter,
                (Invocation { target: old(self).address, action: Action::SetFeesEnabled(enabled) }),
            ) ==> {
                &&& r == Ok::<(), Error>(())
                &&& final(self).fees_enabled == enabled
                &&& final(self).address == old(self).address
                &&& final(self).initialized == old(self).initialized
                &&& final(self).fee_to_setter == old(self).fee_to_setter
                &&& final(self).fee_to == old(self).fee_to
                &&& final(self).pair_code == old(self).pair_code
                &&& final(self).pairs@ == old(self).pairs@
                &&& final(self).pair_counter == old(self).pair_counter
            },
            !authorizes(
                *authorization,
                old(self).fee_to_setter,
                (Invocation { target: old(self).address, action: Action::SetFeesEnabled(enabled) }),
            ) ==> {
                &&& r == Err::<(), Error>(Error::Unauthorized)
                &&& *final(self) == *old(self)
            },
    {
        let invocation = Invocation { target: self.address, action: Action::SetFeesEnabled(enabled) };
        match require_authorization(self.fee_to_setter, invocation, authorization) {
            Ok(()) => {
                self.fees_enabled = enabled;
                Ok(())
            }
            Err(e) => Err(e),
        }
    }

    /// Creates and registers the one pair for the unordered key `{token_a,
    /// token_b}`: canonicalizes the order, refuses identical assets and
    /// keys that already have an entry, then records a fresh address drawn
    /// from the pair counter. At most one creation can ever succeed per
    /// key, and a failed call registers nothing.
    pub fn create_pair(&mut self, token_a: u64, token_b: u64) -> (r: Result<u64, Error>)
        requires
            old(self).wf(),
            old(self).pair_counter < u64::MAX,
        ensures
            final(self).wf(),
            !old(self).initialized ==> {
                &&& r == Err::<u64, Error>(Error::NotInitialized)
                &&& *final(self) == *old(self)
            },
            old(self).initialized && token_a == token_b ==> {
                &&& r == Err::<u64, Error>(Error::IdenticalAssets)
                &&& *final(self) == *old(self)
            },
            old(self).initialized && token_a != token_b && old(self).spec_has_pair(
                token_a,
                token_b,
            ) ==> {
                &&& r == Err::<u64, Error>(Error::PairAlreadyExists)
                &&& *final(self) == *old(self)
            },
            old(self).initialized && token_a != token_b && !old(self).spec_has_pair(
                token_a,
                token_b,
            ) ==> {
                &&& r matches Ok(p) && final(self).spec_get_pair(token_a, token_b) == Some(p) && (
                forall|i: int| 0 <= i < old(self).pairs@.len() ==> old(self).pairs@[i].address != p)
                &&& final(self).pairs@.len() == old(self).pairs@.len() + 1
                &&& final(self).pair_counter == old(self).pair_counter + 1
                &&& forall|x: u64, y: u64|
                    !(canonical_low(x, y) == canonical_low(token_a, token_b) && canonical_high(x, y)
                        == canonical_high(token_a, token_b)) ==> final(self).spec_get_pair(x, y)
                        == old(self).spec_get_pair(x, y)
                &&& final(self).address == old(self).address
                &&& final(self).initialized == old(self).initialized
                &&& final(self).fee_to_setter == old(self).fee_to_setter
                &&& final(self).fee_to == old(self).fee_to
                &&& final(self).fees_enabled == old(self).fees_enabled
                &&& final(self).pair_code == old(self).pair_code
            },
    {
        if !self.initialized {
            return Err(Error::NotInitialized);
        }
        if token_a == token_b {
            return Err(Error::IdenticalAssets);
        }
        let (t0, t1) = if token_a < token_b {
            (token_a, token_b)
        } else {
            (token_b, token_a)
        };
        proof {
            assert(t0 == canonical_low(token_a, token_b));
            assert(t1 == canonical_high(token_a, token_b));
        }
        match find_pair_index(&self.pairs, t0, t1) {
            Some(i) => {
                proof {
                    lemma_pair_address_at_index(self.pairs@, i as int);
                }
                Err(Error::PairAlreadyExists)
            }
            None => {
                proof {
                    lemma_pair_address_absent(self.pairs@, t0, t1);
                }
                let addr = self.pair_counter;
                let entry = PairEntry { token_0: t0, token_1: t1, address: addr };
                self.pairs.push(entry);
                self.pair_counter = self.pair_counter + 1;
                proof {
                    let ghost post = self.pairs@;
                    let ghost pre = old(self).pairs@;
                    assert(post.drop_last() =~= pre);
                    assert(post.last() == entry);
                    assert forall|x: u64, y: u64|
                        !(canonical_low(x, y) == canonical_low(token_a, token_b) && canonical_high(
                            x,
                            y,
                        ) == canonical_high(token_a, token_b)) implies pair_address_in(
                        post,
                        canonical_low(x, y),
                        canonical_high(x, y),
                    ) == pair_address_in(pre, canonical_low(x, y), canonical_high(x, y)) by {
                        assert(!(entry.token_0 == canonical_low(x, y) && entry.token_1
                            == canonical_high(x, y)));
                    }
                }
                Ok(addr)
            }
        }
    }

    /// The address of the pair for `{token_a, token_b}`, whichever order
    /// the two handles are given in; `NotFound` when no pair was created.
    pub fn get_pair(&self, token_a: u64, token_b: u64) -> (r: Result<u64, Error>)
        requires
            self.wf(),
        ensures
            self.spec_get_pair(token_a, token_b) matches Some(p) ==> r == Ok::<u64, Error>(p),
            self.spec_get_pair(token_a, token_b) is None ==> r == Err::<u64, Error>(
                Error::NotFound,
            ),
    {
        let (t0, t1) = if token_a < token_b {
            (token_a, token_b)
        } else {
            (token_b, token_a)
        };
        proof {
            assert(t0 == canonical_low(token_a, token_b));
            assert(t1 == canonical_high(token_a, token_b));
        }
        match find_pair_index(&self.pairs, t0, t1) {
            Some(i) => {
                proof {
                    lemma_pair_address_at_index(self.pairs@, i as int);
                }
                Ok(self.pairs[i].address)
            }
            None => {
                proof {
                    lemma_pair_address_absent(self.pairs@, t0, t1);
                }
                Err(Error::NotFound)
            }
        }
    }

    /// Whether a pair exists for `{token_a, token_b}`, in either argument
    /// order; total, whatever the registry holds.
    pub fn pair_exists(&self, token_a: u64, token_b: u64) -> (r: bool)
        requires
            self.wf(),
        ensures
            r == self.spec_has_pair(token_a, token_b),
    {
        let (t0, t1) = if token_a < token_b {
            (token_a, token_b)
        } else {
            (token_b, token_a)
        };
        proof {
            assert(t0 == canonical_low(token_a, token_b));
            assert(t1 == canonical_high(token_a, token_b));
        }
        match find_pair_index(&self.pairs, t0, t1) {
            Some(i) => {
                proof {
                    lemma_pair_address_at_index(self.pairs@, i as int);
                }
                true
            }
            None => {
                proof {
                    lemma_pair_address_absent(self.pairs@, t0, t1);
                }
                false
            }
        }
    }
}

/// Law: pair lookup and pair existence are insensitive to the order of the
/// two asset handles, in every factory state — `get_pair(a, b)` and
/// `get_pair(b, a)` resolve to the same entry, and likewise `pair_exists`.
pub proof fn lemma_pair_lookup_order_insensitive(f: RaumFiFactory, a: u64, b: u64)
    ensures
        f.spec_get_pair(a, b) == f.spec_get_pair(b, a),
        f.spec_has_pair(a, b) == f.spec_has_pair(b, a),
{
    assert(canonical_low(a, b) == canonical_low(b, a));
    assert(canonical_high(a, b) == canonical_high(b, a));
}

} // verus!
