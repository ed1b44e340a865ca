//! The escrow ledger: free and reserved balances per account, with reserve,
//! unreserve and keep-alive transfer. It models the balance collaborator the
//! booking lifecycle drives: reserving moves value out of the free balance,
//! unreserving moves back as much as is actually reserved, and a transfer
//! refuses to drop the payer below the existential deposit when asked to keep
//! the account alive.

use vstd::prelude::*;

use crate::structures::Error;

verus! {

/// The two balances of one account.
#[derive(Clone, Copy, Debug, PartialEq, Eq, Structural)]
pub struct AccountBalance {
    pub free: u64,
    pub reserved: u64,
}

/// Whether some entry of the account list carries `who`.
pub open spec fn has_account(s: Seq<(u64, AccountBalance)>, who: u64) -> bool {
    exists|i: int| 0 <= i < s.len() && (#[trigger] s[i]).0 == who
}

/// No two entries carry the same account.
pub open spec fn accounts_distinct(s: Seq<(u64, AccountBalance)>) -> bool {
    forall|i: int, j: int| 0 <= i < j < s.len() ==> (#[trigger] s[i]).0 != (#[trigger] s[j]).0
}

/// The map an account list stands for.
pub open spec fn accounts_map(s: Seq<(u64, AccountBalance)>) -> Map<u64, AccountBalance>
    decreases s.len(),
{
    if s.len() == 0 {
        Map::empty()
    } else {
        accounts_map(s.drop_last()).insert(s.last().0, s.last().1)
    }
}

/// The map's domain is exactly the set of accounts on the list, and with
/// distinct accounts each entry is the map's value at its account.
pub proof fn lemma_accounts_map_properties(s: Seq<(u64, AccountBalance)>)
    ensures
        forall|who: u64| #[trigger] accounts_map(s).dom().contains(who) <==> has_account(s, who),
        accounts_distinct(s) ==> forall|i: int|
            0 <= i < s.len() ==> accounts_map(s).dom().contains((#[trigger] s[i]).0)
                && accounts_map(s)[s[i].0] == s[i].1,
    decreases s.len(),
{
    if s.len() > 0 {
        let dl = s.drop_last();
        lemma_accounts_map_properties(dl);
        assert forall|who: u64| #[trigger] accounts_map(s).dom().contains(who) implies has_account(
            s,
            who,
        ) by {
            if who == s.last().0 {
                assert((s[s.len() - 1]).0 == who);
            } else {
                assert(accounts_map(dl).dom().contains(who));
                assert(has_account(dl, who));
                let i = choose|i: int| 0 <= i < dl.len() && (#[trigger] dl[i]).0 == who;
                assert((s[i]).0 == who);
            }
        }
        assert forall|who: u64| has_account(s, who) implies accounts_map(s).dom().contains(who) by {
            let i = choose|i: int| 0 <= i < s.len() && (#[trigger] s[i]).0 == who;
            if i < s.len() - 1 {
                assert((dl[i]).0 == who);
                assert(has_account(dl, who));
                assert(accounts_map(dl).dom().contains(who));
            }
        }
        if accounts_distinct(s) {
            assert(accounts_distinct(dl));
            assert forall|i: int| 0 <= i < s.len() implies accounts_map(s).dom().contains(
                (#[trigger] s[i]).0,
            ) && accounts_map(s)[s[i].0] == s[i].1 by {
                if i < s.len() - 1 {
                    assert((dl[i]).0 == s[i].0 && dl[i].1 == s[i].1);
                    assert(s[i].0 != s[s.len() - 1].0);
                }
            }
        }
    }
}

/// Mathematical model of the ledger.
#[verifier::ext_equal]
pub struct EscrowView {
    pub accounts: Map<u64, AccountBalance>,
    pub existential_deposit: u64,
}

/// The balances of `who`; an account never touched holds nothing.
pub open spec fn balance_of(v: EscrowView, who: u64) -> AccountBalance {
    if v.accounts.dom().contains(who) {
        v.accounts[who]
    } else {
        AccountBalance { free: 0, reserved: 0 }
    }
}

/// The free balance of `who`.
pub open spec fn free_of(v: EscrowView, who: u64) -> u64 {
    balance_of(v, who).free
}

/// The reserved balance of `who`.
pub open spec fn reserved_of(v: EscrowView, who: u64) -> u64 {
    balance_of(v, who).reserved
}

/// The total balance of `who`, as an unbounded integer.
pub open spec fn total_of(v: EscrowView, who: u64) -> int {
    free_of(v, who) + reserved_of(v, who)
}

impl EscrowView {
    /// Every account's two balances fit a single 64-bit total.
    pub open spec fn wf(self) -> bool {
        forall|who: u64| #[trigger] self.accounts.dom().contains(who) ==> self.accounts[who].free
            + self.accounts[who].reserved <= u64::MAX
    }
}

/// What reserving does: move `amount` from free to reserved, or refuse for
/// want of free balance.
pub open spec fn spec_reserve(v: EscrowView, who: u64, amount: u64) -> Result<EscrowView, Error> {
    if amount > free_of(v, who) {
        Err(Error::NotEnoughFreeBalance)
    } else {
        Ok(
            EscrowView {
                accounts: v.accounts.insert(
                    who,
                    AccountBalance {
                        free: (free_of(v, who) - amount) as u64,
                        reserved: (reserved_of(v, who) + amount) as u64,
                    },
                ),
                ..v
            },
        )
    }
}

/// What unreserving does: move back as much of `amount` as is actually
/// reserved; never fails.
pub open spec fn spec_unreserve(v: EscrowView, who: u64, amount: u64) -> EscrowView {
    let moved = if amount <= reserved_of(v, who) {
        amount
    } else {
        reserved_of(v, who)
    };
    EscrowView {
        accounts: v.accounts.insert(
            who,
            AccountBalance {
                free: (free_of(v, who) + moved) as u64,
                reserved: (reserved_of(v, who) - moved) as u64,
            },
        ),
        ..v
    }
}

/// What a transfer of free balance does: refused for want of free balance,
/// when keeping the payer alive would fail, or when the receiver's total
/// would no longer fit; a transfer to oneself moves nothing.
pub open spec fn spec_transfer(
    v: EscrowView,
    from: u64,
    to: u64,
    amount: u64,
    keep_alive: bool,
) -> Result<EscrowView, Error> {
    if amount > free_of(v, from) {
        Err(Error::NotEnoughFreeBalance)
    } else if keep_alive && free_of(v, from) - amount < v.existential_deposit {
        Err(Error::TransferWouldKillAccount)
    } else if from == to {
        Ok(v)
    } else if total_of(v, to) + amount > u64::MAX {
        Err(Error::ArithmeticOverflow)
    } else {
        Ok(
            EscrowView {
                accounts: v.accounts.insert(
                    from,
                    AccountBalance {
                        free: (free_of(v, from) - amount) as u64,
                        reserved: reserved_of(v, from),
                    },
                ).insert(
                    to,
                    AccountBalance {
                        free: (free_of(v, to) + amount) as u64,
                        reserved: reserved_of(v, to),
                    },
                ),
                ..v
            },
        )
    }
}

/// The escrow ledger itself.
pub struct Escrow {
    pub accounts: Vec<(u64, AccountBalance)>,
    pub existential_deposit: u64,
}

impl View for Escrow {
    type V = EscrowView;

    open spec fn view(&self) -> EscrowView {
        EscrowView {
            accounts: accounts_map(self.accounts@),
            existential_deposit: self.existential_deposit,
        }
    }
}

impl Escrow {
    /// The representation keeps each account at most once.
    pub open spec fn inv(&self) -> bool {
        &&& accounts_distinct(self.accounts@)
        &&& self@.wf()
    }

    /// An empty ledger with the given existential deposit.
    pub fn new(existential_deposit: u64) -> (r: Escrow)
        ensures
            r.inv(),
            r@.accounts == Map::<u64, AccountBalance>::empty(),
            r@.existential_deposit == existential_deposit,
    {
        Escrow { accounts: Vec::new(), existential_deposit }
    }

    /// Find the index of the entry carrying `who`, if any.
    fn find_account(&self, who: u64) -> (r: Option<usize>)
        ensures
            match r {
                Some(i) => i < self.accounts@.len() && self.accounts@[i as int].0 == who,
                None => !has_account(self.accounts@, who),
            },
    {
        let mut i: usize = 0;
        while i < self.accounts.len()
            invariant
                i <= self.accounts.len(),
                forall|j: int| 0 <= j < i ==> (#[trigger] self.accounts@[j]).0 != who,
            decreases self.accounts.len() - i,
        {
            if self.accounts[i].0 == who {
                return Some(i);
            }
            i = i + 1;
        }
        None
    }

    /// The balances of `who`.
    fn balance(&self, who: u64) -> (r: AccountBalance)
        requires
            self.inv(),
        ensures
            r == balance_of(self@, who),
    {
        proof {
            lemma_accounts_map_properties(self.accounts@);
        }
        match self.find_account(who) {
            Some(i) => self.accounts[i].1,
            None => AccountBalance { free: 0, reserved: 0 },
        }
    }

    /// Rebind `who` to `bal`.
    fn set_balance(&mut self, who: u64, bal: AccountBalance)
        requires
            old(self).inv(),
            bal.free + bal.reserved <= u64::MAX,
        ensures
            final(self).inv(),
            final(self)@ == (EscrowView {
                accounts: old(self)@.accounts.insert(who, bal),
                ..old(self)@
            }),
    {
        proof {
            lemma_accounts_map_properties(self.accounts@);
        }
        let ghost s0 = self.accounts@;
        let ghost v0 = self@;
        match self.find_account(who) {
            Some(i) => {
                self.accounts.set(i, (who, bal));
                proof {
                    let s1 = self.accounts@;
                    assert forall|a: int, b: int|
                        0 <= a < b < s1.len() implies (#[trigger] s1[a]).0 != (#[trigger] s1[b]).0 by {
                        assert(s1[a].0 == s0[a].0 && s1[b].0 == s0[b].0);
                    }
                    lemma_accounts_map_properties(s1);
                    let m1 = accounts_map(s1);
                    let m2 = accounts_map(s0).insert(who, bal);
                    assert forall|k: u64| #[trigger] m1.dom().contains(k) implies m2.dom().contains(
                        k,
                    ) && m1[k] == m2[k] by {
                        let j = choose|j: int| 0 <= j < s1.len() && (#[trigger] s1[j]).0 == k;
                        if j == i {
                            assert(k == who && m1[k] == bal);
                        } else {
                            assert((s0[j]).0 == k);
                            assert(has_account(s0, k));
                            assert(accounts_map(s0).dom().contains(k));
                            assert(k != who);
                            assert(m1[k] == s1[j].1 && accounts_map(s0)[k] == s0[j].1);
                        }
                    }
                    assert forall|k: u64| #[trigger] m2.dom().contains(k) implies m1.dom().contains(
                        k,
                    ) by {
                        if k == who {
                            assert((s1[i as int]).0 == k);
                            assert(has_account(s1, k));
                        } else {
                            assert(accounts_map(s0).dom().contains(k));
                            assert(has_account(s0, k));
                            let j = choose|j: int| 0 <= j < s0.len() && (#[trigger] s0[j]).0 == k;
                            assert((s1[j]).0 == k);
                            assert(has_account(s1, k));
                        }
                    }
                    assert(m1 =~= m2);
                    assert(self@ =~= (EscrowView { accounts: v0.accounts.insert(who, bal), ..v0 }));
                }
            },
            None => {
                proof {
                    assert(!has_account(s0, who));
                }
                self.accounts.push((who, bal));
                proof {
                    let s1 = self.accounts@;
                    assert(s1.drop_last() =~= s0);
                    assert forall|a: int, b: int|
                        0 <= a < b < s1.len() implies (#[trigger] s1[a]).0 != (#[trigger] s1[b]).0 by {
                        if b == s1.len() - 1 {
                            assert((s0[a]).0 == s1[a].0);
                        }
                    }
                    assert(accounts_map(s1) == accounts_map(s0).insert(who, bal));
                    assert(self@ =~= (EscrowView { accounts: v0.accounts.insert(who, bal), ..v0 }));
                }
            },
        }
        proof {
            lemma_accounts_map_properties(self.accounts@);
            assert forall|k: u64| #[trigger] self@.accounts.dom().contains(k) implies self@.accounts[k].free
                + self@.accounts[k].reserved <= u64::MAX by {
                if k != who {
                    assert(v0.accounts.dom().contains(k));
                }
            }
        }
    }

    /// The free balance of `who`.
    pub fn free_balance(&self, who: u64) -> (r: u64)
        requires
            self.inv(),
        ensures
            r == free_of(self@, who),
    {
        self.balance(who).free
    }

    /// The reserved balance of `who`.
    pub fn reserved_balance(&self, who: u64) -> (r: u64)
        requires
            self.inv(),
        ensures
            r == reserved_of(self@, who),
    {
        self.balance(who).reserved
    }

    /// The total balance of `who`.
    pub fn total_balance(&self, who: u64) -> (r: u64)
        requires
            self.inv(),
        ensures
            r == total_of(self@, who),
    {
        proof {
            lemma_accounts_map_properties(self.accounts@);
        }
        let b = self.balance(who);
        b.free + b.reserved
    }

    /// Add free balance to `who`; the way accounts are funded.
    pub fn deposit(&mut self, who: u64, amount: u64) -> (r: Result<(), Error>)
        requires
            old(self).inv(),
        ensures
            final(self).inv(),
            match r {
                Ok(_) => total_of(old(self)@, who) + amount <= u64::MAX && final(self)@
                    == (EscrowView {
                    accounts: old(self)@.accounts.insert(
                        who,
                        AccountBalance {
                            free: (free_of(old(self)@, who) + amount) as u64,
                            reserved: reserved_of(old(self)@, who),
                        },
                    ),
                    ..old(self)@
                }),
                Err(e) => e == Error::ArithmeticOverflow && total_of(old(self)@, who) + amount
                    > u64::MAX && final(self)@ == old(self)@,
            },
    {
        proof {
            lemma_accounts_map_properties(self.accounts@);
        }
        let b = self.balance(who);
        if amount > u64::MAX - b.reserved || b.free > u64::MAX - b.reserved - amount {
            return Err(Error::ArithmeticOverflow);
        }
        self.set_balance(who, AccountBalance { free: b.free + amount, reserved: b.reserved });
        Ok(())
    }

    /// Whether `who` could reserve `amount`.
    pub fn can_reserve(&self, who: u64, amount: u64) -> (r: bool)
        requires
            self.inv(),
        ensures
            r == (amount <= free_of(self@, who)),
    {
        let b = self.balance(who);
        amount <= b.free
    }

    /// Move `amount` of `who`'s free balance into reserve.
    pub fn reserve(&mut self, who: u64, amount: u64) -> (r: Result<(), Error>)
        requires
            old(self).inv(),
        ensures
            final(self).inv(),
            match r {
                Ok(_) => spec_reserve(old(self)@, who, amount) == Ok::<_, Error>(final(self)@),
                Err(e) => final(self)@ == old(self)@ && spec_reserve(old(self)@, who, amount)
                    == Err::<EscrowView, _>(e),
            },
    {
        proof {
            lemma_accounts_map_properties(self.accounts@);
        }
        let b = self.balance(who);
        if amount > b.free {
            return Err(Error::NotEnoughFreeBalance);
        }
        self.set_balance(
            who,
            AccountBalance { free: b.free - amount, reserved: b.reserved + amount },
        );
        proof {
            assert(self@ =~= spec_reserve(old(self)@, who, amount)->Ok_0);
        }
        Ok(())
    }

    /// Move back into `who`'s free balance as much of `amount` as is reserved.
    pub fn unreserve(&mut self, who: u64, amount: u64)
        requires
            old(self).inv(),
        ensures
            final(self).inv(),
            final(self)@ == spec_unreserve(old(self)@, who, amount),
    {
        proof {
            lemma_accounts_map_properties(self.accounts@);
        }
        let b = self.balance(who);
        let moved = if amount <= b.reserved {
            amount
        } else {
            b.reserved
        };
        self.set_balance(who, AccountBalance { free: b.free + moved, reserved: b.reserved - moved });
        proof {
            assert(self@ =~= spec_unreserve(old(self)@, who, amount));
        }
    }

    /// Transfer `amount` of free balance from `from` to `to`; with
    /// `keep_alive`, refuse to leave `from` below the existential deposit.
    pub fn transfer(&mut self, from: u64, to: u64, amount: u64, keep_alive: bool) -> (r: Result<
        (),
        Error,
    >)
        requires
            old(self).inv(),
        ensures
            final(self).inv(),
            match r {
                Ok(_) => spec_transfer(old(self)@, from, to, amount, keep_alive) == Ok::<_, Error>(
                    final(self)@,
                ),
                Err(e) => final(self)@ == old(self)@ && spec_transfer(
                    old(self)@,
                    from,
                    to,
                    amount,
                    keep_alive,
                ) == Err::<EscrowView, _>(e),
            },
    {
        proof {
            lemma_accounts_map_properties(self.accounts@);
        }
        let from_balance = self.balance(from);
        if amount > from_balance.free {
            return Err(Error::NotEnoughFreeBalance);
        }
        if keep_alive && from_balance.free - amount < self.existential_deposit {
            return Err(Error::TransferWouldKillAccount);
        }
        if from == to {
            return Ok(());
        }
        let to_balance = self.balance(to);
        if amount > u64::MAX - to_balance.reserved || to_balance.free > u64::MAX
            - to_balance.reserved - amount {
            return Err(Error::ArithmeticOverflow);
        }
        self.set_balance(
            from,
            AccountBalance { free: from_balance.free - amount, reserved: from_balance.reserved },
        );
        self.set_balance(
            to,
            AccountBalance { free: to_balance.free + amount, reserved: to_balance.reserved },
        );
        proof {
            assert(balance_of(old(self)@, to) == to_balance);
            assert(self@ =~= spec_transfer(old(self)@, from, to, amount, keep_alive)->Ok_0);
        }
        Ok(())
    }
}

} // verus!
