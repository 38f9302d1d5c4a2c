//! The vault: its one-time configuration (admin and custodied asset) and the
//! balance ledger, with the deposit / withdraw / query / emergency-withdraw
//! protocol over them.
//!
//! External collaborators are taken at their interface boundary: each
//! state-mutating operation receives the authorization collaborator's verdict
//! (`auth_ok`) for the relevant identity, and each value-moving operation
//! either hands back the [`TransferAction`] the asset-transfer collaborator
//! must attempt, or receives that collaborator's verdict (`transfer_ok`).

use vstd::prelude::*;

use crate::ledger::UserBalance;
use crate::ledger::has_owner;
use crate::ledger::ledger_wf;
use crate::ledger::lemma_balance_absent;
use crate::ledger::lemma_balance_at_index;
use crate::ledger::lemma_balance_le_sum;
use crate::ledger::lemma_push_entry;
use crate::ledger::lemma_sum_is_sum_of_balances;
use crate::ledger::lemma_sum_take_bounds;
use crate::ledger::lemma_update_entry;
use crate::ledger::owners_of;
use crate::ledger::seq_balance;
use crate::ledger::seq_sum;
use crate::ledger::sum_balances_for;

verus! {

/// Why a vault operation failed.
#[derive(Clone, Copy, PartialEq, Eq, Structural, Debug)]
pub enum VaultError {
    /// `initialize` was called on a vault that already holds a configuration.
    AlreadyInitialized,
    /// A deposit or withdrawal named a non-positive amount.
    InvalidAmount,
    /// A withdrawal asked for more than the user's recorded balance.
    InsufficientBalance,
    /// The authorization collaborator did not confirm the required identity,
    /// or an emergency withdrawal was requested for a non-admin identity.
    Unauthorized,
    /// The asset-transfer collaborator rejected the requested movement.
    TransferFailed,
}

/// The three logical records the persistent key-value substrate stores: the
/// admin identity, the custodied asset's identity, and the ledger mapping.
#[derive(Clone, Copy, PartialEq, Eq, Structural, Debug)]
pub enum DataKey {
    Admin,
    Token,
    Balances,
}

/// A party to an asset transfer: the vault's own custodial account, or an
/// external identity.
#[derive(Clone, Copy, PartialEq, Eq, Structural, Debug)]
pub enum Party {
    Vault,
    Identity(u64),
}

/// An asset movement for the asset-transfer collaborator to attempt: move
/// `amount` of the custodied asset from `from` to `to`.
#[derive(Clone, Copy, PartialEq, Eq, Structural, Debug)]
pub struct TransferAction {
    pub from: Party,
    pub to: Party,
    pub amount: i128,
}

/// One successful value-moving operation on a user's ledger entry, as ghost
/// data: the amount deposited or withdrawn.
#[derive(Clone, Copy, PartialEq, Eq, Structural, Debug)]
pub enum FlowOp {
    Deposit(i128),
    Withdraw(i128),
}

/// The vault: the one-time configuration and the balance ledger.
///
/// `admin` and `token` are meaningful only once `initialized` holds; the
/// ledger maps each owner to its record, absence standing for a zero balance.
pub struct MicroYieldVault {
    initialized: bool,
    admin: u64,
    token: u64,
    entries: Vec<(u64, UserBalance)>,
}

impl MicroYieldVault {
    /// Whether `initialize` has completed for this vault.
    pub closed spec fn is_initialized(self) -> bool {
        self.initialized
    }

    /// The configured administrator identity (meaningful once initialized).
    pub closed spec fn spec_admin(self) -> u64 {
        self.admin
    }

    /// The identity of the custodied asset (meaningful once initialized).
    pub closed spec fn spec_token(self) -> u64 {
        self.token
    }

    /// The recorded balance of `user`: the amount of its ledger record, or
    /// zero where none exists.
    pub closed spec fn spec_balance(self, user: u64) -> int {
        seq_balance(self.entries@, user)
    }

    /// The sum of all recorded balances.
    pub closed spec fn spec_tvl(self) -> int {
        seq_sum(self.entries@)
    }

    /// The identities that hold a ledger record: exactly the users that ever
    /// completed a deposit, since records are created on first deposit and
    /// never removed.
    pub closed spec fn spec_depositors(self) -> Seq<u64> {
        self.entries@.map(|i: int, e: (u64, UserBalance)| e.0)
    }

    /// The vault's invariant: ledger owners are unique, every recorded
    /// amount is non-negative, and the total fits in a signed 128-bit
    /// integer.
    pub closed spec fn well_formed(self) -> bool {
        ledger_wf(self.entries@)
    }

    /// A fresh vault: no configuration and an empty ledger.
    pub fn new() -> (r: MicroYieldVault)
        ensures
            r.well_formed(),
            !r.is_initialized(),
            r.spec_tvl() == 0,
            forall|u: u64| r.spec_balance(u) == 0,
    {
        let r = MicroYieldVault { initialized: false, admin: 0, token: 0, entries: Vec::new() };
        proof {
            assert forall|u: u64| r.spec_balance(u) == 0 by {
                lemma_balance_absent(r.entries@, u);
            }
        }
        r
    }

    /// Set the one-time configuration: the admin identity and the custodied
    /// asset, and an empty ledger. Fails with `AlreadyInitialized` on any
    /// later call, leaving the existing configuration untouched; fails with
    /// `Unauthorized` where the authorization collaborator did not confirm
    /// that `admin` itself sanctioned the call.
    pub fn initialize(&mut self, admin: u64, token: u64, auth_ok: bool) -> (r: Result<
        (),
        VaultError,
    >)
        requires
            old(self).well_formed(),
        ensures
            final(self).well_formed(),
            old(self).is_initialized() ==> {
                &&& r == Err::<(), VaultError>(VaultError::AlreadyInitialized)
                &&& *final(self) == *old(self)
            },
            !old(self).is_initialized() && !auth_ok ==> {
                &&& r == Err::<(), VaultError>(VaultError::Unauthorized)
                &&& *final(self) == *old(self)
            },
            !old(self).is_initialized() && auth_ok ==> {
                &&& r == Ok::<(), VaultError>(())
                &&& final(self).is_initialized()
                &&& final(self).spec_admin() == admin
                &&& final(self).spec_token() == token
                &&& final(self).spec_tvl() == 0
                &&& forall|u: u64| final(self).spec_balance(u) == 0
            },
    {
        if self.initialized {
            return Err(VaultError::AlreadyInitialized);
        }
        if !auth_ok {
            return Err(VaultError::Unauthorized);
        }
        self.initialized = true;
        self.admin = admin;
        self.token = token;
        self.entries = Vec::new();
        proof {
            assert forall|u: u64| final(self).spec_balance(u) == 0 by {
                lemma_balance_absent(self.entries@, u);
            }
        }
        Ok(())
    }

    /// The recorded balance of `user`, zero where no record exists. Read
    /// only: no authorization is required and nothing can fail.
    pub fn balance(&self, user: u64) -> (r: i128)
        requires
            self.well_formed(),
            self.is_initialized(),
        ensures
            r == self.spec_balance(user),
    {
        match find_owner(&self.entries, user) {
            Some(i) => {
                proof {
                    lemma_balance_at_index(self.entries@, user, i as int);
                }
                self.entries[i].1.amount
            },
            None => {
                proof {
                    lemma_balance_absent(self.entries@, user);
                }
                0
            },
        }
    }

    /// The sum of all recorded balances. Read only: no authorization is
    /// required and nothing can fail. After an emergency withdrawal this
    /// accounting view may exceed the vault's true custodial holdings.
    pub fn total_value_locked(&self) -> (r: i128)
        requires
            self.well_formed(),
            self.is_initialized(),
        ensures
            r == self.spec_tvl(),
    {
        let n = self.entries.len();
        let mut total: i128 = 0;
        let mut i: usize = 0;
        while i < n
            invariant
                self.well_formed(),
                n == self.entries@.len(),
                i <= n,
                total == seq_sum(self.entries@.take(i as int)),
            decreases n - i,
        {
            proof {
                let s = self.entries@;
                assert(s.take(i as int + 1).drop_last() =~= s.take(i as int));
                assert(s.take(i as int + 1).last() == s[i as int]);
                lemma_sum_take_bounds(s, i as int);
                lemma_sum_take_bounds(s, i as int + 1);
            }
            total = total + self.entries[i].1.amount;
            i = i + 1;
        }
        proof {
            assert(self.entries@.take(n as int) =~= self.entries@);
        }
        total
    }

    /// Validate a deposit of `amount` by `user` and hand back the asset
    /// movement the asset-transfer collaborator must complete before the
    /// ledger may be credited: `amount` from `user` to the vault's custodial
    /// account. Touches no state. Fails with `Unauthorized` where the
    /// authorization collaborator did not confirm `user`, and with
    /// `InvalidAmount` where `amount` is not positive.
    pub fn deposit_request(&self, user: u64, amount: i128, auth_ok: bool) -> (r: Result<
        TransferAction,
        VaultError,
    >)
        requires
            self.well_formed(),
            self.is_initialized(),
        ensures
            !auth_ok ==> r == Err::<TransferAction, VaultError>(VaultError::Unauthorized),
            auth_ok && amount <= 0 ==> r == Err::<TransferAction, VaultError>(
                VaultError::InvalidAmount,
            ),
            auth_ok && amount > 0 ==> r == Ok::<TransferAction, VaultError>(
                (TransferAction { from: Party::Identity(user), to: Party::Vault, amount }),
            ),
    {
        if !auth_ok {
            return Err(VaultError::Unauthorized);
        }
        if amount <= 0 {
            return Err(VaultError::InvalidAmount);
        }
        Ok(TransferAction { from: Party::Identity(user), to: Party::Vault, amount })
    }

    /// Credit a deposit whose external transfer the asset-transfer
    /// collaborator has confirmed: add `amount` to the record of `user`,
    /// creating the record where none exists. Every other balance, and the
    /// configuration, are untouched; the total grows by `amount`.
    pub fn deposit_commit(&mut self, user: u64, amount: i128)
        requires
            old(self).well_formed(),
            old(self).is_initialized(),
            amount > 0,
            old(self).spec_tvl() + amount <= i128::MAX,
        ensures
            final(self).well_formed(),
            final(self).is_initialized(),
            final(self).spec_admin() == old(self).spec_admin(),
            final(self).spec_token() == old(self).spec_token(),
            final(self).spec_balance(user) == old(self).spec_balance(user) + amount,
            forall|u: u64| u != user ==> final(self).spec_balance(u) == old(self).spec_balance(u),
            final(self).spec_tvl() == old(self).spec_tvl() + amount,
    {
        let ghost s_old = self.entries@;
        match find_owner(&self.entries, user) {
            Some(i) => {
                proof {
                    lemma_balance_at_index(s_old, user, i as int);
                    lemma_balance_le_sum(s_old, user);
                }
                let cur = self.entries[i].1.amount;
                let nb = UserBalance { amount: cur + amount };
                self.entries[i] = (user, nb);
                proof {
                    lemma_update_entry(s_old, i as int, nb);
                    assert(self.entries@ =~= s_old.update(i as int, (s_old[i as int].0, nb)));
                    assert forall|j: int| 0 <= j < self.entries@.len() implies self.entries@[j]
                        .1.amount >= 0 by {
                        if j != i as int {
                            assert(self.entries@[j] == s_old[j]);
                        }
                    }
                }
            },
            None => {
                proof {
                    lemma_balance_absent(s_old, user);
                    lemma_push_entry(s_old, user, UserBalance { amount });
                }
                self.entries.push((user, UserBalance { amount }));
                proof {
                    assert forall|j: int| 0 <= j < self.entries@.len() implies self.entries@[j]
                        .1.amount >= 0 by {
                        if j < s_old.len() {
                            assert(self.entries@[j] == s_old[j]);
                        }
                    }
                }
            },
        }
    }

    /// Deposit `amount` of the custodied asset for `user`: validate, let the
    /// asset-transfer collaborator move `amount` from `user` into custody
    /// (its verdict is `transfer_ok`), and credit the ledger only on
    /// confirmed success. On any failure the ledger is left unmodified: no
    /// partial credit.
    pub fn deposit(&mut self, user: u64, amount: i128, auth_ok: bool, transfer_ok: bool) -> (r:
        Result<(), VaultError>)
        requires
            old(self).well_formed(),
            old(self).is_initialized(),
            auth_ok && amount > 0 && transfer_ok ==> old(self).spec_tvl() + amount <= i128::MAX,
        ensures
            final(self).well_formed(),
            final(self).is_initialized(),
            final(self).spec_admin() == old(self).spec_admin(),
            final(self).spec_token() == old(self).spec_token(),
            !auth_ok ==> {
                &&& r == Err::<(), VaultError>(VaultError::Unauthorized)
                &&& *final(self) == *old(self)
            },
            auth_ok && amount <= 0 ==> {
                &&& r == Err::<(), VaultError>(VaultError::InvalidAmount)
                &&& *final(self) == *old(self)
            },
            auth_ok && amount > 0 && !transfer_ok ==> {
                &&& r == Err::<(), VaultError>(VaultError::TransferFailed)
                &&& *final(self) == *old(self)
            },
            auth_ok && amount > 0 && transfer_ok ==> {
                &&& r == Ok::<(), VaultError>(())
                &&& final(self).spec_balance(user) == old(self).spec_balance(user) + amount
                &&& forall|u: u64|
                    u != user ==> final(self).spec_balance(u) == old(self).spec_balance(u)
                &&& final(self).spec_tvl() == old(self).spec_tvl() + amount
            },
    {
        match self.deposit_request(user, amount, auth_ok) {
            Err(e) => Err(e),
            Ok(_action) => {
                if !transfer_ok {
                    return Err(VaultError::TransferFailed);
                }
                self.deposit_commit(user, amount);
                Ok(())
            },
        }
    }

    /// Validate a withdrawal of `amount` by `user` against the ledger (the
    /// source of truth for entitlement), debit the record, and hand back the
    /// asset movement to attempt: `amount` from the vault's custodial
    /// account to `user`. On any error no state is touched. On success the
    /// debit is already persisted when the caller attempts the transfer; a
    /// transfer failure after this point leaves the ledger debited.
    pub fn withdraw_begin(&mut self, user: u64, amount: i128, auth_ok: bool) -> (r: Result<
        TransferAction,
        VaultError,
    >)
        requires
            old(self).well_formed(),
            old(self).is_initialized(),
        ensures
            final(self).well_formed(),
            final(self).is_initialized(),
            final(self).spec_admin() == old(self).spec_admin(),
            final(self).spec_token() == old(self).spec_token(),
            !auth_ok ==> {
                &&& r == Err::<TransferAction, VaultError>(VaultError::Unauthorized)
                &&& *final(self) == *old(self)
            },
            auth_ok && amount <= 0 ==> {
                &&& r == Err::<TransferAction, VaultError>(VaultError::InvalidAmount)
                &&& *final(self) == *old(self)
            },
            auth_ok && amount > 0 && old(self).spec_balance(user) < amount ==> {
                &&& r == Err::<TransferAction, VaultError>(VaultError::InsufficientBalance)
                &&& *final(self) == *old(self)
            },
            auth_ok && amount > 0 && amount <= old(self).spec_balance(user) ==> {
                &&& r == Ok::<TransferAction, VaultError>(
                    (TransferAction { from: Party::Vault, to: Party::Identity(user), amount }),
                )
                &&& final(self).spec_balance(user) == old(self).spec_balance(user) - amount
                &&& forall|u: u64|
                    u != user ==> final(self).spec_balance(u) == old(self).spec_balance(u)
                &&& final(self).spec_tvl() == old(self).spec_tvl() - amount
            },
    {
        if !auth_ok {
            return Err(VaultError::Unauthorized);
        }
        if amount <= 0 {
            return Err(VaultError::InvalidAmount);
        }
        let ghost s_old = self.entries@;
        match find_owner(&self.entries, user) {
            None => {
                proof {
                    lemma_balance_absent(s_old, user);
                }
                Err(VaultError::InsufficientBalance)
            },
            Some(i) => {
                proof {
                    lemma_balance_at_index(s_old, user, i as int);
                }
                let cur = self.entries[i].1.amount;
                if cur < amount {
                    return Err(VaultError::InsufficientBalance);
                }
                let nb = UserBalance { amount: cur - amount };
                self.entries[i] = (user, nb);
                proof {
                    lemma_update_entry(s_old, i as int, nb);
                    assert(self.entries@ =~= s_old.update(i as int, (s_old[i as int].0, nb)));
                    assert forall|j: int| 0 <= j < self.entries@.len() implies self.entries@[j]
                        .1.amount >= 0 by {
                        if j != i as int {
                            assert(self.entries@[j] == s_old[j]);
                        }
                    }
                }
                Ok(TransferAction { from: Party::Vault, to: Party::Identity(user), amount })
            },
        }
    }

    /// Withdraw `amount` of the custodied asset for `user`: validate against
    /// the ledger, debit the record, then let the asset-transfer
    /// collaborator move `amount` out of custody (its verdict is
    /// `transfer_ok`). The debit precedes the transfer: where the transfer
    /// fails the operation reports `TransferFailed` with the ledger already
    /// debited.
    pub fn withdraw(&mut self, user: u64, amount: i128, auth_ok: bool, transfer_ok: bool) -> (r:
        Result<(), VaultError>)
        requires
            old(self).well_formed(),
            old(self).is_initialized(),
        ensures
            final(self).well_formed(),
            final(self).is_initialized(),
            final(self).spec_admin() == old(self).spec_admin(),
            final(self).spec_token() == old(self).spec_token(),
            !auth_ok ==> {
                &&& r == Err::<(), VaultError>(VaultError::Unauthorized)
                &&& *final(self) == *old(self)
            },
            auth_ok && amount <= 0 ==> {
                &&& r == Err::<(), VaultError>(VaultError::InvalidAmount)
                &&& *final(self) == *old(self)
            },
            auth_ok && amount > 0 && old(self).spec_balance(user) < amount ==> {
                &&& r == Err::<(), VaultError>(VaultError::InsufficientBalance)
                &&& *final(self) == *old(self)
            },
            auth_ok && amount > 0 && amount <= old(self).spec_balance(user) ==> {
                &&& final(self).spec_balance(user) == old(self).spec_balance(user) - amount
                &&& forall|u: u64|
                    u != user ==> final(self).spec_balance(u) == old(self).spec_balance(u)
                &&& final(self).spec_tvl() == old(self).spec_tvl() - amount
                &&& (transfer_ok ==> r == Ok::<(), VaultError>(()))
                &&& (!transfer_ok ==> r == Err::<(), VaultError>(VaultError::TransferFailed))
            },
    {
        match self.withdraw_begin(user, amount, auth_ok) {
            Err(e) => Err(e),
            Ok(_action) => {
                if transfer_ok {
                    Ok(())
                } else {
                    Err(VaultError::TransferFailed)
                }
            },
        }
    }

    /// Validate an emergency drain requested for the identity `caller` and
    /// hand back the asset movement to attempt: `amount` from the vault's
    /// custodial account directly to `to`. Only the configured admin may
    /// drain; any other identity, or a missing authorization, is
    /// `Unauthorized` and implies no asset movement. The ledger is never
    /// touched.
    pub fn emergency_withdraw_request(
        &self,
        caller: u64,
        to: u64,
        amount: i128,
        auth_ok: bool,
    ) -> (r: Result<TransferAction, VaultError>)
        requires
            self.well_formed(),
            self.is_initialized(),
        ensures
            !auth_ok || caller != self.spec_admin() ==> r == Err::<TransferAction, VaultError>(
                VaultError::Unauthorized,
            ),
            auth_ok && caller == self.spec_admin() ==> r == Ok::<TransferAction, VaultError>(
                (TransferAction { from: Party::Vault, to: Party::Identity(to), amount }),
            ),
    {
        if !auth_ok {
            return Err(VaultError::Unauthorized);
        }
        if caller != self.admin {
            return Err(VaultError::Unauthorized);
        }
        Ok(TransferAction { from: Party::Vault, to: Party::Identity(to), amount })
    }

    /// Drain `amount` of the custodied asset directly to `to`, on the
    /// admin's authority alone; `transfer_ok` is the asset-transfer
    /// collaborator's verdict on that movement. Deliberately touches no
    /// ledger record and no aggregate: after a successful drain the
    /// accounting view may exceed true custody, and a later withdrawal may
    /// surface `TransferFailed` instead.
    pub fn emergency_withdraw(
        &self,
        caller: u64,
        to: u64,
        amount: i128,
        auth_ok: bool,
        transfer_ok: bool,
    ) -> (r: Result<(), VaultError>)
        requires
            self.well_formed(),
            self.is_initialized(),
        ensures
            !auth_ok || caller != self.spec_admin() ==> r == Err::<(), VaultError>(
                VaultError::Unauthorized,
            ),
            auth_ok && caller == self.spec_admin() && !transfer_ok ==> r == Err::<(), VaultError>(
                VaultError::TransferFailed,
            ),
            auth_ok && caller == self.spec_admin() && transfer_ok ==> r == Ok::<(), VaultError>(()),
    {
        match self.emergency_withdraw_request(caller, to, amount, auth_ok) {
            Err(e) => Err(e),
            Ok(_action) => {
                if transfer_ok {
                    Ok(())
                } else {
                    Err(VaultError::TransferFailed)
                }
            },
        }
    }
}

/// The sum of the vault's recorded balances of the listed users.
pub open spec fn sum_of_user_balances(v: MicroYieldVault, users: Seq<u64>) -> int
    decreases users.len(),
{
    if users.len() == 0 {
        0
    } else {
        sum_of_user_balances(v, users.drop_last()) + v.spec_balance(users.last())
    }
}

/// `sum_of_user_balances` is `sum_balances_for` over the vault's ledger.
proof fn lemma_sum_of_user_balances(v: MicroYieldVault, users: Seq<u64>)
    ensures
        sum_of_user_balances(v, users) == sum_balances_for(v.entries@, users),
    decreases users.len(),
{
    if users.len() == 0 {
    } else {
        lemma_sum_of_user_balances(v, users.drop_last());
    }
}

/// Total value locked equals the sum of `balance(u)` over every user who
/// ever deposited: the depositors (the identities holding a ledger record,
/// created on first deposit and never removed) are pairwise distinct, the
/// total is the sum of their balances, and every identity outside them has a
/// zero balance.
pub proof fn law_tvl_is_sum_of_balances(v: MicroYieldVault)
    requires
        v.well_formed(),
    ensures
        v.spec_depositors().no_duplicates(),
        v.spec_tvl() == sum_of_user_balances(v, v.spec_depositors()),
        forall|u: u64| !v.spec_depositors().contains(u) ==> v.spec_balance(u) == 0,
{
    let s = v.entries@;
    assert(v.spec_depositors() =~= owners_of(s));
    assert forall|i: int, j: int|
        0 <= i < v.spec_depositors().len() && 0 <= j < v.spec_depositors().len() && i
            != j implies v.spec_depositors()[i] != v.spec_depositors()[j] by {
        assert(v.spec_depositors()[i] == s[i].0);
        assert(v.spec_depositors()[j] == s[j].0);
    }
    lemma_sum_is_sum_of_balances(s);
    lemma_sum_of_user_balances(v, v.spec_depositors());
    assert forall|u: u64| !v.spec_depositors().contains(u) implies v.spec_balance(u) == 0 by {
        assert(!has_owner(s, u)) by {
            if has_owner(s, u) {
                let k = choose|k: int| 0 <= k < s.len() && s[k].0 == u;
                assert(v.spec_depositors()[k] == u);
            }
        }
        lemma_balance_absent(s, u);
    }
}

/// The effect of one successful value-moving operation on the balance of
/// `user`, exactly as the contracts of `deposit` (success case) and of
/// `withdraw` and `withdraw_begin` (debit performed) state it.
pub open spec fn flow_step(
    pre: MicroYieldVault,
    post: MicroYieldVault,
    user: u64,
    op: FlowOp,
) -> bool {
    match op {
        FlowOp::Deposit(amount) => amount > 0 && post.spec_balance(user) == pre.spec_balance(user)
            + amount,
        FlowOp::Withdraw(amount) => amount > 0 && amount <= pre.spec_balance(user)
            && post.spec_balance(user) == pre.spec_balance(user) - amount,
    }
}

/// The net of a sequence of flows: deposited amounts added, withdrawn
/// amounts subtracted.
pub open spec fn net_flow(ops: Seq<FlowOp>) -> int
    decreases ops.len(),
{
    if ops.len() == 0 {
        0
    } else {
        net_flow(ops.drop_last()) + (match ops.last() {
            FlowOp::Deposit(amount) => amount as int,
            FlowOp::Withdraw(amount) => -(amount as int),
        })
    }
}

/// For any sequence of successful deposits and withdrawals for `user`, each
/// respecting its own preconditions — `states` being the vault states along
/// the way and each step having the effect the contracts of `deposit` and
/// `withdraw` state — the final balance of `user` equals the initial balance
/// plus the sum of the deposited amounts minus the sum of the withdrawn
/// amounts.
pub proof fn law_balance_is_net_of_flows(states: Seq<MicroYieldVault>, user: u64, ops: Seq<FlowOp>)
    requires
        states.len() == ops.len() + 1,
        forall|i: int|
            0 <= i < ops.len() ==> #[trigger] flow_step(states[i], states[i + 1], user, ops[i]),
    ensures
        states.last().spec_balance(user) == states[0].spec_balance(user) + net_flow(ops),
    decreases ops.len(),
{
    if ops.len() == 0 {
        assert(states.last() == states[0]);
    } else {
        let n = ops.len() as int;
        let states2 = states.drop_last();
        let ops2 = ops.drop_last();
        assert forall|i: int|
            0 <= i < ops2.len() implies #[trigger] flow_step(
            states2[i],
            states2[i + 1],
            user,
            ops2[i],
        ) by {
            assert(flow_step(states[i], states[i + 1], user, ops[i]));
            assert(states2[i] == states[i]);
            assert(states2[i + 1] == states[i + 1]);
            assert(ops2[i] == ops[i]);
        }
        law_balance_is_net_of_flows(states2, user, ops2);
        assert(states2.last() == states[n - 1]);
        assert(states2[0] == states[0]);
        assert(flow_step(states[n - 1], states[n], user, ops[n - 1]));
        assert(states.last() == states[n]);
        assert(ops.last() == ops[n - 1]);
    }
}

/// The index of the record owned by `user`, where one exists.
fn find_owner(entries: &Vec<(u64, UserBalance)>, user: u64) -> (r: Option<usize>)
    ensures
        match r {
            Some(i) => i < entries@.len() && entries@[i as int].0 == user,
            None => !has_owner(entries@, user),
        },
{
    let n = entries.len();
    let mut i: usize = 0;
    while i < n
        invariant
            n == entries@.len(),
            i <= n,
            forall|j: int| 0 <= j < i ==> entries@[j].0 != user,
        decreases n - i,
    {
        if entries[i].0 == user {
            return Some(i);
        }
        i = i + 1;
    }
    None
}

} // verus!
