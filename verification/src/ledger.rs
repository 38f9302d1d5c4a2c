//! The balance ledger's record type and the mathematical model of a ledger:
//! a sequence of (owner, entry) records with unique owners, non-negative
//! amounts, and a total that fits in a signed 128-bit integer.

use vstd::prelude::*;

verus! {

/// A user's recorded custodied amount within the vault.
#[derive(Clone, Copy)]
pub struct UserBalance {
    pub amount: i128,
}

/// The amount recorded for `user`: the amount of the unique record owned by
/// `user`, or zero where no record exists (absence is the zero value).
pub open spec fn seq_balance(s: Seq<(u64, UserBalance)>, user: u64) -> int
    decreases s.len(),
{
    if s.len() == 0 {
        0
    } else if s.last().0 == user {
        s.last().1.amount as int
    } else {
        seq_balance(s.drop_last(), user)
    }
}

/// The sum of the recorded amounts over all records.
pub open spec fn seq_sum(s: Seq<(u64, UserBalance)>) -> int
    decreases s.len(),
{
    if s.len() == 0 {
        0
    } else {
        seq_sum(s.drop_last()) + s.last().1.amount
    }
}

/// No two records share an owner.
pub open spec fn owners_unique(s: Seq<(u64, UserBalance)>) -> bool {
    forall|i: int, j: int| 0 <= i < j < s.len() ==> s[i].0 != s[j].0
}

/// Every recorded amount is non-negative.
pub open spec fn amounts_nonneg(s: Seq<(u64, UserBalance)>) -> bool {
    forall|i: int| 0 <= i < s.len() ==> s[i].1.amount >= 0
}

/// Some record is owned by `user`.
pub open spec fn has_owner(s: Seq<(u64, UserBalance)>, user: u64) -> bool {
    exists|i: int| 0 <= i < s.len() && s[i].0 == user
}

/// The ledger's invariant: unique owners, non-negative amounts, and a total
/// small enough that it can be returned as a signed 128-bit integer.
pub open spec fn ledger_wf(s: Seq<(u64, UserBalance)>) -> bool {
    &&& owners_unique(s)
    &&& amounts_nonneg(s)
    &&& seq_sum(s) <= i128::MAX
}

/// Dropping the last record preserves owner uniqueness and non-negativity.
pub proof fn lemma_drop_last_preserves(s: Seq<(u64, UserBalance)>)
    requires
        s.len() > 0,
    ensures
        owners_unique(s) ==> owners_unique(s.drop_last()),
        amounts_nonneg(s) ==> amounts_nonneg(s.drop_last()),
{
    let s2 = s.drop_last();
    if owners_unique(s) {
        assert forall|i: int, j: int| 0 <= i < j < s2.len() implies s2[i].0 != s2[j].0 by {
            assert(s2[i] == s[i]);
            assert(s2[j] == s[j]);
        }
    }
    if amounts_nonneg(s) {
        assert forall|i: int| 0 <= i < s2.len() implies s2[i].1.amount >= 0 by {
            assert(s2[i] == s[i]);
        }
    }
}

/// Where the record at index `i` is owned by `user` and owners are unique,
/// the recorded balance of `user` is that record's amount.
pub proof fn lemma_balance_at_index(s: Seq<(u64, UserBalance)>, user: u64, i: int)
    requires
        owners_unique(s),
        0 <= i < s.len(),
        s[i].0 == user,
    ensures
        seq_balance(s, user) == s[i].1.amount,
    decreases s.len(),
{
    if i == s.len() - 1 {
    } else {
        assert(s.last() == s[s.len() - 1]);
        lemma_drop_last_preserves(s);
        let s2 = s.drop_last();
        assert(s2[i] == s[i]);
        lemma_balance_at_index(s2, user, i);
    }
}

/// Where no record is owned by `user`, the recorded balance of `user` is zero.
pub proof fn lemma_balance_absent(s: Seq<(u64, UserBalance)>, user: u64)
    requires
        !has_owner(s, user),
    ensures
        seq_balance(s, user) == 0,
    decreases s.len(),
{
    if s.len() == 0 {
    } else {
        assert(s.last() == s[s.len() - 1]);
        let s2 = s.drop_last();
        assert(!has_owner(s2, user)) by {
            if has_owner(s2, user) {
                let k = choose|k: int| 0 <= k < s2.len() && s2[k].0 == user;
                assert(s2[k] == s[k]);
            }
        }
        lemma_balance_absent(s2, user);
    }
}

/// With non-negative amounts the total is non-negative.
pub proof fn lemma_sum_nonneg(s: Seq<(u64, UserBalance)>)
    requires
        amounts_nonneg(s),
    ensures
        seq_sum(s) >= 0,
    decreases s.len(),
{
    if s.len() == 0 {
    } else {
        assert(s.last() == s[s.len() - 1]);
        lemma_drop_last_preserves(s);
        lemma_sum_nonneg(s.drop_last());
    }
}

/// With non-negative amounts, no single balance is negative nor exceeds the total.
pub proof fn lemma_balance_le_sum(s: Seq<(u64, UserBalance)>, user: u64)
    requires
        amounts_nonneg(s),
    ensures
        0 <= seq_balance(s, user),
        seq_balance(s, user) <= seq_sum(s),
    decreases s.len(),
{
    if s.len() == 0 {
    } else {
        assert(s.last() == s[s.len() - 1]);
        lemma_drop_last_preserves(s);
        let s2 = s.drop_last();
        lemma_balance_le_sum(s2, user);
        lemma_sum_nonneg(s2);
    }
}

/// The total splits at any index into the sums of the prefix and the suffix.
pub proof fn lemma_sum_split(s: Seq<(u64, UserBalance)>, i: int)
    requires
        0 <= i <= s.len(),
    ensures
        seq_sum(s) == seq_sum(s.take(i)) + seq_sum(s.skip(i)),
    decreases s.len(),
{
    if i == s.len() {
        assert(s.take(i) =~= s);
        assert(s.skip(i) =~= Seq::<(u64, UserBalance)>::empty());
    } else {
        let s2 = s.drop_last();
        lemma_sum_split(s2, i);
        assert(s2.take(i) =~= s.take(i));
        assert(s.skip(i).drop_last() =~= s2.skip(i));
        assert(s.skip(i).last() == s.last());
        assert(s.last() == s[s.len() - 1]);
    }
}

/// With non-negative amounts, the sum of any prefix lies between zero and
/// the total.
pub proof fn lemma_sum_take_bounds(s: Seq<(u64, UserBalance)>, i: int)
    requires
        amounts_nonneg(s),
        0 <= i <= s.len(),
    ensures
        0 <= seq_sum(s.take(i)),
        seq_sum(s.take(i)) <= seq_sum(s),
{
    lemma_sum_split(s, i);
    assert forall|j: int| 0 <= j < s.take(i).len() implies s.take(i)[j].1.amount >= 0 by {
        assert(s.take(i)[j] == s[j]);
    }
    assert forall|j: int| 0 <= j < s.skip(i).len() implies s.skip(i)[j].1.amount >= 0 by {
        assert(s.skip(i)[j] == s[i + j]);
    }
    lemma_sum_nonneg(s.take(i));
    lemma_sum_nonneg(s.skip(i));
}

/// Replacing the amount of the record at index `i` keeps owners unique, sets
/// the owner's balance to the new amount, leaves every other balance as it
/// was, and shifts the total by the difference of the amounts.
pub proof fn lemma_update_entry(s: Seq<(u64, UserBalance)>, i: int, b: UserBalance)
    requires
        owners_unique(s),
        0 <= i < s.len(),
    ensures
        owners_unique(s.update(i, (s[i].0, b))),
        seq_balance(s.update(i, (s[i].0, b)), s[i].0) == b.amount,
        forall|u: u64| u != s[i].0 ==> seq_balance(s.update(i, (s[i].0, b)), u)
            == seq_balance(s, u),
        seq_sum(s.update(i, (s[i].0, b))) == seq_sum(s) - s[i].1.amount + b.amount,
    decreases s.len(),
{
    let s2 = s.update(i, (s[i].0, b));
    assert forall|a: int, c: int| 0 <= a < c < s2.len() implies s2[a].0 != s2[c].0 by {
        assert(s[a].0 != s[c].0);
    }
    lemma_balance_at_index(s2, s[i].0, i);
    if i == s.len() - 1 {
        assert(s2.drop_last() =~= s.drop_last());
        assert(s2.last() == s2[i]);
        assert(s.last() == s[i]);
        assert forall|u: u64| u != s[i].0 implies seq_balance(s2, u) == seq_balance(s, u) by {
            assert(seq_balance(s2, u) == seq_balance(s2.drop_last(), u));
            assert(seq_balance(s, u) == seq_balance(s.drop_last(), u));
        }
    } else {
        assert(s.last() == s[s.len() - 1]);
        assert(s2.last() == s.last());
        assert(s2.drop_last() =~= s.drop_last().update(i, (s[i].0, b)));
        lemma_drop_last_preserves(s);
        assert(s.drop_last()[i] == s[i]);
        lemma_update_entry(s.drop_last(), i, b);
        assert forall|u: u64| u != s[i].0 implies seq_balance(s2, u) == seq_balance(s, u) by {
            if u == s.last().0 {
                assert(seq_balance(s2, u) == s2.last().1.amount);
                assert(seq_balance(s, u) == s.last().1.amount);
            } else {
                assert(seq_balance(s2, u) == seq_balance(s2.drop_last(), u));
                assert(seq_balance(s, u) == seq_balance(s.drop_last(), u));
                assert(seq_balance(s2.drop_last(), u) == seq_balance(s.drop_last(), u));
            }
        }
    }
}

/// The owners of the records, in record order.
pub open spec fn owners_of(s: Seq<(u64, UserBalance)>) -> Seq<u64> {
    s.map(|i: int, e: (u64, UserBalance)| e.0)
}

/// The sum of the recorded balances of the listed users.
pub open spec fn sum_balances_for(s: Seq<(u64, UserBalance)>, users: Seq<u64>) -> int
    decreases users.len(),
{
    if users.len() == 0 {
        0
    } else {
        sum_balances_for(s, users.drop_last()) + seq_balance(s, users.last())
    }
}

/// Dropping the last record leaves the balance of any user other than its
/// owner unchanged, so sums over such users are unchanged too.
proof fn lemma_sum_balances_drop_last(s: Seq<(u64, UserBalance)>, users: Seq<u64>)
    requires
        s.len() > 0,
        forall|k: int| 0 <= k < users.len() ==> users[k] != s.last().0,
    ensures
        sum_balances_for(s, users) == sum_balances_for(s.drop_last(), users),
    decreases users.len(),
{
    if users.len() == 0 {
    } else {
        let users2 = users.drop_last();
        assert forall|k: int| 0 <= k < users2.len() implies users2[k] != s.last().0 by {
            assert(users2[k] == users[k]);
        }
        lemma_sum_balances_drop_last(s, users2);
        assert(users.last() == users[users.len() - 1]);
        assert(users.last() != s.last().0);
    }
}

/// Where owners are unique, the total is the sum of each owner's balance.
pub proof fn lemma_sum_is_sum_of_balances(s: Seq<(u64, UserBalance)>)
    requires
        owners_unique(s),
    ensures
        seq_sum(s) == sum_balances_for(s, owners_of(s)),
    decreases s.len(),
{
    if s.len() == 0 {
        assert(owners_of(s) =~= Seq::<u64>::empty());
    } else {
        assert(s.last() == s[s.len() - 1]);
        let s2 = s.drop_last();
        lemma_drop_last_preserves(s);
        lemma_sum_is_sum_of_balances(s2);
        let os = owners_of(s);
        assert(os.last() == s.last().0);
        assert(os.drop_last() =~= owners_of(s2));
        assert(seq_balance(s, s.last().0) == s.last().1.amount);
        assert forall|k: int| 0 <= k < owners_of(s2).len() implies owners_of(s2)[k]
            != s.last().0 by {
            assert(owners_of(s2)[k] == s2[k].0);
            assert(s2[k] == s[k]);
        }
        lemma_sum_balances_drop_last(s, owners_of(s2));
    }
}

/// Appending a record for an owner with no existing record keeps owners
/// unique, sets that owner's balance to the new amount, leaves every other
/// balance as it was, and adds the new amount to the total.
pub proof fn lemma_push_entry(s: Seq<(u64, UserBalance)>, user: u64, b: UserBalance)
    requires
        owners_unique(s),
        !has_owner(s, user),
    ensures
        owners_unique(s.push((user, b))),
        seq_balance(s.push((user, b)), user) == b.amount,
        forall|u: u64| u != user ==> seq_balance(s.push((user, b)), u) == seq_balance(s, u),
        seq_sum(s.push((user, b))) == seq_sum(s) + b.amount,
{
    let s2 = s.push((user, b));
    assert(s2.drop_last() =~= s);
    assert(s2.last() == (user, b));
    assert forall|a: int, c: int| 0 <= a < c < s2.len() implies s2[a].0 != s2[c].0 by {
        if c < s2.len() - 1 {
            assert(s2[a] == s[a]);
            assert(s2[c] == s[c]);
        } else {
            assert(s2[a] == s[a]);
        }
    }
}

} // verus!
