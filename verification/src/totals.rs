//! Sums of amounts, and the two checks that guard a statement: a section's
//! declared total, and the balance of the whole statement.

use vstd::prelude::*;
use crate::error::{ErrorKind, ParseError};

verus! {

/// The sum of a list of amounts.
pub open spec fn sum(amounts: Seq<int>) -> int
    decreases amounts.len(),
{
    if amounts.len() == 0 {
        0
    } else {
        sum(amounts.drop_last()) + amounts.last()
    }
}

/// One more amount adds to the sum.
pub proof fn lemma_sum_push(amounts: Seq<int>, x: int)
    ensures
        sum(amounts.push(x)) == sum(amounts) + x,
{
    assert(amounts.push(x).drop_last() =~= amounts);
}

/// Replacing one amount changes the sum by the difference.
pub proof fn lemma_sum_update(amounts: Seq<int>, i: int, x: int)
    requires
        0 <= i < amounts.len(),
    ensures
        sum(amounts.update(i, x)) == sum(amounts) - amounts[i] + x,
    decreases amounts.len(),
{
    let changed = amounts.update(i, x);
    if i == amounts.len() - 1 {
        assert(changed.drop_last() =~= amounts.drop_last());
    } else {
        lemma_sum_update(amounts.drop_last(), i, x);
        assert(changed.drop_last() =~= amounts.drop_last().update(i, x));
    }
}

/// A section is consistent where its amounts add up to the total it declares.
pub open spec fn total_agrees(amounts: Seq<int>, declared: int) -> bool {
    sum(amounts) == declared
}

/// A statement balances where the ending balance is the starting balance
/// plus all amounts plus the interest charged.
pub open spec fn balances(start: int, end: int, amounts: Seq<int>, interest: int) -> bool {
    end - start == sum(amounts) + interest
}

/// Where a section's amounts agree with its declared total, changing any one
/// of them by a nonzero delta makes them disagree.
pub proof fn lemma_changed_amount_breaks_total(
    amounts: Seq<int>,
    declared: int,
    i: int,
    delta: int,
)
    requires
        total_agrees(amounts, declared),
        0 <= i < amounts.len(),
        delta != 0,
    ensures
        !total_agrees(amounts.update(i, amounts[i] + delta), declared),
{
    lemma_sum_update(amounts, i, amounts[i] + delta);
}

/// Where a statement balances, changing any one amount by a nonzero delta
/// while the balances and the interest stay makes it unbalanced.
pub proof fn lemma_changed_amount_breaks_balance(
    start: int,
    end: int,
    amounts: Seq<int>,
    interest: int,
    i: int,
    delta: int,
)
    requires
        balances(start, end, amounts, interest),
        0 <= i < amounts.len(),
        delta != 0,
    ensures
        !balances(start, end, amounts.update(i, amounts[i] + delta), interest),
{
    lemma_sum_update(amounts, i, amounts[i] + delta);
}

/// The outcome of holding a sum of amounts against the total that the text
/// declares; a disagreement is reported with `remaining` bytes unread.
pub open spec fn spec_check_total(computed: int, declared: int, remaining: usize) -> Result<
    (),
    ParseError,
> {
    if computed == declared {
        Ok(())
    } else {
        Err(ParseError { kind: ErrorKind::TotalsMismatch, remaining })
    }
}

/// Accepts a sum of amounts that equals the declared total, and rejects any
/// other as a totals mismatch.
pub fn check_total(computed: i128, declared: i128, remaining: usize) -> (r: Result<(), ParseError>)
    ensures
        r == spec_check_total(computed as int, declared as int, remaining),
{
    if computed == declared {
        Ok(())
    } else {
        Err(ParseError { kind: ErrorKind::TotalsMismatch, remaining })
    }
}

} // verus!
