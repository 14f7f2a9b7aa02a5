use vstd::prelude::*;

use crate::ledger::{after_all, can_pay_all, Ledger, LedgerView};
use crate::types::{AccountId, Balance, Error};

verus! {

/// The sum of the percentages of a royalty table.
pub open spec fn percent_total(table: Seq<(AccountId, u8)>) -> int
    decreases table.len(),
{
    if table.len() == 0 {
        0
    } else {
        percent_total(table.drop_last()) + table.last().1
    }
}

/// A beneficiary's share of `price` at `percent`, rounded down.
pub open spec fn royalty_share(price: Balance, percent: u8) -> int {
    (price as int * percent as int) / 100
}

/// The royalty payments of a sale at `price`: one for each entry of the
/// table, in order, but for those whose beneficiary is the seller.
pub open spec fn royalty_payouts(
    table: Seq<(AccountId, u8)>,
    seller: AccountId,
    price: Balance,
) -> Seq<(AccountId, Balance)>
    decreases table.len(),
{
    if table.len() == 0 {
        seq![]
    } else {
        let before = royalty_payouts(table.drop_last(), seller, price);
        if table.last().0 == seller {
            before
        } else {
            before.push((table.last().0, royalty_share(price, table.last().1) as Balance))
        }
    }
}

/// The sum of the amounts of a list of payments.
pub open spec fn payout_total(pays: Seq<(AccountId, Balance)>) -> int
    decreases pays.len(),
{
    if pays.len() == 0 {
        0
    } else {
        payout_total(pays.drop_last()) + pays.last().1
    }
}

/// What the seller receives: the price less the royalties paid to others.
pub open spec fn seller_proceeds(table: Seq<(AccountId, u8)>, seller: AccountId, price: Balance) -> int {
    price - payout_total(royalty_payouts(table, seller, price))
}

/// Every payment of a sale: the royalties, then the seller's proceeds.
pub open spec fn sale_payouts(
    table: Seq<(AccountId, u8)>,
    seller: AccountId,
    price: Balance,
) -> Seq<(AccountId, Balance)> {
    royalty_payouts(table, seller, price).push((seller, seller_proceeds(table, seller, price) as Balance))
}

/// Royalties never exceed the percentage of the price that the table gives.
pub proof fn lemma_royalties_bounded(table: Seq<(AccountId, u8)>, seller: AccountId, price: Balance)
    ensures
        0 <= 100 * payout_total(royalty_payouts(table, seller, price)) <= price * percent_total(
            table,
        ),
    decreases table.len(),
{
    if table.len() > 0 {
        lemma_royalties_bounded(table.drop_last(), seller, price);
        let before = royalty_payouts(table.drop_last(), seller, price);
        let p = table.last().1;
        assert(0 <= 100 * royalty_share(price, p) <= price * p) by (nonlinear_arith)
            requires
                royalty_share(price, p) == (price as int * p as int) / 100,
                0 <= p,
                0 <= price,
        ;
        if table.last().0 != seller {
            let after = before.push((table.last().0, royalty_share(price, p) as Balance));
            assert(after.drop_last() == before);
        }
        assert(price * percent_total(table) == price * percent_total(table.drop_last()) + price * p)
            by (nonlinear_arith)
            requires
                percent_total(table) == percent_total(table.drop_last()) + p,
        ;
    }
}

/// A prefix of a royalty table has no larger total.
pub proof fn lemma_percent_prefix(table: Seq<(AccountId, u8)>, i: int)
    requires
        0 <= i <= table.len(),
    ensures
        0 <= percent_total(table.take(i)) <= percent_total(table),
    decreases table.len(),
{
    if table.len() > 0 {
        if i == table.len() {
            assert(table.take(i) == table);
            lemma_percent_prefix(table.drop_last(), 0);
        } else {
            lemma_percent_prefix(table.drop_last(), i);
            assert(table.drop_last().take(i) == table.take(i));
        }
    }
}

/// Every completed sale accounts for its whole price: the royalties and the
/// seller's proceeds add up to it exactly, and none of them is negative, so
/// the remainder of rounding down goes to the seller.
pub proof fn lemma_sale_pays_price(table: Seq<(AccountId, u8)>, seller: AccountId, price: Balance)
    requires
        percent_total(table) <= 100,
    ensures
        payout_total(sale_payouts(table, seller, price)) == price,
        0 <= seller_proceeds(table, seller, price) <= price,
{
    lemma_royalties_bounded(table, seller, price);
    lemma_percent_prefix(table, 0);
    assert(price * percent_total(table) <= price * 100) by (nonlinear_arith)
        requires
            percent_total(table) <= 100,
            0 <= price,
    ;
    let pays = sale_payouts(table, seller, price);
    assert(pays.drop_last() == royalty_payouts(table, seller, price));
}

/// The share at `percent` of `price`, computed without overflow.
fn share_of(price: Balance, percent: u8) -> (r: Balance)
    requires
        percent <= 100,
    ensures
        r == royalty_share(price, percent),
{
    let q = price / 100;
    let rem = price % 100;
    let p = percent as u128;
    assert(q * p <= price) by (nonlinear_arith)
        requires
            q == price / 100,
            p <= 100,
    ;
    assert(rem * p <= 9900) by (nonlinear_arith)
        requires
            rem < 100,
            p <= 100,
    ;
    assert(q * p + (rem * p) / 100 == (price as int * p as int) / 100) by (nonlinear_arith)
        requires
            q == price / 100,
            rem == price % 100,
            p >= 0,
    ;
    assert(q * p + (rem * p) / 100 <= price) by (nonlinear_arith)
        requires
            q == price / 100,
            rem == price % 100,
            p <= 100,
            p >= 0,
    ;
    q * p + (rem * p) / 100
}

/// Pays for a sale at `price` out of the free balance of `buyer`: each
/// royalty beneficiary other than the seller receives its share, then the
/// seller the rest, which is returned. All or none of the payments are made.
pub fn settle(
    ledger: &mut Ledger,
    buyer: AccountId,
    seller: AccountId,
    price: Balance,
    table: &Vec<(AccountId, u8)>,
) -> (r: Result<Balance, Error>)
    requires
        percent_total(table@) <= 100,
    ensures
        r is Ok <==> can_pay_all(
            old(ledger)@.free,
            old(ledger)@.minimum,
            buyer,
            sale_payouts(table@, seller, price),
        ),
        r is Ok ==> r->Ok_0 == seller_proceeds(table@, seller, price) && final(ledger)@ == (
        LedgerView {
            free: after_all(old(ledger)@.free, buyer, sale_payouts(table@, seller, price)),
            ..old(ledger)@
        }),
        r is Err ==> final(ledger)@ == old(ledger)@,
        r is Err ==> r == Err::<Balance, Error>(Error::InsufficientBalance) || r == Err::<
            Balance,
            Error,
        >(Error::Overflow),
{
    let ghost start = ledger@;
    let mut work = ledger.duplicate();
    let mut total: Balance = 0;
    let mut i: usize = 0;
    proof {
        lemma_percent_prefix(table@, 0);
        assert(table@.take(0) == Seq::<(AccountId, u8)>::empty());
    }
    while i < table.len()
        invariant
            0 <= i <= table.len(),
            percent_total(table@) <= 100,
            ledger@ == start,
            total == payout_total(royalty_payouts(table@.take(i as int), seller, price)),
            total <= price,
            can_pay_all(start.free, start.minimum, buyer, royalty_payouts(table@.take(i as int), seller, price)),
            work@ == (LedgerView {
                free: after_all(start.free, buyer, royalty_payouts(table@.take(i as int), seller, price)),
                ..start
            }),
        decreases table.len() - i,
    {
        let (beneficiary, percent) = table[i];
        let ghost before = table@.take(i as int);
        let ghost upto = table@.take(i as int + 1);
        proof {
            assert(upto.drop_last() == before);
            assert(upto.last() == table@[i as int]);
            lemma_percent_prefix(table@, i as int + 1);
            lemma_percent_prefix(upto, i as int);
            assert(upto.take(i as int) == before);
            lemma_royalties_bounded(upto, seller, price);
            assert(price * percent_total(upto) <= price * 100) by (nonlinear_arith)
                requires
                    percent_total(upto) <= 100,
                    0 <= price,
            ;
        }
        if beneficiary != seller {
            let amount = share_of(price, percent);
            let sent = work.transfer(buyer, beneficiary, amount);
            if sent.is_err() {
                proof {
                    let pays = royalty_payouts(upto, seller, price);
                    assert(pays.drop_last() == royalty_payouts(before, seller, price));
                    if can_pay_all(start.free, start.minimum, buyer, sale_payouts(table@, seller, price)) {
                        lemma_pay_prefix(start.free, start.minimum, buyer, table@, seller, price, i as int + 1);
                    }
                }
                return Err(sent.unwrap_err());
            }
            proof {
                let pays = royalty_payouts(upto, seller, price);
                assert(pays.drop_last() == royalty_payouts(before, seller, price));
            }
            total = total + amount;
        }
        i = i + 1;
    }
    proof {
        assert(table@.take(i as int) == table@);
        assert(sale_payouts(table@, seller, price).drop_last() == royalty_payouts(table@, seller, price));
    }
    let proceeds = price - total;
    let paid = work.transfer(buyer, seller, proceeds);
    match paid {
        Ok(()) => {
            *ledger = work;
            Ok(proceeds)
        },
        Err(e) => Err(e),
    }
}

/// Payments that can all be made can be made up to any point.
proof fn lemma_pay_prefix(
    free: vstd::map::Map<AccountId, Balance>,
    minimum: Balance,
    buyer: AccountId,
    table: Seq<(AccountId, u8)>,
    seller: AccountId,
    price: Balance,
    i: int,
)
    requires
        0 <= i <= table.len(),
        can_pay_all(free, minimum, buyer, sale_payouts(table, seller, price)),
    ensures
        can_pay_all(free, minimum, buyer, royalty_payouts(table.take(i), seller, price)),
{
    assert(sale_payouts(table, seller, price).drop_last() == royalty_payouts(table, seller, price));
    lemma_royalty_prefix(free, minimum, buyer, table, seller, price, i);
}

proof fn lemma_royalty_prefix(
    free: vstd::map::Map<AccountId, Balance>,
    minimum: Balance,
    buyer: AccountId,
    table: Seq<(AccountId, u8)>,
    seller: AccountId,
    price: Balance,
    i: int,
)
    requires
        0 <= i <= table.len(),
        can_pay_all(free, minimum, buyer, royalty_payouts(table, seller, price)),
    ensures
        can_pay_all(free, minimum, buyer, royalty_payouts(table.take(i), seller, price)),
    decreases table.len(),
{
    if i == table.len() {
        assert(table.take(i) == table);
    } else {
        let pays = royalty_payouts(table, seller, price);
        if table.last().0 != seller {
            assert(pays.drop_last() == royalty_payouts(table.drop_last(), seller, price));
        }
        lemma_royalty_prefix(free, minimum, buyer, table.drop_last(), seller, price, i);
        assert(table.drop_last().take(i) == table.take(i));
    }
}

} // verus!
