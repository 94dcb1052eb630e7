//! The settlement engine: drains a lane head-to-tail and, for each
//! customer, walks the cart in cart order (one line per product, insertion
//! order, which makes totals reproducible), tallies a taxed total against
//! live stock, resolves payment against the customer's funds and
//! preference, updates the register and the inventory, and emits a receipt.
//!
//! Per line: a discarded line is skipped; a line whose product has left the
//! catalog is reported stale; a line asking for more than the stock is
//! clamped to the stock. Payment: funds that cover the total are debited by
//! exactly the total, and the excess is change owed, paid out of the till
//! and capped at what the till holds (the till is never driven negative).
//! Underfunded carts follow the customer's preference: `Truncate` accepts
//! whole lines in cart order while they fit, clamps the first line that
//! does not, and drops the rest; `Cover` completes the full purchase,
//! drives the funds to zero, and reports the shortfall as a pending
//! balance.

use vstd::prelude::*;
use crate::money::{
    MAX_LINE_TOTAL, MAX_CART_LINES, line_total_spec, afford_qty_spec, line_total, afford_qty,
    lemma_line_total_bounds, lemma_afford_qty,
};
use crate::inventory::{
    InventoryItem, Store, has_name, item_of, dec_spec, store_wf, lemma_find_idx, find_idx,
    lemma_dec_frame, lemma_dec_at,
};
use crate::customer::{
    Customer, CartEntry, CheckoutPreference, cart_wf, entry_valid,
};
use crate::lane::{Lane, Register};
use crate::text::{money_chars, dec_digits, money_string, dec_string};
use vstd::string::StringExecFns;

verus! {

/// What a receipt says about one cart line.
#[derive(Clone, Copy, Debug, PartialEq, Eq, Structural)]
pub enum LineNote {
    /// Bought as requested.
    Purchased,
    /// The stock was short: the quantity was clamped to the stock on hand.
    ClampedToStock,
    /// The product has left the catalog since it was put in the cart.
    StaleInventory,
    /// The customer had discarded the line; it was skipped.
    Discarded,
    /// The customer's funds ran out: the quantity was cut, possibly to zero.
    TruncatedToFunds,
}

/// One line of a receipt, mirroring one cart line.
pub struct ReceiptLine {
    pub name: String,
    pub unit_price: u64,
    pub tax: u64,
    pub requested: u64,
    pub purchased: u64,
    pub line_total: u64,
    pub note: LineNote,
}

/// The receipt of one settled customer: its lines in cart order, the total
/// actually charged, the change the till paid out, and whether the till ran
/// short of change.
pub struct Receipt {
    pub lines: Vec<ReceiptLine>,
    pub total: u64,
    pub change_given: u64,
    pub change_short: bool,
}

/// The text of one receipt line: the product name, the unit price, the
/// purchased quantity, and the line's taxed total.
pub open spec fn receipt_line_chars(name: Seq<char>, price: int, qty: int, total: int) -> Seq<
    char,
> {
    name + ": "@ + money_chars(price) + ", x"@ + dec_digits(qty) + ", item_total: "@
        + money_chars(total)
}

/// Renders a receipt line in the receipt's line-item format, for example
/// "apple: 1, x4, item_total: 4.4".
pub fn render_receipt_line(line: &ReceiptLine) -> (s: String)
    ensures
        s@ == receipt_line_chars(
            line.name@,
            line.unit_price as int,
            line.purchased as int,
            line.line_total as int,
        ),
{
    let mut s = line.name.clone();
    s.append(": ");
    let price = money_string(line.unit_price);
    s.append(price.as_str());
    s.append(", x");
    let qty = dec_string(line.purchased);
    s.append(qty.as_str());
    s.append(", item_total: ");
    let total = money_string(line.line_total);
    s.append(total.as_str());
    proof {
        assert(s@ =~= receipt_line_chars(
            line.name@,
            line.unit_price as int,
            line.purchased as int,
            line.line_total as int,
        ));
    }
    s
}

/// How a settlement ended.
#[derive(Clone, Copy, Debug, PartialEq, Eq, Structural)]
pub enum SettleOutcome {
    /// Paid in full, change (if any) given in full.
    Paid,
    /// Paid in full, but the till could not cover all the change owed.
    PaidWithChangeShortfall,
    /// Underfunded with the `Truncate` preference: a reduced purchase.
    TruncatedPartial,
    /// Underfunded with the `Cover` preference: the full purchase went
    /// through and `amount` stays owed by the customer.
    SettledWithBalance { amount: u64 },
}

/// The quantity of a cart line the tally can sell: zero for a discarded
/// line or a product gone from the catalog, and never more than the stock.
pub open spec fn tallied_qty(items: Seq<InventoryItem>, e: CartEntry) -> int {
    if e.item.discarded {
        0
    } else if !has_name(items, e.item.product.name@) {
        0
    } else if item_of(items, e.item.product.name@).count < e.quantity {
        item_of(items, e.item.product.name@).count as int
    } else {
        e.quantity as int
    }
}

/// The taxed amount of one cart line at quantity `q`, from the prices the
/// customer carries.
pub open spec fn entry_amount(e: CartEntry, q: int) -> int {
    line_total_spec(e.item.product.price as int, q, e.item.product.tax as int)
}

/// The taxed total of the first `n` cart lines at their tallied quantities.
pub open spec fn raw_total(items: Seq<InventoryItem>, cart: Seq<CartEntry>, n: int) -> int
    decreases n,
{
    if n <= 0 {
        0
    } else {
        raw_total(items, cart, n - 1) + entry_amount(cart[n - 1], tallied_qty(items, cart[n - 1]))
    }
}

/// The truncation walk after the first `n` lines: whether lines are still
/// being accepted whole, and the budget that remains.
pub open spec fn trunc_state(
    items: Seq<InventoryItem>,
    cart: Seq<CartEntry>,
    budget: int,
    n: int,
) -> (bool, int)
    decreases n,
{
    if n <= 0 {
        (true, budget)
    } else {
        let prev = trunc_state(items, cart, budget, n - 1);
        if !prev.0 {
            prev
        } else {
            let e = cart[n - 1];
            let tq = tallied_qty(items, e);
            let a = afford_qty_spec(e.item.product.price as int, e.item.product.tax as int, tq, prev.1);
            (a == tq, prev.1 - entry_amount(e, a))
        }
    }
}

/// Whether a settlement truncates: the `Truncate` preference and a raw
/// total beyond the funds.
pub open spec fn truncating(
    items: Seq<InventoryItem>,
    cart: Seq<CartEntry>,
    pref: CheckoutPreference,
    funds: int,
) -> bool {
    pref == CheckoutPreference::Truncate && raw_total(items, cart, cart.len() as int) > funds
}

/// The quantity of line `i` the settlement finally sells: the tallied
/// quantity, cut down by the truncation walk when the settlement truncates.
pub open spec fn sold_qty(
    items: Seq<InventoryItem>,
    cart: Seq<CartEntry>,
    pref: CheckoutPreference,
    funds: int,
    i: int,
) -> int {
    let tq = tallied_qty(items, cart[i]);
    if truncating(items, cart, pref, funds) {
        let st = trunc_state(items, cart, funds, i);
        if st.0 {
            afford_qty_spec(cart[i].item.product.price as int, cart[i].item.product.tax as int, tq, st.1)
        } else {
            0
        }
    } else {
        tq
    }
}

/// The taxed total of the first `n` lines at their finally sold quantities:
/// what the receipt charges.
pub open spec fn charged_total(
    items: Seq<InventoryItem>,
    cart: Seq<CartEntry>,
    pref: CheckoutPreference,
    funds: int,
    n: int,
) -> int
    decreases n,
{
    if n <= 0 {
        0
    } else {
        charged_total(items, cart, pref, funds, n - 1) + entry_amount(
            cart[n - 1],
            sold_qty(items, cart, pref, funds, n - 1),
        )
    }
}

/// The catalog after the settlement's sales: each line's sold quantity
/// taken out of the stock, line by line in cart order.
pub open spec fn apply_purchases(
    items0: Seq<InventoryItem>,
    cart: Seq<CartEntry>,
    pref: CheckoutPreference,
    funds: int,
    n: int,
) -> Seq<InventoryItem>
    decreases n,
{
    if n <= 0 {
        items0
    } else {
        dec_spec(
            apply_purchases(items0, cart, pref, funds, n - 1),
            cart[n - 1].item.product.name@,
            sold_qty(items0, cart, pref, funds, n - 1),
        )
    }
}

/// What the receipt notes of line `i`.
pub open spec fn note_spec(
    items: Seq<InventoryItem>,
    cart: Seq<CartEntry>,
    pref: CheckoutPreference,
    funds: int,
    i: int,
) -> LineNote {
    let e = cart[i];
    if e.item.discarded {
        LineNote::Discarded
    } else if !has_name(items, e.item.product.name@) {
        LineNote::StaleInventory
    } else if sold_qty(items, cart, pref, funds, i) < tallied_qty(items, e) {
        LineNote::TruncatedToFunds
    } else if tallied_qty(items, e) < e.quantity {
        LineNote::ClampedToStock
    } else {
        LineNote::Purchased
    }
}

/// What the customer hands over: the full total when funded; the reduced
/// total under `Truncate`; everything they have under `Cover`.
pub open spec fn collected_spec(
    items: Seq<InventoryItem>,
    cart: Seq<CartEntry>,
    pref: CheckoutPreference,
    funds: int,
) -> int {
    let total = raw_total(items, cart, cart.len() as int);
    if funds >= total {
        total
    } else if pref == CheckoutPreference::Truncate {
        charged_total(items, cart, pref, funds, cart.len() as int)
    } else {
        funds
    }
}

/// The change the settlement owes: the excess of funds over the total.
pub open spec fn change_owed_spec(
    items: Seq<InventoryItem>,
    cart: Seq<CartEntry>,
    funds: int,
) -> int {
    let total = raw_total(items, cart, cart.len() as int);
    if funds >= total {
        funds - total
    } else {
        0
    }
}

/// The change the till can actually pay: the change owed, capped at the
/// till's cash after taking the payment in.
pub open spec fn change_given_spec(
    items: Seq<InventoryItem>,
    cart: Seq<CartEntry>,
    pref: CheckoutPreference,
    funds: int,
    reg: int,
) -> int {
    let owed = change_owed_spec(items, cart, funds);
    let avail = reg + collected_spec(items, cart, pref, funds);
    if owed <= avail {
        owed
    } else {
        avail
    }
}

/// The till after the settlement: payment in, change out.
pub open spec fn register_after_spec(
    items: Seq<InventoryItem>,
    cart: Seq<CartEntry>,
    pref: CheckoutPreference,
    funds: int,
    reg: int,
) -> int {
    reg + collected_spec(items, cart, pref, funds) - change_given_spec(
        items,
        cart,
        pref,
        funds,
        reg,
    )
}

/// How the settlement ends, as a function of the catalog, the cart, the
/// preference, the funds and the till.
pub open spec fn outcome_spec(
    items: Seq<InventoryItem>,
    cart: Seq<CartEntry>,
    pref: CheckoutPreference,
    funds: int,
    reg: int,
) -> SettleOutcome {
    let total = raw_total(items, cart, cart.len() as int);
    if funds >= total {
        if change_owed_spec(items, cart, funds) <= reg + total {
            SettleOutcome::Paid
        } else {
            SettleOutcome::PaidWithChangeShortfall
        }
    } else if pref == CheckoutPreference::Truncate {
        SettleOutcome::TruncatedPartial
    } else {
        SettleOutcome::SettledWithBalance { amount: (total - funds) as u64 }
    }
}

/// Each tallied quantity is within the requested quantity, the stock on
/// hand, and the global quantity bound.
pub proof fn lemma_tallied_bounds(items: Seq<InventoryItem>, e: CartEntry)
    requires
        store_wf(items),
        entry_valid(e),
    ensures
        0 <= tallied_qty(items, e) <= e.quantity,
        tallied_qty(items, e) <= crate::money::MAX_QUANTITY,
        !e.item.discarded && has_name(items, e.item.product.name@) ==> tallied_qty(items, e)
            <= item_of(items, e.item.product.name@).count,
        !e.item.discarded && has_name(items, e.item.product.name@) ==> tallied_qty(items, e) >= 1,
{
    if !e.item.discarded && has_name(items, e.item.product.name@) {
        lemma_find_idx(items, e.item.product.name@);
        assert(crate::inventory::item_valid(items[find_idx(items, e.item.product.name@)]));
    }
}

/// The truncation walk never overdraws: the remaining budget stays between
/// zero and the original budget, and what it has spent so far is exactly
/// the charged total of the lines it has walked.
pub proof fn lemma_trunc_state(
    items: Seq<InventoryItem>,
    cart: Seq<CartEntry>,
    pref: CheckoutPreference,
    funds: int,
    n: int,
)
    requires
        store_wf(items),
        cart_wf(cart),
        0 <= funds,
        0 <= n <= cart.len(),
        truncating(items, cart, pref, funds),
    ensures
        0 <= trunc_state(items, cart, funds, n).1 <= funds,
        charged_total(items, cart, pref, funds, n) == funds - trunc_state(items, cart, funds, n).1,
    decreases n,
{
    if n > 0 {
        lemma_trunc_state(items, cart, pref, funds, n - 1);
        let prev = trunc_state(items, cart, funds, n - 1);
        let e = cart[n - 1];
        let tq = tallied_qty(items, e);
        lemma_tallied_bounds(items, e);
        if prev.0 {
            lemma_afford_qty(
                e.item.product.price as int,
                e.item.product.tax as int,
                tq,
                prev.1,
            );
        } else {
            let st = trunc_state(items, cart, funds, n);
            assert(sold_qty(items, cart, pref, funds, n - 1) == 0);
            assert(entry_amount(e, 0) == 0) by {
                assert(e.item.product.price as int * 0 * (e.item.product.tax as int) == 0)
                    by (nonlinear_arith);
            }
        }
    }
}

/// When the settlement does not truncate, every line sells its tallied
/// quantity and the charged total is the raw total.
pub proof fn lemma_charged_eq_raw(
    items: Seq<InventoryItem>,
    cart: Seq<CartEntry>,
    pref: CheckoutPreference,
    funds: int,
    n: int,
)
    requires
        !truncating(items, cart, pref, funds),
        0 <= n <= cart.len(),
    ensures
        charged_total(items, cart, pref, funds, n) == raw_total(items, cart, n),
    decreases n,
{
    if n > 0 {
        lemma_charged_eq_raw(items, cart, pref, funds, n - 1);
    }
}

/// Every partial raw total is non-negative and bounded by the number of
/// lines times the largest line total; the same holds for charged totals.
pub proof fn lemma_totals_bounds(
    items: Seq<InventoryItem>,
    cart: Seq<CartEntry>,
    pref: CheckoutPreference,
    funds: int,
    n: int,
)
    requires
        store_wf(items),
        cart_wf(cart),
        0 <= funds,
        0 <= n <= cart.len(),
    ensures
        0 <= raw_total(items, cart, n) <= n * MAX_LINE_TOTAL,
        0 <= charged_total(items, cart, pref, funds, n) <= n * MAX_LINE_TOTAL,
        forall|i: int|
            0 <= i < n ==> 0 <= #[trigger] sold_qty(items, cart, pref, funds, i) <= tallied_qty(
                items,
                cart[i],
            ),
    decreases n,
{
    if n > 0 {
        lemma_totals_bounds(items, cart, pref, funds, n - 1);
        let e = cart[n - 1];
        let tq = tallied_qty(items, e);
        lemma_tallied_bounds(items, e);
        lemma_line_total_bounds(e.item.product.price as int, e.item.product.tax as int, tq);
        let sq = sold_qty(items, cart, pref, funds, n - 1);
        if truncating(items, cart, pref, funds) {
            let st = trunc_state(items, cart, funds, n - 1);
            if st.0 {
                lemma_trunc_state(items, cart, pref, funds, n - 1);
                lemma_afford_qty(
                    e.item.product.price as int,
                    e.item.product.tax as int,
                    tq,
                    st.1,
                );
            } else {
                assert(entry_amount(e, 0) == 0) by {
                    assert(e.item.product.price as int * 0 * (e.item.product.tax as int) == 0)
                        by (nonlinear_arith);
                }
            }
        }
        lemma_line_total_bounds(e.item.product.price as int, e.item.product.tax as int, sq);
        assert((n - 1) * MAX_LINE_TOTAL + MAX_LINE_TOTAL == n * MAX_LINE_TOTAL) by (nonlinear_arith);
    }
}

/// What the customer hands over never exceeds their funds.
pub proof fn lemma_collected_le_funds(
    items: Seq<InventoryItem>,
    cart: Seq<CartEntry>,
    pref: CheckoutPreference,
    funds: int,
)
    requires
        store_wf(items),
        cart_wf(cart),
        0 <= funds,
    ensures
        0 <= collected_spec(items, cart, pref, funds) <= funds,
{
    let total = raw_total(items, cart, cart.len() as int);
    lemma_totals_bounds(items, cart, pref, funds, cart.len() as int);
    if funds < total && pref == CheckoutPreference::Truncate {
        lemma_trunc_state(items, cart, pref, funds, cart.len() as int);
    }
}

/// Lines `a..b` of the cart leave every name they do not sell untouched.
proof fn lemma_apply_frame(
    items0: Seq<InventoryItem>,
    cart: Seq<CartEntry>,
    pref: CheckoutPreference,
    funds: int,
    a: int,
    b: int,
    name: Seq<char>,
)
    requires
        0 <= a <= b <= cart.len(),
        forall|j: int| a <= j < b ==> (#[trigger] cart[j].item).product.name@ != name,
    ensures
        has_name(apply_purchases(items0, cart, pref, funds, b), name) == has_name(
            apply_purchases(items0, cart, pref, funds, a),
            name,
        ),
        has_name(apply_purchases(items0, cart, pref, funds, a), name) ==> item_of(
            apply_purchases(items0, cart, pref, funds, b),
            name,
        ) == item_of(apply_purchases(items0, cart, pref, funds, a), name),
    decreases b - a,
{
    if b > a {
        lemma_apply_frame(items0, cart, pref, funds, a, b - 1, name);
        lemma_dec_frame(
            apply_purchases(items0, cart, pref, funds, b - 1),
            cart[b - 1].item.product.name@,
            sold_qty(items0, cart, pref, funds, b - 1),
            name,
        );
    }
}

/// Before line `k` is applied, its product stands in the catalog exactly as
/// it stood before the settlement: earlier lines all sell other names.
pub proof fn lemma_apply_pristine(
    items0: Seq<InventoryItem>,
    cart: Seq<CartEntry>,
    pref: CheckoutPreference,
    funds: int,
    k: int,
)
    requires
        cart_wf(cart),
        0 <= k < cart.len(),
    ensures
        has_name(apply_purchases(items0, cart, pref, funds, k), cart[k].item.product.name@)
            == has_name(items0, cart[k].item.product.name@),
        has_name(items0, cart[k].item.product.name@) ==> item_of(
            apply_purchases(items0, cart, pref, funds, k),
            cart[k].item.product.name@,
        ) == item_of(items0, cart[k].item.product.name@),
{
    lemma_apply_frame(items0, cart, pref, funds, 0, k, cart[k].item.product.name@);
}

/// The settlement decrements the inventory by exactly the sold quantities:
/// after all lines are applied, the stock of line `k`'s product has dropped
/// by line `k`'s sold quantity, leaving the catalog when it hits zero.
pub proof fn lemma_apply_exact(
    items0: Seq<InventoryItem>,
    cart: Seq<CartEntry>,
    pref: CheckoutPreference,
    funds: int,
    k: int,
)
    requires
        store_wf(items0),
        cart_wf(cart),
        0 <= funds,
        0 <= k < cart.len(),
        sold_qty(items0, cart, pref, funds, k) > 0,
    ensures
        has_name(items0, cart[k].item.product.name@),
        ({
            let name = cart[k].item.product.name@;
            let sq = sold_qty(items0, cart, pref, funds, k);
            let have = item_of(items0, name).count;
            let end = apply_purchases(items0, cart, pref, funds, cart.len() as int);
            if sq == have {
                !has_name(end, name)
            } else {
                has_name(end, name) && item_of(end, name).count == have - sq
            }
        }),
{
    let name = cart[k].item.product.name@;
    let sq = sold_qty(items0, cart, pref, funds, k);
    lemma_totals_bounds(items0, cart, pref, funds, cart.len() as int);
    lemma_tallied_bounds(items0, cart[k]);
    assert(has_name(items0, name));
    lemma_apply_pristine(items0, cart, pref, funds, k);
    lemma_apply_wf(items0, cart, pref, funds, k);
    let before = apply_purchases(items0, cart, pref, funds, k);
    lemma_dec_at(before, name, sq);
    assert(forall|j: int|
        k < j < cart.len() ==> (#[trigger] cart[j].item).product.name@ != name);
    lemma_apply_frame(items0, cart, pref, funds, k + 1, cart.len() as int, name);
}

/// A funded settlement (total within funds) collects exactly the raw total,
/// whatever the preference, and sells every line's full tallied quantity:
/// together with `lemma_apply_exact`, the inventory drops by exactly the
/// purchased quantities.
pub proof fn lemma_funded_settlement(
    items: Seq<InventoryItem>,
    cart: Seq<CartEntry>,
    pref: CheckoutPreference,
    funds: int,
)
    requires
        store_wf(items),
        cart_wf(cart),
        0 <= funds,
        raw_total(items, cart, cart.len() as int) <= funds,
    ensures
        collected_spec(items, cart, pref, funds) == raw_total(items, cart, cart.len() as int),
        forall|i: int|
            0 <= i < cart.len() ==> #[trigger] sold_qty(items, cart, pref, funds, i)
                == tallied_qty(items, cart[i]),
{
    assert(!truncating(items, cart, pref, funds));
}

/// An underfunded settlement under `Truncate` never overdraws: the sum of
/// the accepted line totals — which is exactly what the customer pays — is
/// at most the customer's original funds.
pub proof fn lemma_truncate_within_funds(
    items: Seq<InventoryItem>,
    cart: Seq<CartEntry>,
    funds: int,
)
    requires
        store_wf(items),
        cart_wf(cart),
        0 <= funds,
        funds < raw_total(items, cart, cart.len() as int),
    ensures
        0 <= collected_spec(items, cart, CheckoutPreference::Truncate, funds) <= funds,
        collected_spec(items, cart, CheckoutPreference::Truncate, funds) == charged_total(
            items,
            cart,
            CheckoutPreference::Truncate,
            funds,
            cart.len() as int,
        ),
{
    lemma_collected_le_funds(items, cart, CheckoutPreference::Truncate, funds);
}

/// An underfunded settlement under `Cover` takes all the funds, drives them
/// to zero, and reports a pending balance of exactly the shortfall.
pub proof fn lemma_cover_settlement(
    items: Seq<InventoryItem>,
    cart: Seq<CartEntry>,
    funds: int,
    reg: int,
)
    requires
        0 <= funds,
        funds < raw_total(items, cart, cart.len() as int),
    ensures
        collected_spec(items, cart, CheckoutPreference::Cover, funds) == funds,
        outcome_spec(items, cart, CheckoutPreference::Cover, funds, reg)
            == (SettleOutcome::SettledWithBalance {
            amount: (raw_total(items, cart, cart.len() as int) - funds) as u64,
        }),
{
}

/// Applying the first `n` lines keeps the catalog well-formed.
pub proof fn lemma_apply_wf(
    items0: Seq<InventoryItem>,
    cart: Seq<CartEntry>,
    pref: CheckoutPreference,
    funds: int,
    n: int,
)
    requires
        store_wf(items0),
        cart_wf(cart),
        0 <= funds,
        0 <= n <= cart.len(),
    ensures
        store_wf(apply_purchases(items0, cart, pref, funds, n)),
    decreases n,
{
    if n > 0 {
        lemma_apply_wf(items0, cart, pref, funds, n - 1);
        let prev = apply_purchases(items0, cart, pref, funds, n - 1);
        let name = cart[n - 1].item.product.name@;
        let sq = sold_qty(items0, cart, pref, funds, n - 1);
        lemma_totals_bounds(items0, cart, pref, funds, cart.len() as int);
        lemma_find_idx(prev, name);
        assert(0 <= sq);
        if has_name(prev, name) && sq <= item_of(prev, name).count {
            lemma_dec_at(prev, name, sq);
        } else {
            assert(apply_purchases(items0, cart, pref, funds, n) == prev);
        }
    }
}

/// Settles one customer against the store and a register: tallies the cart
/// against live stock, sells the resolved quantities, resolves payment by
/// the customer's funds and preference, credits the till and pays change
/// from it, and emits the receipt with the outcome. The whole effect is
/// pinned down by the spec functions above.
pub fn settle_customer(customer: &mut Customer, store: &mut Store, register: &mut Register) -> (r:
    (Receipt, SettleOutcome))
    requires
        old(customer).wf(),
        old(store).wf(),
        old(register).funds + old(customer).funds <= u64::MAX,
    ensures
        final(customer).cart@ == old(customer).cart@,
        final(customer).preference == old(customer).preference,
        final(customer).place == old(customer).place,
        final(customer).wf(),
        ({
            let items0 = old(store).items@;
            let cart = old(customer).cart@;
            let pref = old(customer).preference;
            let funds = old(customer).funds as int;
            let reg = old(register).funds as int;
            let n = cart.len() as int;
            &&& final(customer).funds == funds - collected_spec(items0, cart, pref, funds)
            &&& final(store).wf()
            &&& final(store).items@ == apply_purchases(items0, cart, pref, funds, n)
            &&& final(register).number == old(register).number
            &&& final(register).funds == register_after_spec(items0, cart, pref, funds, reg)
            &&& r.1 == outcome_spec(items0, cart, pref, funds, reg)
            &&& r.0.total == charged_total(items0, cart, pref, funds, n)
            &&& r.0.change_given == change_given_spec(items0, cart, pref, funds, reg)
            &&& r.0.change_short == (r.1 == SettleOutcome::PaidWithChangeShortfall)
            &&& r.0.lines@.len() == n
            &&& forall|i: int|
                0 <= i < n ==> {
                    let line = #[trigger] r.0.lines@[i];
                    &&& line.name@ == cart[i].item.product.name@
                    &&& line.unit_price == cart[i].item.product.price
                    &&& line.tax == cart[i].item.product.tax
                    &&& line.requested == cart[i].quantity
                    &&& line.purchased == sold_qty(items0, cart, pref, funds, i)
                    &&& line.line_total == entry_amount(
                        cart[i],
                        sold_qty(items0, cart, pref, funds, i),
                    )
                    &&& line.note == note_spec(items0, cart, pref, funds, i)
                }
        }),
{
    let ghost items0 = store.items@;
    let ghost cart = customer.cart@;
    let ghost pref = customer.preference;
    let ghost fundsg = customer.funds as int;
    let n = customer.cart.len();

    // Tally: the sellable quantity and taxed amount of each line, against
    // the stock as it stands when the settlement begins.
    let mut tq: Vec<u64> = Vec::new();
    let mut total: u64 = 0;
    let mut k: usize = 0;
    while k < n
        invariant
            k <= n,
            n == cart.len(),
            customer.cart@ == cart,
            cart_wf(cart),
            store.items@ == items0,
            store_wf(items0),
            tq@.len() == k,
            forall|j: int|
                0 <= j < k ==> tq@[j] == tallied_qty(items0, cart[j]) && tq@[j]
                    <= crate::money::MAX_QUANTITY,
            total == raw_total(items0, cart, k as int),
            total <= (k as int) * MAX_LINE_TOTAL,
        decreases n - k,
    {
        let e = &customer.cart[k];
        proof {
            assert(entry_valid(cart[k as int]));
        }
        let q: u64 = if e.item.discarded {
            0u64
        } else {
            match store.find(&e.item.product.name) {
                Some(i) => {
                    let available = store.items[i].count;
                    if available < e.quantity {
                        available
                    } else {
                        e.quantity
                    }
                },
                None => 0u64,
            }
        };
        proof {
            lemma_find_idx(items0, cart[k as int].item.product.name@);
            assert(q == tallied_qty(items0, cart[k as int]));
            lemma_tallied_bounds(items0, cart[k as int]);
        }
        let amt = line_total(e.item.product.price, q, e.item.product.tax);
        proof {
            assert(total as int + amt as int <= (k as int + 1) * MAX_LINE_TOTAL)
                by (nonlinear_arith)
                requires
                    total as int <= (k as int) * MAX_LINE_TOTAL,
                    amt as int <= MAX_LINE_TOTAL,
            ;
            assert((k as int + 1) * MAX_LINE_TOTAL <= (MAX_CART_LINES as int) * MAX_LINE_TOTAL)
                by (nonlinear_arith)
                requires
                    k as int + 1 <= MAX_CART_LINES as int,
            ;
        }
        total = total + amt;
        tq.push(q);
        k = k + 1;
    }

    // Resolve the quantities actually sold: the tallied quantities, unless
    // the funds run short and the customer prefers a truncated purchase.
    let underfunded = customer.funds < total;
    let is_truncate = match customer.preference {
        CheckoutPreference::Truncate => true,
        CheckoutPreference::Cover => false,
    };
    let mut sold: Vec<u64> = Vec::new();
    if underfunded && is_truncate {
        let mut rem: u64 = customer.funds;
        let mut active: bool = true;
        let mut k: usize = 0;
        while k < n
            invariant
                k <= n,
                n == cart.len(),
                customer.cart@ == cart,
                customer.funds as int == fundsg,
                cart_wf(cart),
                store_wf(items0),
                truncating(items0, cart, pref, fundsg),
                tq@.len() == n,
                forall|j: int|
                    0 <= j < n ==> tq@[j] == tallied_qty(items0, cart[j]) && tq@[j]
                        <= crate::money::MAX_QUANTITY,
                active == trunc_state(items0, cart, fundsg, k as int).0,
                rem as int == trunc_state(items0, cart, fundsg, k as int).1,
                sold@.len() == k,
                forall|j: int| 0 <= j < k ==> sold@[j] == sold_qty(items0, cart, pref, fundsg, j),
            decreases n - k,
        {
            let e = &customer.cart[k];
            proof {
                assert(entry_valid(cart[k as int]));
            }
            let tqk = tq[k];
            let sq: u64;
            if active {
                let a = afford_qty(e.item.product.price, e.item.product.tax, tqk, rem);
                let amt = line_total(e.item.product.price, a, e.item.product.tax);
                proof {
                    lemma_afford_qty(
                        e.item.product.price as int,
                        e.item.product.tax as int,
                        tqk as int,
                        rem as int,
                    );
                }
                rem = rem - amt;
                if a < tqk {
                    active = false;
                }
                sq = a;
            } else {
                sq = 0;
                proof {
                    assert(entry_amount(cart[k as int], 0) == 0) by {
                        assert(cart[k as int].item.product.price as int * 0 * (cart[
                            k as int
                        ].item.product.tax as int) == 0) by (nonlinear_arith);
                    }
                }
            }
            sold.push(sq);
            k = k + 1;
        }
    } else {
        let mut k: usize = 0;
        while k < n
            invariant
                k <= n,
                n == cart.len(),
                customer.cart@ == cart,
                customer.funds as int == fundsg,
                !truncating(items0, cart, pref, fundsg),
                tq@.len() == n,
                forall|j: int| 0 <= j < n ==> tq@[j] == tallied_qty(items0, cart[j]),
                sold@.len() == k,
                forall|j: int| 0 <= j < k ==> sold@[j] == sold_qty(items0, cart, pref, fundsg, j),
            decreases n - k,
        {
            sold.push(tq[k]);
            k = k + 1;
        }
    }

    // Sell: take each line's sold quantity out of the stock, write the
    // receipt line, and accumulate the charged total.
    let mut lines: Vec<ReceiptLine> = Vec::new();
    let mut charged: u64 = 0;
    let mut k: usize = 0;
    while k < n
        invariant
            k <= n,
            n == cart.len(),
            customer.cart@ == cart,
            customer.funds as int == fundsg,
            customer.preference == pref,
            cart_wf(cart),
            store_wf(items0),
            tq@.len() == n,
            forall|j: int| 0 <= j < n ==> tq@[j] == tallied_qty(items0, cart[j]),
            sold@.len() == n,
            forall|j: int| 0 <= j < n ==> sold@[j] == sold_qty(items0, cart, pref, fundsg, j),
            store.wf(),
            store.items@ == apply_purchases(items0, cart, pref, fundsg, k as int),
            charged == charged_total(items0, cart, pref, fundsg, k as int),
            charged <= (k as int) * MAX_LINE_TOTAL,
            lines@.len() == k,
            forall|j: int|
                0 <= j < k ==> {
                    let line = #[trigger] lines@[j];
                    &&& line.name@ == cart[j].item.product.name@
                    &&& line.unit_price == cart[j].item.product.price
                    &&& line.tax == cart[j].item.product.tax
                    &&& line.requested == cart[j].quantity
                    &&& line.purchased == sold_qty(items0, cart, pref, fundsg, j)
                    &&& line.line_total == entry_amount(
                        cart[j],
                        sold_qty(items0, cart, pref, fundsg, j),
                    )
                    &&& line.note == note_spec(items0, cart, pref, fundsg, j)
                },
        decreases n - k,
    {
        let e = &customer.cart[k];
        let sq = sold[k];
        proof {
            assert(entry_valid(cart[k as int]));
            lemma_tallied_bounds(items0, cart[k as int]);
            lemma_totals_bounds(items0, cart, pref, fundsg, n as int);
        }
        let amt = line_total(e.item.product.price, sq, e.item.product.tax);
        let ghost prev = store.items@;
        let ghost nm = cart[k as int].item.product.name@;
        if sq > 0 {
            proof {
                lemma_apply_pristine(items0, cart, pref, fundsg, k as int);
            }
            let _sold_ok = store.decrement_item_count(&e.item.product.name, sq);
            proof {
                assert(_sold_ok == Ok::<(), crate::inventory::StockError>(()));
                assert(store.items@ == apply_purchases(items0, cart, pref, fundsg, k as int + 1));
            }
        } else {
            proof {
                lemma_find_idx(prev, nm);
                if find_idx(prev, nm) >= 0 {
                    let i = find_idx(prev, nm);
                    assert(crate::inventory::item_valid(prev[i]));
                    assert(dec_spec(prev, nm, 0) =~= prev);
                }
                assert(store.items@ == apply_purchases(items0, cart, pref, fundsg, k as int + 1));
            }
        }
        let tqk = tq[k];
        let note: LineNote = if e.item.discarded {
            LineNote::Discarded
        } else if tqk == 0 {
            LineNote::StaleInventory
        } else if sq < tqk {
            LineNote::TruncatedToFunds
        } else if tqk < e.quantity {
            LineNote::ClampedToStock
        } else {
            LineNote::Purchased
        };
        proof {
            assert(note == note_spec(items0, cart, pref, fundsg, k as int));
        }
        let line = ReceiptLine {
            name: e.item.product.name.clone(),
            unit_price: e.item.product.price,
            tax: e.item.product.tax,
            requested: e.quantity,
            purchased: sq,
            line_total: amt,
            note,
        };
        lines.push(line);
        proof {
            assert(charged as int + amt as int <= (k as int + 1) * MAX_LINE_TOTAL)
                by (nonlinear_arith)
                requires
                    charged as int <= (k as int) * MAX_LINE_TOTAL,
                    amt as int <= MAX_LINE_TOTAL,
            ;
            assert((k as int + 1) * MAX_LINE_TOTAL <= (MAX_CART_LINES as int) * MAX_LINE_TOTAL)
                by (nonlinear_arith)
                requires
                    k as int + 1 <= MAX_CART_LINES as int,
            ;
        }
        charged = charged + amt;
        k = k + 1;
    }

    // Resolve payment against funds, preference, and the till.
    proof {
        lemma_collected_le_funds(items0, cart, pref, fundsg);
    }
    let funds_before = customer.funds;
    let outcome: SettleOutcome;
    let change_given: u64;
    let change_short: bool;
    if funds_before >= total {
        proof {
            lemma_charged_eq_raw(items0, cart, pref, fundsg, n as int);
        }
        customer.pay(total);
        let change_owed = funds_before - total;
        register.credit(total);
        match register.try_debit(change_owed) {
            Ok(_) => {
                change_given = change_owed;
                change_short = false;
                outcome = SettleOutcome::Paid;
            },
            Err(_) => {
                let avail = register.funds;
                let _drained = register.try_debit(avail);
                change_given = avail;
                change_short = true;
                outcome = SettleOutcome::PaidWithChangeShortfall;
            },
        }
    } else {
        let collect: u64 = match customer.preference {
            CheckoutPreference::Truncate => {
                proof {
                    lemma_trunc_state(items0, cart, pref, fundsg, n as int);
                }
                charged
            },
            CheckoutPreference::Cover => {
                proof {
                    lemma_charged_eq_raw(items0, cart, pref, fundsg, n as int);
                }
                funds_before
            },
        };
        customer.pay(collect);
        register.credit(collect);
        change_given = 0;
        change_short = false;
        outcome = match customer.preference {
            CheckoutPreference::Truncate => SettleOutcome::TruncatedPartial,
            CheckoutPreference::Cover => SettleOutcome::SettledWithBalance {
                amount: total - funds_before,
            },
        };
    }
    (Receipt { lines, total: charged, change_given, change_short }, outcome)
}

/// The catalog a single settlement of customer `c` leaves behind.
pub open spec fn settle_items(items: Seq<InventoryItem>, c: Customer) -> Seq<InventoryItem> {
    apply_purchases(items, c.cart@, c.preference, c.funds as int, c.cart@.len() as int)
}

/// The till a single settlement of customer `c` leaves behind.
pub open spec fn settle_register(items: Seq<InventoryItem>, c: Customer, reg: int) -> int {
    register_after_spec(items, c.cart@, c.preference, c.funds as int, reg)
}

/// How the settlement of customer `c` ends against catalog and till.
pub open spec fn settle_outcome(items: Seq<InventoryItem>, c: Customer, reg: int) -> SettleOutcome {
    outcome_spec(items, c.cart@, c.preference, c.funds as int, reg)
}

/// The catalog after settling the first `k` customers of a lane in order.
pub open spec fn drain_items_upto(cs: Seq<Customer>, items: Seq<InventoryItem>, k: int) -> Seq<
    InventoryItem,
>
    decreases k,
{
    if k <= 0 {
        items
    } else {
        settle_items(drain_items_upto(cs, items, k - 1), cs[k - 1])
    }
}

/// The till after settling the first `k` customers of a lane in order.
pub open spec fn drain_register_upto(
    cs: Seq<Customer>,
    items: Seq<InventoryItem>,
    reg: int,
    k: int,
) -> int
    decreases k,
{
    if k <= 0 {
        reg
    } else {
        settle_register(
            drain_items_upto(cs, items, k - 1),
            cs[k - 1],
            drain_register_upto(cs, items, reg, k - 1),
        )
    }
}

/// The funds all the customers of a lane carry, taken together.
pub open spec fn funds_sum(cs: Seq<Customer>) -> int
    decreases cs.len(),
{
    if cs.len() == 0 {
        0
    } else {
        cs[0].funds + funds_sum(cs.drop_first())
    }
}

/// A sum of funds is never negative.
pub proof fn lemma_funds_sum_nonneg(cs: Seq<Customer>)
    ensures
        funds_sum(cs) >= 0,
    decreases cs.len(),
{
    if cs.len() > 0 {
        lemma_funds_sum_nonneg(cs.drop_first());
    }
}

/// A cashier: a register number and the lane they drain.
pub struct Cashier {
    pub register_no: u32,
    pub lane: Lane,
}

impl Cashier {
    /// A fresh cashier with an empty lane.
    pub fn new() -> (c: Cashier)
        ensures
            c.register_no == 0,
            c.lane.customers@.len() == 0,
            c.lane.register.number == 0,
            c.lane.register.funds == 0,
            c.lane.wf(),
    {
        Cashier { register_no: 0, lane: Lane::new() }
    }

    /// Drains the lane head-to-tail: each customer at the head is settled
    /// against the store and the lane's register and then leaves the lane.
    /// The receipts come back in settlement order; catalog and till end
    /// exactly as the fold of the single-customer settlements says.
    pub fn process_customers(&mut self, store: &mut Store) -> (receipts: Vec<
        (Receipt, SettleOutcome),
    >)
        requires
            old(store).wf(),
            forall|j: int|
                0 <= j < old(self).lane.customers@.len() ==> (#[trigger] old(
                    self,
                ).lane.customers@[j]).wf(),
            old(self).lane.register.funds + funds_sum(old(self).lane.customers@) <= u64::MAX,
        ensures
            final(self).register_no == old(self).register_no,
            final(self).lane.customers@.len() == 0,
            final(self).lane.wf(),
            final(self).lane.register.number == old(self).lane.register.number,
            final(store).wf(),
            ({
                let cs = old(self).lane.customers@;
                let items0 = old(store).items@;
                let reg0 = old(self).lane.register.funds as int;
                &&& final(store).items@ == drain_items_upto(cs, items0, cs.len() as int)
                &&& final(self).lane.register.funds == drain_register_upto(
                    cs,
                    items0,
                    reg0,
                    cs.len() as int,
                )
                &&& receipts@.len() == cs.len()
                &&& forall|j: int|
                    0 <= j < cs.len() ==> (#[trigger] receipts@[j]).1 == settle_outcome(
                        drain_items_upto(cs, items0, j),
                        cs[j],
                        drain_register_upto(cs, items0, reg0, j),
                    ) && receipts@[j].0.total == charged_total(
                        drain_items_upto(cs, items0, j),
                        cs[j].cart@,
                        cs[j].preference,
                        cs[j].funds as int,
                        cs[j].cart@.len() as int,
                    )
            }),
    {
        let ghost cs = self.lane.customers@;
        let ghost items0 = store.items@;
        let ghost reg0 = self.lane.register.funds as int;
        let mut receipts: Vec<(Receipt, SettleOutcome)> = Vec::new();
        proof {
            assert(cs.skip(0) =~= cs);
        }
        while self.lane.customers.len() > 0
            invariant
                receipts@.len() <= cs.len(),
                self.lane.customers@ == cs.skip(receipts@.len() as int),
                forall|j: int| 0 <= j < cs.len() ==> (#[trigger] cs[j]).wf(),
                store.wf(),
                store.items@ == drain_items_upto(cs, items0, receipts@.len() as int),
                self.lane.register.funds as int == drain_register_upto(
                    cs,
                    items0,
                    reg0,
                    receipts@.len() as int,
                ),
                self.lane.register.funds as int + funds_sum(
                    cs.skip(receipts@.len() as int),
                ) <= u64::MAX,
                self.lane.register.number == old(self).lane.register.number,
                self.register_no == old(self).register_no,
                forall|j: int|
                    0 <= j < receipts@.len() ==> (#[trigger] receipts@[j]).1 == settle_outcome(
                        drain_items_upto(cs, items0, j),
                        cs[j],
                        drain_register_upto(cs, items0, reg0, j),
                    ) && receipts@[j].0.total == charged_total(
                        drain_items_upto(cs, items0, j),
                        cs[j].cart@,
                        cs[j].preference,
                        cs[j].funds as int,
                        cs[j].cart@.len() as int,
                    ),
            decreases self.lane.customers@.len(),
        {
            let ghost kk = receipts@.len() as int;
            proof {
                assert(cs.skip(kk)[0] == cs[kk]);
                assert(cs.skip(kk).drop_first() =~= cs.skip(kk + 1));
                lemma_funds_sum_nonneg(cs.skip(kk + 1));
            }
            let mut c = self.lane.customers.pop_front().unwrap();
            proof {
                assert(cs.skip(kk).subrange(1, cs.skip(kk).len() as int) =~= cs.skip(kk + 1));
                lemma_collected_le_funds(store.items@, c.cart@, c.preference, c.funds as int);
            }
            let entry = settle_customer(&mut c, store, &mut self.lane.register);
            receipts.push(entry);
        }
        proof {
            assert(cs.skip(receipts@.len() as int).len() == 0);
        }
        receipts
    }
}

} // verus!
