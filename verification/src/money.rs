//! Fixed-point money arithmetic.
//!
//! An amount of money is a number of cents (`u64`). A tax rate is a
//! multiplicative factor in hundredths of the `TAX_SCALE`, so a rate of 110
//! means "multiply by 1.10". The total for a line of `qty` units at unit
//! price `price` with tax factor `tax` is `price * qty * tax / TAX_SCALE`,
//! rounded down to a whole cent.

use vstd::prelude::*;

verus! {

/// A tax rate of `TAX_SCALE` is the neutral factor 1.00.
pub const TAX_SCALE: u64 = 100;

/// Largest unit price the catalog accepts, in cents.
pub const MAX_PRICE: u64 = 100_000_000;

/// Largest tax factor the catalog accepts (a factor of 100.00).
pub const MAX_TAX: u64 = 10_000;

/// Largest stock count or cart quantity for a single product.
pub const MAX_QUANTITY: u64 = 1_000_000;

/// Largest total a single cart line can reach:
/// `MAX_PRICE * MAX_QUANTITY * MAX_TAX / TAX_SCALE`.
pub const MAX_LINE_TOTAL: u64 = (MAX_PRICE / TAX_SCALE) * MAX_QUANTITY * MAX_TAX;

/// Largest number of distinct lines in one cart.
pub const MAX_CART_LINES: usize = 100;

/// Largest amount of funds a customer can carry, in cents.
pub const MAX_FUNDS: u64 = 1_000_000_000_000_000_000;

/// The taxed total of a cart line: unit price times quantity times the tax
/// factor, scaled back down and rounded towards zero.
pub open spec fn line_total_spec(price: int, qty: int, tax: int) -> int {
    price * qty * tax / (TAX_SCALE as int)
}

/// The largest quantity of at most `qty` units whose taxed line total stays
/// within `budget`: this is what a customer with limited funds can afford.
/// When a unit is free the whole requested quantity is affordable.
pub open spec fn afford_qty_spec(price: int, tax: int, qty: int, budget: int) -> int {
    if price * tax == 0 {
        qty
    } else {
        let q = (budget * (TAX_SCALE as int) + (TAX_SCALE - 1)) / (price * tax);
        if q <= qty {
            q
        } else {
            qty
        }
    }
}

/// A line total is never negative and is bounded by the product of the
/// bounds on its factors.
pub proof fn lemma_line_total_bounds(price: int, tax: int, qty: int)
    requires
        0 <= price <= MAX_PRICE,
        0 <= tax <= MAX_TAX,
        0 <= qty <= MAX_QUANTITY,
    ensures
        0 <= line_total_spec(price, qty, tax) <= MAX_LINE_TOTAL,
{
    assert(0 <= price * qty * tax <= MAX_PRICE as int * MAX_QUANTITY as int * MAX_TAX as int)
        by (nonlinear_arith)
        requires
            0 <= price <= MAX_PRICE,
            0 <= tax <= MAX_TAX,
            0 <= qty <= MAX_QUANTITY,
    ;
    vstd::arithmetic::div_mod::lemma_div_is_ordered(
        0,
        price * qty * tax,
        TAX_SCALE as int,
    );
    vstd::arithmetic::div_mod::lemma_div_is_ordered(
        price * qty * tax,
        MAX_PRICE as int * MAX_QUANTITY as int * MAX_TAX as int,
        TAX_SCALE as int,
    );
    assert(MAX_PRICE as int * MAX_QUANTITY as int * MAX_TAX as int / (TAX_SCALE as int)
        == MAX_LINE_TOTAL as int);
}

/// What makes `afford_qty_spec` the right clamp: the affordable quantity is
/// within the requested quantity, its line total stays within the budget,
/// and one more unit would break the budget.
pub proof fn lemma_afford_qty(price: int, tax: int, qty: int, budget: int)
    requires
        0 <= price,
        0 <= tax,
        0 <= qty,
        0 <= budget,
    ensures
        0 <= afford_qty_spec(price, tax, qty, budget) <= qty,
        line_total_spec(price, afford_qty_spec(price, tax, qty, budget), tax) <= budget,
        afford_qty_spec(price, tax, qty, budget) < qty ==> line_total_spec(
            price,
            afford_qty_spec(price, tax, qty, budget) + 1,
            tax,
        ) > budget,
{
    let pt = price * tax;
    if pt == 0 {
        assert(price * qty * tax == 0) by (nonlinear_arith)
            requires
                0 <= price,
                0 <= tax,
                price * tax == 0,
        ;
    } else {
        let top = budget * (TAX_SCALE as int) + (TAX_SCALE - 1);
        let q0 = top / pt;
        vstd::arithmetic::div_mod::lemma_fundamental_div_mod(top, pt);
        vstd::arithmetic::div_mod::lemma_mod_bound(top, pt);
        assert(pt * q0 <= top);
        assert(q0 >= 0) by (nonlinear_arith)
            requires
                pt > 0,
                top >= 0,
                pt * q0 + top % pt == top,
                0 <= top % pt < pt,
        ;
        let a = afford_qty_spec(price, tax, qty, budget);
        assert(0 <= a <= qty && a <= q0);
        // The chosen quantity keeps the line total within the budget.
        assert(pt * a <= pt * q0) by (nonlinear_arith)
            requires
                pt > 0,
                a <= q0,
        ;
        assert(price * a * tax == pt * a) by (nonlinear_arith)
            requires
                pt == price * tax,
        ;
        assert(price * a * tax <= top);
        vstd::arithmetic::div_mod::lemma_div_is_ordered(price * a * tax, top, TAX_SCALE as int);
        assert(top / (TAX_SCALE as int) == budget) by {
            vstd::arithmetic::div_mod::lemma_fundamental_div_mod_converse(
                top,
                TAX_SCALE as int,
                budget,
                TAX_SCALE - 1,
            );
        }
        // One more unit than the clamp would exceed the budget.
        if a < qty {
            assert(a == q0);
            assert(pt * (q0 + 1) == pt * q0 + pt) by (nonlinear_arith);
            assert(pt * (q0 + 1) > top);
            assert(price * (a + 1) * tax == pt * (q0 + 1)) by (nonlinear_arith)
                requires
                    a == q0,
                    pt == price * tax,
            ;
            assert(price * (a + 1) * tax >= top + 1);
            assert(top + 1 == (budget + 1) * (TAX_SCALE as int));
            vstd::arithmetic::div_mod::lemma_div_is_ordered(
                (budget + 1) * (TAX_SCALE as int),
                price * (a + 1) * tax,
                TAX_SCALE as int,
            );
            vstd::arithmetic::div_mod::lemma_div_by_multiple(budget + 1, TAX_SCALE as int);
            assert(line_total_spec(price, a + 1, tax) >= budget + 1);
        }
    }
}

/// Computes the taxed total of one cart line, exactly as `line_total_spec`
/// states it.
pub fn line_total(price: u64, qty: u64, tax: u64) -> (r: u64)
    requires
        price <= MAX_PRICE,
        qty <= MAX_QUANTITY,
        tax <= MAX_TAX,
    ensures
        r == line_total_spec(price as int, qty as int, tax as int),
        r <= MAX_LINE_TOTAL,
{
    proof {
        lemma_line_total_bounds(price as int, tax as int, qty as int);
        assert((price as int) * (qty as int) * (tax as int)
            <= MAX_PRICE as int * MAX_QUANTITY as int * MAX_TAX as int) by (nonlinear_arith)
            requires
                price <= MAX_PRICE,
                qty <= MAX_QUANTITY,
                tax <= MAX_TAX,
        ;
        assert((price as int) * (qty as int) <= MAX_PRICE as int * MAX_QUANTITY as int)
            by (nonlinear_arith)
            requires
                price <= MAX_PRICE,
                qty <= MAX_QUANTITY,
        ;
    }
    let wide = (price as u128) * (qty as u128) * (tax as u128);
    (wide / (TAX_SCALE as u128)) as u64
}

/// Computes the largest quantity of at most `qty` units affordable within
/// `budget`, exactly as `afford_qty_spec` states it.
pub fn afford_qty(price: u64, tax: u64, qty: u64, budget: u64) -> (r: u64)
    requires
        price <= MAX_PRICE,
        tax <= MAX_TAX,
        qty <= MAX_QUANTITY,
    ensures
        r == afford_qty_spec(price as int, tax as int, qty as int, budget as int),
        r <= qty,
{
    proof {
        lemma_afford_qty(price as int, tax as int, qty as int, budget as int);
        assert((price as int) * (tax as int) <= MAX_PRICE as int * MAX_TAX as int)
            by (nonlinear_arith)
            requires
                price <= MAX_PRICE,
                tax <= MAX_TAX,
        ;
    }
    let pt = (price as u128) * (tax as u128);
    if pt == 0 {
        qty
    } else {
        let q = ((budget as u128) * (TAX_SCALE as u128) + ((TAX_SCALE - 1) as u128)) / pt;
        if (qty as u128) <= q {
            qty
        } else {
            q as u64
        }
    }
}

} // verus!
