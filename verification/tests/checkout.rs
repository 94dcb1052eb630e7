use checkout::customer::{CartError, CheckoutPreference, Customer, CustomerItem};
use checkout::inventory::{InventoryItem, StockError, Store};
use checkout::lane::{Lane, Register, RegisterError};
use checkout::settlement::{render_receipt_line, settle_customer, Cashier, LineNote, SettleOutcome};
use checkout::text::{dec_string, money_string};

fn apple_store(count: u64) -> Store {
    let mut store = Store::new();
    store.add_item("apple".to_string(), 100, count, 110);
    store
}

fn carried(store: &Store, name: &str) -> CustomerItem {
    let it = store.lookup(&name.to_string()).expect("item in catalog");
    CustomerItem {
        product: InventoryItem {
            name: it.name.clone(),
            price: it.price,
            count: it.count,
            tax: it.tax,
        },
        discarded: false,
    }
}

fn count_of(store: &Store, name: &str) -> Option<u64> {
    store.lookup(&name.to_string()).map(|it| it.count)
}

#[test]
fn funded_settlement_exact_amounts() {
    // apple at 1.00 with tax 1.10, stock 10; funds 5.00, cart apple x4:
    // total 4.40, funds left 0.60, stock left 6.
    let mut store = apple_store(10);
    let mut customer = Customer::new(500);
    customer.add_item(carried(&store, "apple"), 4).unwrap();
    let mut register = Register::new();
    let (receipt, outcome) = settle_customer(&mut customer, &mut store, &mut register);
    assert_eq!(receipt.total, 440);
    assert_eq!(customer.funds, 60);
    assert_eq!(count_of(&store, "apple"), Some(6));
    assert_eq!(outcome, SettleOutcome::Paid);
    assert_eq!(receipt.change_given, 60);
    assert!(!receipt.change_short);
    assert_eq!(receipt.lines.len(), 1);
    let line = &receipt.lines[0];
    assert_eq!(line.name, "apple");
    assert_eq!(line.unit_price, 100);
    assert_eq!(line.requested, 4);
    assert_eq!(line.purchased, 4);
    assert_eq!(line.line_total, 440);
    assert_eq!(line.note, LineNote::Purchased);
    // payment in (440) minus change out (60)
    assert_eq!(register.funds, 380);
}

#[test]
fn truncate_clamps_to_funds() {
    // funds 3.00 against a 4.40 cart: 2 units (2.20) fit, 2 come back.
    let mut store = apple_store(10);
    let mut customer = Customer::new(300);
    customer.add_item(carried(&store, "apple"), 4).unwrap();
    assert_eq!(customer.preference, CheckoutPreference::Truncate);
    let mut register = Register::new();
    let (receipt, outcome) = settle_customer(&mut customer, &mut store, &mut register);
    assert_eq!(outcome, SettleOutcome::TruncatedPartial);
    assert_eq!(receipt.lines[0].purchased, 2);
    assert_eq!(receipt.total, 220);
    assert!(receipt.total <= 300);
    assert_eq!(customer.funds, 80);
    assert_eq!(count_of(&store, "apple"), Some(8));
    assert_eq!(receipt.lines[0].note, LineNote::TruncatedToFunds);
    assert_eq!(register.funds, 220);
}

#[test]
fn change_shortfall_drives_register_to_zero() {
    // funds 10.00, total 4.40, empty till: change owed 5.60, till can only
    // hand back the 4.40 it just took in.
    let mut store = apple_store(10);
    let mut customer = Customer::new(1000);
    customer.add_item(carried(&store, "apple"), 4).unwrap();
    let mut register = Register::new();
    let (receipt, outcome) = settle_customer(&mut customer, &mut store, &mut register);
    assert_eq!(outcome, SettleOutcome::PaidWithChangeShortfall);
    assert_eq!(register.funds, 0);
    assert_eq!(receipt.change_given, 440);
    assert!(receipt.change_short);
    assert_eq!(customer.funds, 560);
}

#[test]
fn cover_reports_pending_balance() {
    let mut store = apple_store(10);
    let mut customer = Customer::new(300);
    customer.preference = CheckoutPreference::Cover;
    customer.add_item(carried(&store, "apple"), 4).unwrap();
    let mut register = Register::new();
    let (receipt, outcome) = settle_customer(&mut customer, &mut store, &mut register);
    assert_eq!(outcome, SettleOutcome::SettledWithBalance { amount: 140 });
    assert_eq!(customer.funds, 0);
    assert_eq!(receipt.total, 440);
    assert_eq!(register.funds, 300);
    assert_eq!(count_of(&store, "apple"), Some(6));
}

#[test]
fn zero_quantity_is_rejected() {
    let store = apple_store(10);
    let mut customer = Customer::new(100);
    let r = customer.add_item(carried(&store, "apple"), 0);
    assert_eq!(r, Err(CartError::InvalidQuantity));
    assert_eq!(customer.cart.len(), 0);
}

#[test]
fn re_adding_replaces_the_line() {
    let store = apple_store(10);
    let mut customer = Customer::new(100);
    customer.add_item(carried(&store, "apple"), 2).unwrap();
    customer.add_item(carried(&store, "apple"), 7).unwrap();
    assert_eq!(customer.cart.len(), 1);
    assert_eq!(customer.cart[0].quantity, 7);
}

#[test]
fn removing_a_line() {
    let store = apple_store(10);
    let mut customer = Customer::new(100);
    customer.add_item(carried(&store, "apple"), 2).unwrap();
    customer.remove_item("pear".to_string());
    assert_eq!(customer.cart.len(), 1);
    customer.remove_item("apple".to_string());
    assert_eq!(customer.cart.len(), 0);
}

#[test]
fn discarded_lines_are_skipped() {
    let mut store = apple_store(10);
    // no funds needed: every line is discarded, so nothing is owed
    let mut customer = Customer::new(0);
    customer.add_item(carried(&store, "apple"), 4).unwrap();
    customer.discard_item(&"apple".to_string());
    let mut register = Register::new();
    let (receipt, outcome) = settle_customer(&mut customer, &mut store, &mut register);
    assert_eq!(outcome, SettleOutcome::Paid);
    assert_eq!(receipt.total, 0);
    assert_eq!(receipt.lines[0].purchased, 0);
    assert_eq!(receipt.lines[0].note, LineNote::Discarded);
    assert_eq!(count_of(&store, "apple"), Some(10));
}

#[test]
fn stale_line_is_annotated() {
    let mut store = apple_store(10);
    let mut customer = Customer::new(500);
    customer.add_item(carried(&store, "apple"), 4).unwrap();
    store.remove_item(&"apple".to_string());
    let mut register = Register::new();
    let (receipt, _outcome) = settle_customer(&mut customer, &mut store, &mut register);
    assert_eq!(receipt.total, 0);
    assert_eq!(receipt.lines[0].purchased, 0);
    assert_eq!(receipt.lines[0].note, LineNote::StaleInventory);
    assert_eq!(customer.funds, 500);
}

#[test]
fn short_stock_is_clamped_and_exhausted_items_leave() {
    let mut store = apple_store(3);
    let mut customer = Customer::new(500);
    customer.add_item(carried(&store, "apple"), 5).unwrap();
    let mut register = Register::new();
    let (receipt, _outcome) = settle_customer(&mut customer, &mut store, &mut register);
    assert_eq!(receipt.lines[0].purchased, 3);
    assert_eq!(receipt.lines[0].note, LineNote::ClampedToStock);
    // 1.00 x3 x1.10 = 3.30
    assert_eq!(receipt.total, 330);
    // the stock hit zero, so the item left the catalog
    assert_eq!(count_of(&store, "apple"), None);
}

#[test]
fn store_decrement_errors() {
    let mut store = apple_store(3);
    assert_eq!(
        store.decrement_item_count(&"pear".to_string(), 1),
        Err(StockError::StaleInventory)
    );
    assert_eq!(
        store.decrement_item_count(&"apple".to_string(), 4),
        Err(StockError::OutOfStock)
    );
    assert_eq!(count_of(&store, "apple"), Some(3));
    assert_eq!(store.decrement_item_count(&"apple".to_string(), 2), Ok(()));
    assert_eq!(count_of(&store, "apple"), Some(1));
    assert_eq!(store.decrement_item_count(&"apple".to_string(), 1), Ok(()));
    assert_eq!(count_of(&store, "apple"), None);
}

#[test]
fn increment_restocks_and_ignores_absent_names() {
    let mut store = apple_store(3);
    store.increment_item_count(&"apple".to_string(), 4);
    assert_eq!(count_of(&store, "apple"), Some(7));
    store.increment_item_count(&"pear".to_string(), 4);
    assert!(store.lookup(&"pear".to_string()).is_none());
}

#[test]
fn register_never_goes_negative() {
    let mut register = Register::new();
    register.credit(100);
    assert_eq!(
        register.try_debit(150),
        Err(RegisterError::InsufficientChange)
    );
    assert_eq!(register.funds, 100);
    assert_eq!(register.try_debit(100), Ok(()));
    assert_eq!(register.funds, 0);
}

#[test]
fn exit_recredits_non_discarded_lines() {
    let mut store = apple_store(6);
    let mut lane = Lane::new();
    let mut customer = Customer::new(500);
    customer.add_item(carried(&store, "apple"), 4).unwrap();
    customer.get_in_line(&mut lane);
    assert_eq!(customer.place, 0);
    customer.exit_line(&mut lane, &mut store);
    assert_eq!(lane.customers.len(), 0);
    // the abandoned purchase is re-credited on top of the stock
    assert_eq!(count_of(&store, "apple"), Some(10));
}

#[test]
fn enter_then_exit_with_discarded_cart_changes_nothing() {
    let mut store = apple_store(6);
    let mut lane = Lane::new();
    let mut customer = Customer::new(500);
    customer.add_item(carried(&store, "apple"), 4).unwrap();
    customer.discard_item(&"apple".to_string());
    customer.get_in_line(&mut lane);
    customer.exit_line(&mut lane, &mut store);
    assert_eq!(lane.customers.len(), 0);
    assert_eq!(count_of(&store, "apple"), Some(6));
}

#[test]
fn exit_keeps_places_dense() {
    let mut store = apple_store(10);
    let mut lane = Lane::new();
    let mut first = Customer::new(100);
    let mut second = Customer::new(200);
    let mut third = Customer::new(300);
    first.get_in_line(&mut lane);
    second.get_in_line(&mut lane);
    third.get_in_line(&mut lane);
    assert_eq!((first.place, second.place, third.place), (0, 1, 2));
    second.exit_line(&mut lane, &mut store);
    assert_eq!(lane.customers.len(), 2);
    assert_eq!(lane.customers[0].place, 0);
    assert_eq!(lane.customers[0].funds, 100);
    assert_eq!(lane.customers[1].place, 1);
    assert_eq!(lane.customers[1].funds, 300);
}

#[test]
fn lane_pop_and_add() {
    let mut lane = Lane::new();
    let mut a = Customer::new(1);
    let mut b = Customer::new(2);
    a.get_in_line(&mut lane);
    b.get_in_line(&mut lane);
    lane.pop_front();
    assert_eq!(lane.customers.len(), 1);
    assert_eq!(lane.customers[0].funds, 2);
    assert_eq!(lane.customers[0].place, 0);
    lane.pop_back();
    assert_eq!(lane.customers.len(), 0);
    let c = Customer::new(3);
    lane.add_back(c);
    assert_eq!(lane.customers.len(), 1);
}

#[test]
fn cashier_drains_the_lane() {
    let mut store = apple_store(10);
    let mut cashier = Cashier::new();
    let mut first = Customer::new(500);
    first.add_item(carried(&store, "apple"), 4).unwrap();
    let mut second = Customer::new(300);
    second.add_item(carried(&store, "apple"), 4).unwrap();
    first.get_in_line(&mut cashier.lane);
    second.get_in_line(&mut cashier.lane);
    let receipts = cashier.process_customers(&mut store);
    assert_eq!(receipts.len(), 2);
    assert_eq!(cashier.lane.customers.len(), 0);
    assert_eq!(receipts[0].1, SettleOutcome::Paid);
    assert_eq!(receipts[0].0.total, 440);
    assert_eq!(receipts[1].1, SettleOutcome::TruncatedPartial);
    assert_eq!(receipts[1].0.total, 220);
    // 10 - 4 - 2 units left
    assert_eq!(count_of(&store, "apple"), Some(4));
    // first: 4.40 in, 0.60 change out; second: 2.20 in
    assert_eq!(cashier.lane.register.funds, 380 + 220);
}

#[test]
fn pay_debits_or_reports_shortfall() {
    let mut customer = Customer::new(100);
    assert_eq!(customer.pay(40), None);
    assert_eq!(customer.funds, 60);
    assert_eq!(customer.pay(100), Some(40));
    assert_eq!(customer.funds, 60);
}

#[test]
fn empty_cart_settles_to_zero() {
    let mut store = apple_store(10);
    let mut customer = Customer::new(0);
    let mut register = Register::new();
    let (receipt, outcome) = settle_customer(&mut customer, &mut store, &mut register);
    assert_eq!(receipt.total, 0);
    assert_eq!(outcome, SettleOutcome::Paid);
    assert_eq!(register.funds, 0);
}

#[test]
fn truncation_walks_lines_in_cart_order() {
    // pear 2.00 tax 1.00 x2 (4.00) fits funds 5.00; apple 1.00 tax 1.10 x4
    // (4.40) no longer fits: 0.90 left buys no whole unit.
    let mut store = apple_store(10);
    store.add_item("pear".to_string(), 200, 10, 100);
    let mut customer = Customer::new(500);
    customer.add_item(carried(&store, "pear"), 2).unwrap();
    customer.add_item(carried(&store, "apple"), 4).unwrap();
    let mut register = Register::new();
    let (receipt, outcome) = settle_customer(&mut customer, &mut store, &mut register);
    assert_eq!(outcome, SettleOutcome::TruncatedPartial);
    assert_eq!(receipt.lines[0].purchased, 2);
    assert_eq!(receipt.lines[0].note, LineNote::Purchased);
    assert_eq!(receipt.lines[1].purchased, 0);
    assert_eq!(receipt.lines[1].note, LineNote::TruncatedToFunds);
    assert_eq!(receipt.total, 400);
    assert_eq!(customer.funds, 100);
    assert_eq!(count_of(&store, "pear"), Some(8));
    assert_eq!(count_of(&store, "apple"), Some(10));
}

#[test]
fn receipt_line_renders_as_specified() {
    let mut store = apple_store(10);
    let mut customer = Customer::new(500);
    customer.add_item(carried(&store, "apple"), 4).unwrap();
    let mut register = Register::new();
    let (receipt, _outcome) = settle_customer(&mut customer, &mut store, &mut register);
    let rendered = render_receipt_line(&receipt.lines[0]);
    assert_eq!(rendered, "apple: 1, x4, item_total: 4.4");
}

#[test]
fn money_renders_without_trailing_zeros() {
    assert_eq!(money_string(0), "0");
    assert_eq!(money_string(100), "1");
    assert_eq!(money_string(440), "4.4");
    assert_eq!(money_string(405), "4.05");
    assert_eq!(money_string(455), "4.55");
    assert_eq!(money_string(50), "0.5");
    assert_eq!(money_string(7), "0.07");
    assert_eq!(dec_string(0), "0");
    assert_eq!(dec_string(10230), "10230");
}
