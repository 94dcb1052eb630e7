//! Customers: funds, a cart of selected items, and a checkout preference
//! that governs what happens when the funds do not cover the cart's total.
//!
//! A cart holds at most one line per product name; re-adding a product
//! replaces its line. A line can be marked discarded, which keeps it for the
//! receipt but excludes it from settlement.

use vstd::prelude::*;
use vstd::pervasive::VecAdditionalExecFns;
use crate::money::{MAX_PRICE, MAX_TAX, MAX_QUANTITY, MAX_FUNDS, MAX_CART_LINES};
use crate::inventory::{InventoryItem, Store, has_name, item_of, incr_spec};
use crate::lane::Lane;

verus! {

/// How a customer wants an underfunded total resolved: `Truncate` shrinks
/// the purchase to what the funds cover, `Cover` completes the full
/// purchase and leaves the shortfall as a pending balance.
#[derive(Clone, Copy, Debug, PartialEq, Eq, Structural)]
pub enum CheckoutPreference {
    Truncate,
    Cover,
}

/// A product as the customer carries it: a snapshot of the catalog item,
/// and a flag set when the customer abandons the line before settlement.
pub struct CustomerItem {
    pub product: InventoryItem,
    pub discarded: bool,
}

/// One cart line: a carried product and the requested quantity.
pub struct CartEntry {
    pub item: CustomerItem,
    pub quantity: u64,
}

/// Rejection of a cart edit.
#[derive(Clone, Copy, Debug, PartialEq, Eq, Structural)]
pub enum CartError {
    /// A line must request at least one unit.
    InvalidQuantity,
}

/// A cart line carries a bounded price, tax factor and quantity, and asks
/// for at least one unit.
pub open spec fn entry_valid(e: CartEntry) -> bool {
    &&& e.item.product.price <= MAX_PRICE
    &&& e.item.product.tax <= MAX_TAX
    &&& 1 <= e.quantity <= MAX_QUANTITY
}

/// Index of the first cart line for `name`, or -1 when there is none.
pub open spec fn cart_find_idx(cart: Seq<CartEntry>, name: Seq<char>) -> int
    decreases cart.len(),
{
    if cart.len() == 0 {
        -1
    } else if cart[0].item.product.name@ == name {
        0
    } else {
        let r = cart_find_idx(cart.drop_first(), name);
        if r < 0 {
            -1
        } else {
            r + 1
        }
    }
}

/// A cart has boundedly many lines, all valid, one per product name.
pub open spec fn cart_wf(cart: Seq<CartEntry>) -> bool {
    &&& cart.len() <= MAX_CART_LINES
    &&& forall|i: int| 0 <= i < cart.len() ==> entry_valid(#[trigger] cart[i])
    &&& forall|i: int, j: int|
        #![trigger cart[i].item, cart[j].item]
        0 <= i < j < cart.len() ==> cart[i].item.product.name@ != cart[j].item.product.name@
}

/// `cart_find_idx` returns -1 exactly when no line matches, and otherwise
/// the index of the first match.
pub proof fn lemma_cart_find_idx(cart: Seq<CartEntry>, name: Seq<char>)
    ensures
        cart_find_idx(cart, name) == -1 || 0 <= cart_find_idx(cart, name) < cart.len(),
        cart_find_idx(cart, name) == -1 ==> forall|i: int|
            0 <= i < cart.len() ==> cart[i].item.product.name@ != name,
        cart_find_idx(cart, name) >= 0 ==> cart[cart_find_idx(cart, name)].item.product.name@
            == name,
        cart_find_idx(cart, name) >= 0 ==> forall|i: int|
            0 <= i < cart_find_idx(cart, name) ==> cart[i].item.product.name@ != name,
    decreases cart.len(),
{
    if cart.len() > 0 && cart[0].item.product.name@ != name {
        let rest = cart.drop_first();
        lemma_cart_find_idx(rest, name);
        assert(forall|i: int| 0 <= i < rest.len() ==> rest[i] == cart[i + 1]);
        if cart_find_idx(cart, name) == -1 {
            assert forall|i: int|
                0 <= i < cart.len() implies cart[i].item.product.name@ != name by {
                if i >= 1 {
                    assert(rest[i - 1] == cart[i]);
                }
            }
        } else {
            assert forall|i: int|
                0 <= i < cart_find_idx(cart, name) implies cart[i].item.product.name@ != name by {
                if i >= 1 {
                    assert(rest[i - 1] == cart[i]);
                }
            }
        }
    }
}

/// The catalog after re-crediting every non-discarded line of a cart, in
/// cart order: what an early line exit owes the inventory.
pub open spec fn restock_spec(items: Seq<InventoryItem>, cart: Seq<CartEntry>) -> Seq<
    InventoryItem,
>
    decreases cart.len(),
{
    if cart.len() == 0 {
        items
    } else {
        let prev = restock_spec(items, cart.drop_last());
        let e = cart.last();
        if e.item.discarded {
            prev
        } else {
            incr_spec(prev, e.item.product.name@, e.quantity as int)
        }
    }
}

/// Re-crediting a cart leaves every name that the cart does not restock
/// untouched.
pub proof fn lemma_restock_frame(
    items: Seq<InventoryItem>,
    cart: Seq<CartEntry>,
    name: Seq<char>,
)
    requires
        forall|k: int|
            0 <= k < cart.len() ==> (#[trigger] cart[k].item).discarded || cart[k].item.product.name@
                != name,
    ensures
        has_name(restock_spec(items, cart), name) == has_name(items, name),
        has_name(items, name) ==> item_of(restock_spec(items, cart), name) == item_of(
            items,
            name,
        ),
    decreases cart.len(),
{
    if cart.len() > 0 {
        let head = cart.drop_last();
        assert(forall|k: int| 0 <= k < head.len() ==> head[k] == cart[k]);
        lemma_restock_frame(items, head, name);
        let e = cart.last();
        if !e.item.discarded {
            crate::inventory::lemma_incr_frame(
                restock_spec(items, head),
                e.item.product.name@,
                e.quantity as int,
                name,
            );
        }
    }
}

/// A cart whose every line is discarded re-credits nothing: the catalog
/// comes back unchanged.
pub proof fn lemma_restock_discarded_only(items: Seq<InventoryItem>, cart: Seq<CartEntry>)
    requires
        forall|k: int| 0 <= k < cart.len() ==> (#[trigger] cart[k].item).discarded,
    ensures
        restock_spec(items, cart) == items,
    decreases cart.len(),
{
    if cart.len() > 0 {
        assert(forall|k: int| 0 <= k < cart.len() - 1 ==> cart.drop_last()[k] == cart[k]);
        lemma_restock_discarded_only(items, cart.drop_last());
    }
}

/// A shopper: their funds, their cart, their preference for underfunded
/// checkouts, and their position in the lane they stand in (meaningful only
/// while enqueued).
pub struct Customer {
    pub funds: u64,
    pub cart: Vec<CartEntry>,
    pub preference: CheckoutPreference,
    pub place: usize,
}

impl Customer {
    /// Bounded funds and a well-formed cart.
    pub open spec fn wf(&self) -> bool {
        &&& self.funds <= MAX_FUNDS
        &&& cart_wf(self.cart@)
    }

    /// A new customer with the given funds, an empty cart, and the
    /// conservative `Truncate` preference.
    pub fn new(funds: u64) -> (c: Customer)
        requires
            funds <= MAX_FUNDS,
        ensures
            c.funds == funds,
            c.cart@.len() == 0,
            c.preference == CheckoutPreference::Truncate,
            c.place == 0,
            c.wf(),
    {
        Customer { funds, cart: Vec::new(), preference: CheckoutPreference::Truncate, place: 0 }
    }

    /// Index of the cart line for `name`, if any.
    fn cart_find(&self, name: &String) -> (r: Option<usize>)
        ensures
            match r {
                Some(i) => (i as int) < self.cart@.len() && cart_find_idx(self.cart@, name@)
                    == i as int,
                None => cart_find_idx(self.cart@, name@) == -1,
            },
    {
        let n = self.cart.len();
        let mut k: usize = 0;
        while k < n
            invariant
                k <= n,
                n == self.cart@.len(),
                forall|j: int| 0 <= j < k ==> self.cart@[j].item.product.name@ != name@,
            decreases n - k,
        {
            if self.cart[k].item.product.name == *name {
                proof {
                    lemma_cart_find_idx(self.cart@, name@);
                }
                return Some(k);
            }
            k = k + 1;
        }
        proof {
            lemma_cart_find_idx(self.cart@, name@);
        }
        None
    }

    /// Puts `quantity` units of a product in the cart, replacing any line
    /// of the same product name. A request for zero units is refused with
    /// `InvalidQuantity` and leaves the cart alone.
    pub fn add_item(&mut self, item: CustomerItem, quantity: u64) -> (r: Result<(), CartError>)
        requires
            old(self).wf(),
            item.product.price <= MAX_PRICE,
            item.product.tax <= MAX_TAX,
            quantity <= MAX_QUANTITY,
            cart_find_idx(old(self).cart@, item.product.name@) < 0 ==> old(self).cart@.len()
                < MAX_CART_LINES,
        ensures
            final(self).wf(),
            final(self).funds == old(self).funds,
            final(self).preference == old(self).preference,
            final(self).place == old(self).place,
            quantity == 0 ==> r == Err::<(), CartError>(CartError::InvalidQuantity)
                && final(self).cart@ == old(self).cart@,
            quantity >= 1 ==> r == Ok::<(), CartError>(()) && ({
                let e = CartEntry { item, quantity };
                let i = cart_find_idx(old(self).cart@, item.product.name@);
                if i < 0 {
                    final(self).cart@ == old(self).cart@.push(e)
                } else {
                    final(self).cart@ == old(self).cart@.update(i, e)
                }
            }),
    {
        if quantity == 0 {
            return Err(CartError::InvalidQuantity);
        }
        proof {
            lemma_cart_find_idx(self.cart@, item.product.name@);
        }
        match self.cart_find(&item.product.name) {
            Some(i) => {
                let e = CartEntry { item, quantity };
                self.cart.set(i, e);
                proof {
                    assert(forall|k: int|
                        0 <= k < self.cart@.len() && k != i ==> self.cart@[k] == old(
                            self,
                        ).cart@[k]);
                }
            },
            None => {
                let e = CartEntry { item, quantity };
                self.cart.push(e);
            },
        }
        Ok(())
    }

    /// Takes the line for the named product out of the cart; a name with no
    /// line is a no-op.
    pub fn remove_item(&mut self, item_name: String)
        requires
            old(self).wf(),
        ensures
            final(self).wf(),
            final(self).funds == old(self).funds,
            final(self).preference == old(self).preference,
            final(self).place == old(self).place,
            ({
                let i = cart_find_idx(old(self).cart@, item_name@);
                if i < 0 {
                    final(self).cart@ == old(self).cart@
                } else {
                    final(self).cart@ == old(self).cart@.remove(i)
                }
            }),
    {
        match self.cart_find(&item_name) {
            Some(i) => {
                self.cart.remove(i);
                proof {
                    old(self).cart@.remove_ensures(i as int);
                }
            },
            None => {},
        }
    }

    /// Marks the line for the named product discarded, keeping it for the
    /// receipt but excluding it from settlement; a name with no line is a
    /// no-op.
    pub fn discard_item(&mut self, item_name: &String)
        requires
            old(self).wf(),
        ensures
            final(self).wf(),
            final(self).funds == old(self).funds,
            final(self).preference == old(self).preference,
            final(self).place == old(self).place,
            ({
                let i = cart_find_idx(old(self).cart@, item_name@);
                if i < 0 {
                    final(self).cart@ == old(self).cart@
                } else {
                    final(self).cart@ == old(self).cart@.update(
                        i,
                        CartEntry {
                            item: CustomerItem {
                                product: old(self).cart@[i].item.product,
                                discarded: true,
                            },
                            quantity: old(self).cart@[i].quantity,
                        },
                    )
                }
            }),
    {
        match self.cart_find(item_name) {
            Some(i) => {
                let line = self.cart.remove(i);
                let e = CartEntry {
                    item: CustomerItem { product: line.item.product, discarded: true },
                    quantity: line.quantity,
                };
                self.cart.insert(i, e);
                proof {
                    assert(self.cart@ =~= old(self).cart@.update(
                        i as int,
                        CartEntry {
                            item: CustomerItem {
                                product: old(self).cart@[i as int].item.product,
                                discarded: true,
                            },
                            quantity: old(self).cart@[i as int].quantity,
                        },
                    ));
                    assert(forall|k: int|
                        0 <= k < self.cart@.len() && k != i ==> self.cart@[k] == old(
                            self,
                        ).cart@[k]);
                }
            },
            None => {},
        }
    }

    /// Debits a total the customer can afford; a total above the funds is
    /// not debited, and the shortfall comes back instead.
    pub fn pay(&mut self, total: u64) -> (r: Option<u64>)
        ensures
            final(self).cart@ == old(self).cart@,
            final(self).preference == old(self).preference,
            final(self).place == old(self).place,
            old(self).funds >= total ==> final(self).funds == old(self).funds - total && r
                is None,
            old(self).funds < total ==> final(self).funds == old(self).funds && r == Some(
                (total - old(self).funds) as u64,
            ),
            old(self).wf() ==> final(self).wf(),
    {
        if self.funds >= total {
            self.funds = self.funds - total;
            None
        } else {
            Some(total - self.funds)
        }
    }

    /// An exact copy of this customer, field for field.
    fn duplicate(&self) -> (c: Customer)
        ensures
            c.funds == self.funds,
            c.cart@ == self.cart@,
            c.preference == self.preference,
            c.place == self.place,
    {
        let n = self.cart.len();
        let mut cart2: Vec<CartEntry> = Vec::new();
        let mut k: usize = 0;
        while k < n
            invariant
                k <= n,
                n == self.cart@.len(),
                cart2@ == self.cart@.take(k as int),
            decreases n - k,
        {
            let e = &self.cart[k];
            let copy = CartEntry {
                item: CustomerItem {
                    product: InventoryItem {
                        name: e.item.product.name.clone(),
                        price: e.item.product.price,
                        count: e.item.product.count,
                        tax: e.item.product.tax,
                    },
                    discarded: e.item.discarded,
                },
                quantity: e.quantity,
            };
            proof {
                assert(copy == self.cart@[k as int]);
            }
            cart2.push(copy);
            proof {
                assert(cart2@ =~= self.cart@.take(k as int + 1));
            }
            k = k + 1;
        }
        proof {
            assert(self.cart@.take(n as int) =~= self.cart@);
        }
        Customer {
            funds: self.funds,
            cart: cart2,
            preference: self.preference,
            place: self.place,
        }
    }

    /// Joins the tail of a lane: the customer's place becomes the lane's
    /// current length, and a copy of the customer is appended.
    pub fn get_in_line(&mut self, lane: &mut Lane)
        requires
            old(lane).wf(),
            old(lane).customers@.len() < usize::MAX,
        ensures
            final(self).funds == old(self).funds,
            final(self).cart@ == old(self).cart@,
            final(self).preference == old(self).preference,
            final(self).place == old(lane).customers@.len(),
            final(lane).register == old(lane).register,
            final(lane).customers@.len() == old(lane).customers@.len() + 1,
            forall|i: int|
                0 <= i < old(lane).customers@.len() ==> final(lane).customers@[i] == old(
                    lane,
                ).customers@[i],
            ({
                let joined = final(lane).customers@.last();
                &&& joined.funds == old(self).funds
                &&& joined.cart@ == old(self).cart@
                &&& joined.preference == old(self).preference
                &&& joined.place == old(lane).customers@.len()
            }),
            final(lane).wf(),
    {
        self.place = lane.customers.len();
        let copy = self.duplicate();
        lane.customers.push_back(copy);
    }

    /// Leaves a lane early, before settlement: the customer at `self.place`
    /// is removed, every non-discarded line of that customer's cart is
    /// re-credited to the store (the purchase is off), and the customers
    /// behind close the gap so that places stay dense.
    pub fn exit_line(&self, lane: &mut Lane, store: &mut Store)
        requires
            old(lane).wf(),
            (self.place as int) < old(lane).customers@.len(),
            old(store).wf(),
            cart_wf(old(lane).customers@[self.place as int].cart@),
            forall|k: int|
                0 <= k < old(lane).customers@[self.place as int].cart@.len() ==> {
                    let e = #[trigger] old(lane).customers@[self.place as int].cart@[k];
                    !e.item.discarded && has_name(old(store).items@, e.item.product.name@)
                        ==> item_of(old(store).items@, e.item.product.name@).count + e.quantity
                        <= MAX_QUANTITY
                },
        ensures
            final(lane).register == old(lane).register,
            final(lane).customers@.len() == old(lane).customers@.len() - 1,
            forall|i: int|
                0 <= i < final(lane).customers@.len() ==> {
                    let before = old(lane).customers@.remove(self.place as int)[i];
                    let after = #[trigger] final(lane).customers@[i];
                    after.funds == before.funds && after.cart@ == before.cart@
                        && after.preference == before.preference && after.place == i
                },
            final(lane).wf(),
            final(store).wf(),
            final(store).items@ == restock_spec(
                old(store).items@,
                old(lane).customers@[self.place as int].cart@,
            ),
    {
        let gone = lane.customers.remove(self.place).unwrap();
        proof {
            old(lane).customers@.remove_ensures(self.place as int);
        }
        let ghost items0 = store.items@;
        let ghost cart = gone.cart@;
        let n = gone.cart.len();
        let mut k: usize = 0;
        while k < n
            invariant
                k <= n,
                n == cart.len(),
                gone.cart@ == cart,
                cart_wf(cart),
                store.wf(),
                store.items@ == restock_spec(items0, cart.take(k as int)),
                store_items_pristine(items0, cart, k as int),
            decreases n - k,
        {
            let e = &gone.cart[k];
            if !e.item.discarded {
                proof {
                    lemma_restock_take_frame(items0, cart, k as int);
                }
                store.increment_item_count(&e.item.product.name, e.quantity);
            }
            proof {
                assert(cart.take(k as int + 1).drop_last() =~= cart.take(k as int));
                assert(cart.take(k as int + 1).last() == cart[k as int]);
            }
            k = k + 1;
        }
        proof {
            assert(cart.take(n as int) =~= cart);
        }
        lane.reindex();
    }
}

/// The fit precondition of `exit_line`, carried through the re-credit loop:
/// every cart line from `k` on still finds the catalog exactly as it was.
pub open spec fn store_items_pristine(
    items0: Seq<InventoryItem>,
    cart: Seq<CartEntry>,
    k: int,
) -> bool {
    forall|j: int|
        k <= j < cart.len() ==> {
            let e = #[trigger] cart[j];
            !e.item.discarded && has_name(items0, e.item.product.name@) ==> item_of(
                items0,
                e.item.product.name@,
            ).count + e.quantity <= MAX_QUANTITY
        }
}

/// Inside the re-credit loop: the names of the lines not yet processed are
/// untouched by the restock of the lines already processed.
proof fn lemma_restock_take_frame(items0: Seq<InventoryItem>, cart: Seq<CartEntry>, k: int)
    requires
        cart_wf(cart),
        0 <= k < cart.len(),
    ensures
        has_name(restock_spec(items0, cart.take(k)), cart[k].item.product.name@) == has_name(
            items0,
            cart[k].item.product.name@,
        ),
        has_name(items0, cart[k].item.product.name@) ==> item_of(
            restock_spec(items0, cart.take(k)),
            cart[k].item.product.name@,
        ) == item_of(items0, cart[k].item.product.name@),
{
    let name = cart[k].item.product.name@;
    let head = cart.take(k);
    assert(forall|j: int| 0 <= j < k ==> head[j] == cart[j]);
    assert(forall|j: int|
        0 <= j < head.len() ==> (#[trigger] head[j].item).discarded || head[j].item.product.name@
            != name);
    lemma_restock_frame(items0, head, name);
}

} // verus!
