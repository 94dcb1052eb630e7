//! The store's inventory catalog: per-item stock, unit price and tax factor,
//! keyed by a unique product name.
//!
//! The catalog is held as a vector of items with pairwise distinct names.
//! Every mutation is specified as a value-level function of the old catalog
//! (`dec_spec`, `incr_spec`), so that the settlement engine's contracts can
//! say exactly which catalog a settlement leaves behind.

use vstd::prelude::*;
use vstd::pervasive::VecAdditionalExecFns;
use crate::money::{MAX_PRICE, MAX_TAX, MAX_QUANTITY};

verus! {

/// One product of the catalog: stock `count` at `price` cents per unit,
/// taxed by the factor `tax` (in hundredths).
pub struct InventoryItem {
    pub name: String,
    pub price: u64,
    pub count: u64,
    pub tax: u64,
}

/// A catalog item carries bounded price, tax factor and count, and its
/// count is positive: an item whose count reaches zero leaves the catalog.
pub open spec fn item_valid(it: InventoryItem) -> bool {
    &&& it.price <= MAX_PRICE
    &&& it.tax <= MAX_TAX
    &&& 1 <= it.count <= MAX_QUANTITY
}

/// Items are valid and names are pairwise distinct.
pub open spec fn store_wf(items: Seq<InventoryItem>) -> bool {
    &&& forall|i: int| 0 <= i < items.len() ==> item_valid(#[trigger] items[i])
    &&& forall|i: int, j: int|
        #![trigger items[i].name, items[j].name]
        0 <= i < j < items.len() ==> items[i].name@ != items[j].name@
}

/// Index of the first item called `name`, or -1 when there is none.
pub open spec fn find_idx(items: Seq<InventoryItem>, name: Seq<char>) -> int
    decreases items.len(),
{
    if items.len() == 0 {
        -1
    } else if items[0].name@ == name {
        0
    } else {
        let r = find_idx(items.drop_first(), name);
        if r < 0 {
            -1
        } else {
            r + 1
        }
    }
}

/// Whether the catalog holds an item called `name`.
pub open spec fn has_name(items: Seq<InventoryItem>, name: Seq<char>) -> bool {
    find_idx(items, name) >= 0
}

/// The item called `name`; meaningful only when `has_name` holds.
pub open spec fn item_of(items: Seq<InventoryItem>, name: Seq<char>) -> InventoryItem {
    items[find_idx(items, name)]
}

/// `find_idx` returns -1 exactly when no item matches, and otherwise the
/// index of the first match.
pub proof fn lemma_find_idx(items: Seq<InventoryItem>, name: Seq<char>)
    ensures
        find_idx(items, name) == -1 || 0 <= find_idx(items, name) < items.len(),
        find_idx(items, name) == -1 ==> forall|i: int|
            0 <= i < items.len() ==> items[i].name@ != name,
        find_idx(items, name) >= 0 ==> items[find_idx(items, name)].name@ == name,
        find_idx(items, name) >= 0 ==> forall|i: int|
            0 <= i < find_idx(items, name) ==> items[i].name@ != name,
    decreases items.len(),
{
    if items.len() > 0 && items[0].name@ != name {
        let rest = items.drop_first();
        lemma_find_idx(rest, name);
        assert(forall|i: int| 0 <= i < rest.len() ==> rest[i] == items[i + 1]);
        if find_idx(items, name) == -1 {
            assert forall|i: int| 0 <= i < items.len() implies items[i].name@ != name by {
                if i >= 1 {
                    assert(rest[i - 1] == items[i]);
                }
            }
        } else {
            assert forall|i: int|
                0 <= i < find_idx(items, name) implies items[i].name@ != name by {
                if i >= 1 {
                    assert(rest[i - 1] == items[i]);
                }
            }
        }
    }
}

/// `find_idx` depends only on the names of the items.
pub proof fn lemma_find_idx_names(a: Seq<InventoryItem>, b: Seq<InventoryItem>, name: Seq<char>)
    requires
        a.len() == b.len(),
        forall|i: int| 0 <= i < a.len() ==> a[i].name@ == b[i].name@,
    ensures
        find_idx(a, name) == find_idx(b, name),
    decreases a.len(),
{
    if a.len() > 0 {
        assert(a[0].name@ == b[0].name@);
        if a[0].name@ != name {
            assert(forall|i: int| 0 <= i < a.len() - 1 ==> a.drop_first()[i] == a[i + 1]);
            assert(forall|i: int| 0 <= i < b.len() - 1 ==> b.drop_first()[i] == b[i + 1]);
            lemma_find_idx_names(a.drop_first(), b.drop_first(), name);
        }
    }
}

/// Removing an item of another name neither adds nor removes a match for
/// `name`, and keeps the matched item itself unchanged.
pub proof fn lemma_find_idx_remove(items: Seq<InventoryItem>, i: int, name: Seq<char>)
    requires
        0 <= i < items.len(),
        items[i].name@ != name,
    ensures
        has_name(items.remove(i), name) == has_name(items, name),
        has_name(items, name) ==> item_of(items.remove(i), name) == item_of(items, name),
{
    let removed = items.remove(i);
    items.remove_ensures(i);
    lemma_find_idx(items, name);
    lemma_find_idx(removed, name);
    let r = find_idx(items, name);
    let r2 = find_idx(removed, name);
    if r >= 0 {
        let rp: int = if r < i {
            r
        } else {
            r - 1
        };
        assert(removed[rp] == items[r]);
        assert(r2 >= 0);
        // Every match of `removed` comes from a match of `items`.
        assert(removed[r2] == (if r2 < i {
            items[r2]
        } else {
            items[r2 + 1]
        }));
        assert(r2 == rp);
    } else {
        if r2 >= 0 {
            assert(removed[r2] == (if r2 < i {
                items[r2]
            } else {
                items[r2 + 1]
            }));
            assert(false);
        }
    }
}

/// The catalog after a restock of `q` units of `name`; a name that is not
/// in the catalog is left alone.
pub open spec fn incr_spec(items: Seq<InventoryItem>, name: Seq<char>, q: int) -> Seq<
    InventoryItem,
> {
    let i = find_idx(items, name);
    if i < 0 {
        items
    } else {
        items.update(
            i,
            InventoryItem {
                name: items[i].name,
                price: items[i].price,
                count: (items[i].count + q) as u64,
                tax: items[i].tax,
            },
        )
    }
}

/// The catalog after selling `q` units of `name`: the count drops by `q`,
/// the item leaves the catalog when its count reaches zero, and a sale that
/// would drive the count negative leaves the catalog unchanged.
pub open spec fn dec_spec(items: Seq<InventoryItem>, name: Seq<char>, q: int) -> Seq<
    InventoryItem,
> {
    let i = find_idx(items, name);
    if i < 0 || q > items[i].count {
        items
    } else if q == items[i].count {
        items.remove(i)
    } else {
        items.update(
            i,
            InventoryItem {
                name: items[i].name,
                price: items[i].price,
                count: (items[i].count - q) as u64,
                tax: items[i].tax,
            },
        )
    }
}

/// A restock touches no other name.
pub proof fn lemma_incr_frame(items: Seq<InventoryItem>, name: Seq<char>, q: int, other: Seq<char>)
    requires
        other != name,
    ensures
        has_name(incr_spec(items, name, q), other) == has_name(items, other),
        has_name(items, other) ==> item_of(incr_spec(items, name, q), other) == item_of(
            items,
            other,
        ),
{
    let i = find_idx(items, name);
    lemma_find_idx(items, name);
    if i >= 0 {
        let u = incr_spec(items, name, q);
        assert(forall|k: int| 0 <= k < items.len() ==> u[k].name@ == items[k].name@);
        lemma_find_idx_names(u, items, other);
        lemma_find_idx(items, other);
        if has_name(items, other) {
            assert(items[find_idx(items, other)].name@ == other);
            assert(find_idx(items, other) != i);
        }
    }
}

/// A restock preserves well-formedness when the new count stays in bounds,
/// and raises the restocked count by exactly `q`.
pub proof fn lemma_incr_at(items: Seq<InventoryItem>, name: Seq<char>, q: int)
    requires
        store_wf(items),
        0 <= q,
        has_name(items, name) ==> item_of(items, name).count + q <= MAX_QUANTITY,
    ensures
        store_wf(incr_spec(items, name, q)),
        has_name(incr_spec(items, name, q), name) == has_name(items, name),
        has_name(items, name) ==> item_of(incr_spec(items, name, q), name) == (InventoryItem {
            name: item_of(items, name).name,
            price: item_of(items, name).price,
            count: (item_of(items, name).count + q) as u64,
            tax: item_of(items, name).tax,
        }),
{
    let i = find_idx(items, name);
    lemma_find_idx(items, name);
    if i >= 0 {
        let u = incr_spec(items, name, q);
        assert(forall|k: int| 0 <= k < items.len() ==> u[k].name@ == items[k].name@);
        lemma_find_idx_names(u, items, name);
        assert(item_valid(u[i]));
        assert(forall|k: int| 0 <= k < u.len() && k != i ==> u[k] == items[k]);
    }
}

/// A sale touches no other name.
pub proof fn lemma_dec_frame(items: Seq<InventoryItem>, name: Seq<char>, q: int, other: Seq<char>)
    requires
        other != name,
    ensures
        has_name(dec_spec(items, name, q), other) == has_name(items, other),
        has_name(items, other) ==> item_of(dec_spec(items, name, q), other) == item_of(
            items,
            other,
        ),
{
    let i = find_idx(items, name);
    lemma_find_idx(items, name);
    if i >= 0 && q <= items[i].count {
        if q == items[i].count {
            lemma_find_idx_remove(items, i, other);
        } else {
            let u = dec_spec(items, name, q);
            assert(forall|k: int| 0 <= k < items.len() ==> u[k].name@ == items[k].name@);
            lemma_find_idx_names(u, items, other);
            lemma_find_idx(items, other);
            if has_name(items, other) {
                assert(items[find_idx(items, other)].name@ == other);
                assert(find_idx(items, other) != i);
            }
        }
    }
}

/// A sale of `q <= count` units preserves well-formedness; the item stays
/// with count lowered by `q` when some stock remains, and leaves the
/// catalog when the sale exhausts it.
pub proof fn lemma_dec_at(items: Seq<InventoryItem>, name: Seq<char>, q: int)
    requires
        store_wf(items),
        0 <= q,
        has_name(items, name),
        q <= item_of(items, name).count,
    ensures
        store_wf(dec_spec(items, name, q)),
        q == item_of(items, name).count ==> !has_name(dec_spec(items, name, q), name),
        q < item_of(items, name).count ==> has_name(dec_spec(items, name, q), name)
            && item_of(dec_spec(items, name, q), name) == (InventoryItem {
            name: item_of(items, name).name,
            price: item_of(items, name).price,
            count: (item_of(items, name).count - q) as u64,
            tax: item_of(items, name).tax,
        }),
{
    let i = find_idx(items, name);
    lemma_find_idx(items, name);
    let u = dec_spec(items, name, q);
    if q == items[i].count {
        items.remove_ensures(i);
        lemma_find_idx(u, name);
        if find_idx(u, name) >= 0 {
            let r2 = find_idx(u, name);
            assert(u[r2] == (if r2 < i {
                items[r2]
            } else {
                items[r2 + 1]
            }));
            assert(false);
        }
        assert(forall|a: int, b: int|
            #![trigger u[a].name, u[b].name]
            0 <= a < b < u.len() ==> u[a].name@ != u[b].name@) by {
            assert(forall|a: int|
                0 <= a < u.len() ==> u[a] == (if a < i {
                    items[a]
                } else {
                    items[a + 1]
                }));
        }
    } else {
        assert(forall|k: int| 0 <= k < items.len() ==> u[k].name@ == items[k].name@);
        lemma_find_idx_names(u, items, name);
        assert(item_valid(u[i]));
        assert(forall|k: int| 0 <= k < u.len() && k != i ==> u[k] == items[k]);
    }
}

/// One stock mutation: a restock (`restock` set) or a sale of `amount`
/// units of `name`.
pub struct StockOp {
    pub name: Seq<char>,
    pub amount: int,
    pub restock: bool,
}

/// The catalog after the first `n` of a sequence of stock mutations, each
/// with the effect the executable operations have: a sale that would
/// overdraw the stock is refused, and a restock that would overflow the
/// count bound is refused, both leaving the catalog unchanged.
pub open spec fn apply_stock_ops(
    items: Seq<InventoryItem>,
    ops: Seq<StockOp>,
    n: int,
) -> Seq<InventoryItem>
    decreases n,
{
    if n <= 0 {
        items
    } else {
        let prev = apply_stock_ops(items, ops, n - 1);
        let op = ops[n - 1];
        if op.restock {
            if !has_name(prev, op.name) || item_of(prev, op.name).count + op.amount
                <= MAX_QUANTITY {
                incr_spec(prev, op.name, op.amount)
            } else {
                prev
            }
        } else {
            dec_spec(prev, op.name, op.amount)
        }
    }
}

/// However a catalog is hit by a sequence of restocks and sales, no stock
/// count is ever negative: a sale that would overdraw is refused outright,
/// and a sale that empties a stock removes the item rather than leave a
/// zero behind.
pub proof fn lemma_stock_never_negative(items: Seq<InventoryItem>, ops: Seq<StockOp>, n: int)
    requires
        store_wf(items),
        0 <= n <= ops.len(),
        forall|j: int| 0 <= j < ops.len() ==> (#[trigger] ops[j]).amount >= 0,
    ensures
        store_wf(apply_stock_ops(items, ops, n)),
        forall|i: int|
            0 <= i < apply_stock_ops(items, ops, n).len() ==> (#[trigger] apply_stock_ops(
                items,
                ops,
                n,
            )[i]).count >= 1,
    decreases n,
{
    if n > 0 {
        lemma_stock_never_negative(items, ops, n - 1);
        let prev = apply_stock_ops(items, ops, n - 1);
        let op = ops[n - 1];
        lemma_find_idx(prev, op.name);
        if op.restock {
            if !has_name(prev, op.name) || item_of(prev, op.name).count + op.amount
                <= MAX_QUANTITY {
                lemma_incr_at(prev, op.name, op.amount);
            }
        } else {
            if has_name(prev, op.name) && op.amount <= item_of(prev, op.name).count {
                lemma_dec_at(prev, op.name, op.amount);
            } else {
                assert(apply_stock_ops(items, ops, n) == prev);
            }
        }
    }
}

/// Why a stock mutation was refused.
#[derive(Clone, Copy, Debug, PartialEq, Eq, Structural)]
pub enum StockError {
    /// The named product is not in the catalog.
    StaleInventory,
    /// The catalog holds fewer units than the sale asks for.
    OutOfStock,
}

/// The store's inventory catalog.
pub struct Store {
    pub items: Vec<InventoryItem>,
}

impl Store {
    /// The catalog invariant: see `store_wf`.
    pub open spec fn wf(&self) -> bool {
        store_wf(self.items@)
    }

    /// An empty catalog.
    pub fn new() -> (s: Store)
        ensures
            s.items@ == Seq::<InventoryItem>::empty(),
            s.wf(),
    {
        Store { items: Vec::new() }
    }

    /// Index of the item called `name`, if any.
    pub fn find(&self, name: &String) -> (r: Option<usize>)
        ensures
            match r {
                Some(i) => (i as int) < self.items@.len() && find_idx(self.items@, name@)
                    == i as int,
                None => find_idx(self.items@, name@) == -1,
            },
    {
        let n = self.items.len();
        let mut k: usize = 0;
        while k < n
            invariant
                k <= n,
                n == self.items@.len(),
                forall|j: int| 0 <= j < k ==> self.items@[j].name@ != name@,
            decreases n - k,
        {
            if self.items[k].name == *name {
                proof {
                    lemma_find_idx(self.items@, name@);
                }
                return Some(k);
            }
            k = k + 1;
        }
        proof {
            lemma_find_idx(self.items@, name@);
        }
        None
    }

    /// Looks the named product up in the catalog.
    pub fn lookup(&self, name: &String) -> (r: Option<&InventoryItem>)
        ensures
            match r {
                Some(it) => has_name(self.items@, name@) && *it == item_of(self.items@, name@),
                None => !has_name(self.items@, name@),
            },
    {
        match self.find(name) {
            Some(i) => Some(&self.items[i]),
            None => None,
        }
    }

    /// Stocks `count` units of a product, inserting it or replacing the
    /// catalog entry of the same name.
    pub fn add_item(&mut self, item_name: String, price: u64, count: u64, tax: u64)
        requires
            old(self).wf(),
            price <= MAX_PRICE,
            tax <= MAX_TAX,
            1 <= count <= MAX_QUANTITY,
        ensures
            final(self).wf(),
            ({
                let it = InventoryItem { name: item_name, price, count, tax };
                let i = find_idx(old(self).items@, item_name@);
                if i < 0 {
                    final(self).items@ == old(self).items@.push(it)
                } else {
                    final(self).items@ == old(self).items@.update(i, it)
                }
            }),
    {
        proof {
            lemma_find_idx(self.items@, item_name@);
        }
        match self.find(&item_name) {
            Some(i) => {
                let it = InventoryItem { name: item_name, price, count, tax };
                self.items.set(i, it);
                proof {
                    assert(forall|k: int|
                        0 <= k < self.items@.len() && k != i ==> self.items@[k] == old(
                            self,
                        ).items@[k]);
                }
            },
            None => {
                let it = InventoryItem { name: item_name, price, count, tax };
                self.items.push(it);
            },
        }
    }

    /// Drops the named product from the catalog; absent names are a no-op.
    pub fn remove_item(&mut self, item_name: &String)
        requires
            old(self).wf(),
        ensures
            final(self).wf(),
            ({
                let i = find_idx(old(self).items@, item_name@);
                if i < 0 {
                    final(self).items@ == old(self).items@
                } else {
                    final(self).items@ == old(self).items@.remove(i)
                }
            }),
    {
        match self.find(item_name) {
            Some(i) => {
                self.items.remove(i);
                proof {
                    old(self).items@.remove_ensures(i as int);
                }
            },
            None => {},
        }
    }

    /// Restocks `quantity` units of the named product; absent names are a
    /// no-op, matching a restock of goods the store no longer carries.
    pub fn increment_item_count(&mut self, item_name: &String, quantity: u64)
        requires
            old(self).wf(),
            has_name(old(self).items@, item_name@) ==> item_of(old(self).items@, item_name@).count
                + quantity <= MAX_QUANTITY,
        ensures
            final(self).wf(),
            final(self).items@ == incr_spec(old(self).items@, item_name@, quantity as int),
    {
        proof {
            lemma_incr_at(self.items@, item_name@, quantity as int);
            lemma_find_idx(self.items@, item_name@);
        }
        match self.find(item_name) {
            Some(i) => {
                let it = &self.items[i];
                let fresh = InventoryItem {
                    name: it.name.clone(),
                    price: it.price,
                    count: it.count + quantity,
                    tax: it.tax,
                };
                self.items.set(i, fresh);
            },
            None => {},
        }
    }

    /// Sells `quantity` units of the named product. The sale is refused,
    /// and the catalog left unchanged, when the product is gone
    /// (`StaleInventory`) or its stock is short (`OutOfStock`); a sale that
    /// exhausts the stock removes the product from the catalog.
    pub fn decrement_item_count(&mut self, item_name: &String, quantity: u64) -> (r: Result<
        (),
        StockError,
    >)
        requires
            old(self).wf(),
        ensures
            final(self).wf(),
            final(self).items@ == dec_spec(old(self).items@, item_name@, quantity as int),
            r == Ok::<(), StockError>(()) <==> (has_name(old(self).items@, item_name@) && quantity
                <= item_of(old(self).items@, item_name@).count),
            r == Err::<(), StockError>(StockError::StaleInventory) <==> !has_name(
                old(self).items@,
                item_name@,
            ),
            r == Err::<(), StockError>(StockError::OutOfStock) <==> (has_name(
                old(self).items@,
                item_name@,
            ) && quantity > item_of(old(self).items@, item_name@).count),
    {
        proof {
            lemma_find_idx(self.items@, item_name@);
        }
        match self.find(item_name) {
            Some(i) => {
                let have = self.items[i].count;
                if quantity > have {
                    Err(StockError::OutOfStock)
                } else if quantity == have {
                    proof {
                        lemma_dec_at(self.items@, item_name@, quantity as int);
                    }
                    self.items.remove(i);
                    Ok(())
                } else {
                    proof {
                        lemma_dec_at(self.items@, item_name@, quantity as int);
                    }
                    let it = &self.items[i];
                    let fresh = InventoryItem {
                        name: it.name.clone(),
                        price: it.price,
                        count: it.count - quantity,
                        tax: it.tax,
                    };
                    self.items.set(i, fresh);
                    Ok(())
                }
            },
            None => Err(StockError::StaleInventory),
        }
    }
}

} // verus!
