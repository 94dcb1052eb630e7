//! A verified retail checkout engine: a store inventory, customer carts,
//! checkout lanes with a cash register, and a settlement algorithm that
//! drains a lane, computes taxed totals, resolves payment against customer
//! funds and register cash, and updates the inventory.
//!
//! All money is held in integer cents and every tax rate is a multiplicative
//! factor in hundredths (110 means a factor of 1.10), so every amount is an
//! exact integer and every arithmetic step is proved free of overflow.

pub mod money;
pub mod inventory;
pub mod customer;
pub mod lane;
pub mod settlement;
pub mod text;
