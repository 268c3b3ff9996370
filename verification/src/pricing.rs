//! What tickets cost.
use vstd::prelude::*;
use crate::model::{
    discounted_price, discounted_price_fits, group_cost, group_cost_fits, BPS_DENOMINATOR, GROUP_DISCOUNT_BPS,
    GROUP_DISCOUNT_MIN_QUANTITY,
};

verus! {

/// What `quantity` tickets at `unit` each cost together, with the group
/// discount for large groups; `None` when the computation leaves `i128`.
pub fn group_price(unit: i128, quantity: u128) -> (r: Option<i128>)
    requires
        unit >= 0,
    ensures
        match r {
            Some(c) => group_cost_fits(unit as int, quantity as int) && c == group_cost(unit as int, quantity as int),
            None => !group_cost_fits(unit as int, quantity as int),
        },
{
    let u = unit as u128;
    let limit = i128::MAX as u128;
    assert(quantity * u == quantity * unit);
    let product = match quantity.checked_mul(u) {
        Some(p) => p,
        None => {
            proof {
                assert(quantity * (unit as int) * 9500 >= quantity * (unit as int)) by (nonlinear_arith)
                    requires
                        quantity * (unit as int) >= 0,
                ;
            }
            return None;
        },
    };
    assert(product == quantity * unit);
    if quantity >= GROUP_DISCOUNT_MIN_QUANTITY {
        let scaled = match product.checked_mul(BPS_DENOMINATOR - GROUP_DISCOUNT_BPS) {
            Some(s) => s,
            None => {
                return None;
            },
        };
        if scaled > limit {
            return None;
        }
        Some((scaled / BPS_DENOMINATOR) as i128)
    } else {
        if product > limit {
            return None;
        }
        Some(product as i128)
    }
}

/// A ticket at `price` with `percentage` off, rounded down; `None` when the
/// computation leaves `i128`.
pub fn discount_price(price: i128, percentage: u32) -> (r: Option<i128>)
    requires
        price >= 0,
        percentage <= 100,
    ensures
        match r {
            Some(c) => discounted_price_fits(price as int, percentage as int) && c == discounted_price(
                price as int,
                percentage as int,
            ),
            None => !discounted_price_fits(price as int, percentage as int),
        },
{
    let p = price as u128;
    let keep = (100 - percentage) as u128;
    let limit = i128::MAX as u128;
    let product = match p.checked_mul(keep) {
        Some(x) => x,
        None => {
            return None;
        },
    };
    if product > limit {
        return None;
    }
    Some((product / 100) as i128)
}

} // verus!
