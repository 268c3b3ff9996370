//! Laws of the ticketing ledger, stated over the model in [`crate::model`].
use vstd::prelude::*;
use crate::types::{Address, BuyerPurchase, CreateEventParams, DiscountView, Error, EventView, PurchaseEntry, TierConfig, TierView};
use crate::model::{discounted_price, group_cost, capacities, config_capacity, discount_index, held_payments, initial_tiers, purchase_index, seq_sum, sold_counts, waitlist_position, ManagerView, RecordView};
use crate::lemmas::{lemma_seq_sum_eq_pointwise, lemma_seq_sum_bounds, lemma_seq_sum_le, lemma_seq_sum_push, lemma_seq_sum_update, lemma_seq_sum_zeros};

verus! {

/// Replacing a purchase entry by one with the same buyer keeps buyers
/// unique; a purchase index found for a buyer is that buyer's entry.
proof fn lemma_purchase_index(purchases: Seq<PurchaseEntry>, buyer: Address)
    ensures
        purchase_index(purchases, buyer) < purchases.len(),
        purchase_index(purchases, buyer) >= 0 ==> purchases[purchase_index(purchases, buyer)].buyer == buyer,
        purchase_index(purchases, buyer) < 0 ==> forall|i: int| 0 <= i < purchases.len() ==> #[trigger] purchases[i].buyer != buyer,
{
}

/// A sale on a consistent, open event leaves it consistent.
proof fn lemma_record_sale_wf(r: RecordView, buyer: Address, tier: int, quantity: int, cost: int)
    requires
        r.wf(),
        !r.event.is_canceled,
        0 <= tier < r.tiers.len(),
        quantity >= 0,
        cost >= 0,
        r.tiers[tier].sold_quantity + quantity <= r.tiers[tier].total_quantity,
        r.sale_fits(buyer, quantity, cost),
    ensures
        r.record_sale(buyer, tier, quantity, cost).wf(),
        r.record_sale(buyer, tier, quantity, cost).event == (EventView { tickets_sold: r.record_sale(buyer, tier, quantity, cost).event.tickets_sold, ..r.event }),
{
    let n = r.record_sale(buyer, tier, quantity, cost);
    let t = r.tiers[tier];
    let nt = TierView { sold_quantity: (t.sold_quantity + quantity) as u128, ..t };
    lemma_purchase_index(r.purchases, buyer);
    let i = purchase_index(r.purchases, buyer);
    // Tier sums.
    assert(capacities(n.tiers) =~= capacities(r.tiers));
    assert(sold_counts(n.tiers) =~= sold_counts(r.tiers).update(tier, t.sold_quantity + quantity));
    lemma_seq_sum_update(sold_counts(r.tiers), tier, t.sold_quantity + quantity);
    assert forall|j: int| 0 <= j < n.tiers.len() implies {
        &&& #[trigger] n.tiers[j].sold_quantity <= n.tiers[j].total_quantity
        &&& n.tiers[j].price >= 0
    } by {
        assert(r.tiers[j].sold_quantity <= r.tiers[j].total_quantity);
        assert(r.tiers[tier].sold_quantity <= r.tiers[tier].total_quantity);
        if j != tier {
            assert(n.tiers[j] == r.tiers[j]);
        }
    }
    lemma_seq_sum_le(sold_counts(n.tiers), capacities(n.tiers));
    // Purchases and balance.
    assert forall|k: int| 0 <= k < r.purchases.len() implies !(#[trigger] r.purchases[k]).refunded by {
        assert(r.purchases[k].purchase.total_paid >= 0);
    }
    if i >= 0 {
        let e = r.purchases[i];
        let ne = PurchaseEntry {
            purchase: BuyerPurchase {
                quantity: (e.purchase.quantity + quantity) as u128,
                total_paid: (e.purchase.total_paid + cost) as i128,
            },
            ..e
        };
        assert(held_payments(n.purchases) =~= held_payments(r.purchases).update(i, e.purchase.total_paid + cost));
        lemma_seq_sum_update(held_payments(r.purchases), i, e.purchase.total_paid + cost);
        assert forall|a: int, b: int| 0 <= a < b < n.purchases.len() implies #[trigger] n.purchases[a].buyer
            != #[trigger] n.purchases[b].buyer by {
            assert(r.purchases[a].buyer != r.purchases[b].buyer);
        }
    } else {
        let ne = PurchaseEntry {
            buyer,
            purchase: BuyerPurchase { quantity: quantity as u128, total_paid: cost as i128 },
            refunded: false,
        };
        assert(held_payments(n.purchases) =~= held_payments(r.purchases).push(cost));
        lemma_seq_sum_push(held_payments(r.purchases), cost);
        assert forall|a: int, b: int| 0 <= a < b < n.purchases.len() implies #[trigger] n.purchases[a].buyer
            != #[trigger] n.purchases[b].buyer by {
            if b == r.purchases.len() {
                assert(r.purchases[a].buyer != buyer);
            } else {
                assert(r.purchases[a].buyer != r.purchases[b].buyer);
            }
        }
    }
    assert forall|k: int| 0 <= k < n.purchases.len() implies {
        &&& #[trigger] n.purchases[k].purchase.total_paid >= 0
        &&& n.purchases[k].refunded ==> n.event.is_canceled
    } by {
        if k < r.purchases.len() && k != i {
            assert(n.purchases[k] == r.purchases[k]);
        }
    }
    assert forall|a: int, b: int| 0 <= a < b < n.discounts.len() implies #[trigger] n.discounts[a].code
        != #[trigger] n.discounts[b].code by {
        assert(r.discounts[a].code != r.discounts[b].code);
    }
    assert forall|a: int| 0 <= a < n.discounts.len() implies {
        &&& 1 <= #[trigger] n.discounts[a].percentage <= 100
        &&& n.discounts[a].uses_remaining <= n.discounts[a].max_uses
    } by {
        assert(r.discounts[a] == n.discounts[a]);
    }
}

/// Every successful sale keeps an event consistent.
pub proof fn lemma_sell_keeps_wf(r: RecordView, buyer: Address, tier: int, quantity: int, cost: int)
    requires
        r.wf(),
        !r.event.is_canceled,
        0 <= tier < r.tiers.len(),
        quantity >= 0,
        cost >= 0,
        r.sell(buyer, tier, quantity, cost) is Ok,
    ensures
        r.sell(buyer, tier, quantity, cost)->Ok_0.0.wf(),
{
    lemma_record_sale_wf(r, buyer, tier, quantity, cost);
}


/// The prices that sales charge are never negative.
pub proof fn lemma_costs_nonneg(unit: int, quantity: int, percentage: int)
    requires
        unit >= 0,
        quantity >= 0,
        0 <= percentage <= 100,
    ensures
        group_cost(unit, quantity) >= 0,
        discounted_price(unit, percentage) >= 0,
{
    assert(quantity * unit >= 0) by (nonlinear_arith)
        requires
            unit >= 0,
            quantity >= 0,
    ;
    assert(quantity * unit * 9500 >= 0) by (nonlinear_arith)
        requires
            quantity * unit >= 0,
    ;
    assert(unit * (100 - percentage) >= 0) by (nonlinear_arith)
        requires
            unit >= 0,
            percentage <= 100,
    ;
}

/// Cancelling keeps an event consistent.
pub proof fn lemma_cancel_keeps_wf(r: RecordView)
    requires
        r.wf(),
        r.cancel() is Ok,
    ensures
        r.cancel()->Ok_0.0.wf(),
{
    let n = r.cancel()->Ok_0.0;
    assert forall|k: int| 0 <= k < n.purchases.len() implies {
        &&& #[trigger] n.purchases[k].purchase.total_paid >= 0
        &&& n.purchases[k].refunded ==> n.event.is_canceled
    } by {
        assert(r.purchases[k].purchase.total_paid >= 0);
    }
    assert(n.waitlist.no_duplicates());
}

/// Buying a ticket keeps an event consistent.
pub proof fn lemma_purchase_ticket_keeps_wf(r: RecordView, buyer: Address, tier_index: u32)
    requires
        r.wf(),
        r.purchase_ticket(buyer, tier_index) is Ok,
    ensures
        r.purchase_ticket(buyer, tier_index)->Ok_0.0.wf(),
{
    let t = tier_index as int;
    assert(r.tiers[t].sold_quantity <= r.tiers[t].total_quantity);
    lemma_sell_keeps_wf(r, buyer, t, 1, r.tiers[t].price as int);
}

/// Buying a group of tickets keeps an event consistent.
pub proof fn lemma_purchase_tickets_keeps_wf(r: RecordView, buyer: Address, quantity: u128)
    requires
        r.wf(),
        r.purchase_tickets(buyer, quantity) is Ok,
    ensures
        r.purchase_tickets(buyer, quantity)->Ok_0.0.wf(),
{
    let unit = r.tiers[0].price as int;
    assert(r.tiers[0].sold_quantity <= r.tiers[0].total_quantity);
    lemma_costs_nonneg(unit, quantity as int, 0);
    lemma_sell_keeps_wf(r, buyer, 0, quantity as int, group_cost(unit, quantity as int));
}

/// Buying a ticket with a discount code keeps an event consistent.
pub proof fn lemma_purchase_with_discount_keeps_wf(r: RecordView, buyer: Address, tier_index: u32, code: Seq<char>, now: u64)
    requires
        r.wf(),
        r.purchase_with_discount(buyer, tier_index, code, now) is Ok,
    ensures
        r.purchase_with_discount(buyer, tier_index, code, now)->Ok_0.0.wf(),
{
    let t = tier_index as int;
    let d = discount_index(r.discounts, code);
    let disc = r.discounts[d];
    let price = r.tiers[t].price as int;
    assert(r.tiers[t].sold_quantity <= r.tiers[t].total_quantity);
    assert(1 <= r.discounts[d].percentage <= 100);
    lemma_costs_nonneg(price, 1, disc.percentage as int);
    let cost = discounted_price(price, disc.percentage as int);
    lemma_sell_keeps_wf(r, buyer, t, 1, cost);
    let s = r.sell(buyer, t, 1, cost)->Ok_0.0;
    let n = r.purchase_with_discount(buyer, tier_index, code, now)->Ok_0.0;
    assert(s.discounts == r.discounts);
    assert forall|a: int, b: int| 0 <= a < b < n.discounts.len() implies #[trigger] n.discounts[a].code
        != #[trigger] n.discounts[b].code by {
        assert(r.discounts[a].code != r.discounts[b].code);
    }
    assert forall|a: int| 0 <= a < n.discounts.len() implies {
        &&& 1 <= #[trigger] n.discounts[a].percentage <= 100
        &&& n.discounts[a].uses_remaining <= n.discounts[a].max_uses
    } by {
        assert(1 <= r.discounts[a].percentage <= 100);
    }
}

/// A refund keeps an event consistent.
pub proof fn lemma_claim_refund_keeps_wf(r: RecordView, buyer: Address)
    requires
        r.wf(),
        r.claim_refund(buyer) is Ok,
    ensures
        r.claim_refund(buyer)->Ok_0.0.wf(),
{
    let n = r.claim_refund(buyer)->Ok_0.0;
    lemma_purchase_index(r.purchases, buyer);
    let i = purchase_index(r.purchases, buyer);
    let e = r.purchases[i];
    assert(e.purchase.total_paid >= 0);
    assert(held_payments(n.purchases) =~= held_payments(r.purchases).update(i, 0));
    lemma_seq_sum_update(held_payments(r.purchases), i, 0);
    assert forall|k: int| 0 <= k < n.purchases.len() implies 0 <= #[trigger] held_payments(n.purchases)[k] by {
        assert(n.purchases[k].purchase.total_paid >= 0);
    }
    lemma_seq_sum_bounds(held_payments(n.purchases));
    assert forall|a: int, b: int| 0 <= a < b < n.purchases.len() implies #[trigger] n.purchases[a].buyer
        != #[trigger] n.purchases[b].buyer by {
        assert(r.purchases[a].buyer != r.purchases[b].buyer);
    }
    assert forall|k: int| 0 <= k < n.purchases.len() implies {
        &&& #[trigger] n.purchases[k].purchase.total_paid >= 0
        &&& n.purchases[k].refunded ==> n.event.is_canceled
    } by {
        assert(r.purchases[k].purchase.total_paid >= 0);
    }
}

/// A withdrawal keeps an event consistent.
pub proof fn lemma_withdraw_keeps_wf(r: RecordView, now: u64)
    requires
        r.wf(),
        r.withdraw_funds(now) is Ok,
    ensures
        r.withdraw_funds(now)->Ok_0.0.wf(),
{
}

/// Joining the waitlist keeps an event consistent.
pub proof fn lemma_join_waitlist_keeps_wf(r: RecordView, user: Address)
    requires
        r.wf(),
        r.join_waitlist(user) is Ok,
    ensures
        r.join_waitlist(user)->Ok_0.0.wf(),
{
    let n = r.join_waitlist(user)->Ok_0.0;
    assert forall|a: int, b: int| 0 <= a < n.waitlist.len() && 0 <= b < n.waitlist.len() && a != b implies
        n.waitlist[a] != n.waitlist[b] by {
        if a == r.waitlist.len() {
            assert(r.waitlist[b] != user);
        } else if b == r.waitlist.len() {
            assert(r.waitlist[a] != user);
        }
    }
}

/// Returning a ticket keeps an event consistent.
pub proof fn lemma_return_ticket_keeps_wf(r: RecordView, buyer: Address, tier_index: u32)
    requires
        r.wf(),
        r.return_ticket(buyer, tier_index) is Ok,
    ensures
        r.return_ticket(buyer, tier_index)->Ok_0.0.wf(),
{
    let n = r.return_ticket(buyer, tier_index)->Ok_0.0;
    lemma_purchase_index(r.purchases, buyer);
    let i = purchase_index(r.purchases, buyer);
    let e = r.purchases[i];
    let ti = tier_index as int;
    let t = r.tiers[ti];
    assert(t.sold_quantity <= t.total_quantity);
    assert(e.purchase.total_paid >= 0);
    let back = if t.price <= e.purchase.total_paid { t.price } else { e.purchase.total_paid };
    // Tier sums.
    assert(capacities(n.tiers) =~= capacities(r.tiers));
    assert(sold_counts(n.tiers) =~= sold_counts(r.tiers).update(ti, t.sold_quantity - 1));
    lemma_seq_sum_update(sold_counts(r.tiers), ti, t.sold_quantity - 1);
    lemma_seq_sum_bounds(sold_counts(r.tiers));
    assert(sold_counts(r.tiers)[ti] == t.sold_quantity);
    assert forall|j: int| 0 <= j < n.tiers.len() implies {
        &&& #[trigger] n.tiers[j].sold_quantity <= n.tiers[j].total_quantity
        &&& n.tiers[j].price >= 0
    } by {
        assert(r.tiers[j].sold_quantity <= r.tiers[j].total_quantity);
    }
    // Purchases and balance.
    assert(held_payments(n.purchases) =~= held_payments(r.purchases).update(i, e.purchase.total_paid - back));
    lemma_seq_sum_update(held_payments(r.purchases), i, e.purchase.total_paid - back);
    assert forall|a: int, b: int| 0 <= a < b < n.purchases.len() implies #[trigger] n.purchases[a].buyer
        != #[trigger] n.purchases[b].buyer by {
        assert(r.purchases[a].buyer != r.purchases[b].buyer);
    }
    assert forall|k: int| 0 <= k < n.purchases.len() implies {
        &&& #[trigger] n.purchases[k].purchase.total_paid >= 0
        &&& n.purchases[k].refunded ==> n.event.is_canceled
    } by {
        assert(r.purchases[k].purchase.total_paid >= 0);
    }
    assert forall|k: int| 0 <= k < n.purchases.len() implies 0 <= #[trigger] held_payments(n.purchases)[k] by {
        assert(n.purchases[k].purchase.total_paid >= 0);
    }
    lemma_seq_sum_bounds(held_payments(n.purchases));
    // Waitlist.
    assert(n.waitlist.no_duplicates()) by {
        if r.waitlist.len() > 0 {
            assert forall|a: int, b: int| 0 <= a < n.waitlist.len() && 0 <= b < n.waitlist.len() && a != b implies
                n.waitlist[a] != n.waitlist[b] by {
                assert(n.waitlist[a] == r.waitlist[a + 1]);
                assert(n.waitlist[b] == r.waitlist[b + 1]);
            }
        }
    }
}

/// Adding a discount code keeps an event consistent.
pub proof fn lemma_create_discount_keeps_wf(r: RecordView, code: Seq<char>, percentage: u32, max_uses: u32, expiration: u64, now: u64)
    requires
        r.wf(),
        r.create_discount(code, percentage, max_uses, expiration, now) is Ok,
    ensures
        r.create_discount(code, percentage, max_uses, expiration, now)->Ok_0.0.wf(),
{
    let n = r.create_discount(code, percentage, max_uses, expiration, now)->Ok_0.0;
    assert forall|a: int, b: int| 0 <= a < b < n.discounts.len() implies #[trigger] n.discounts[a].code
        != #[trigger] n.discounts[b].code by {
        if b == r.discounts.len() {
            assert(r.discounts[a].code != code);
        } else {
            assert(r.discounts[a].code != r.discounts[b].code);
        }
    }
    assert forall|a: int| 0 <= a < n.discounts.len() implies {
        &&& 1 <= #[trigger] n.discounts[a].percentage <= 100
        &&& n.discounts[a].uses_remaining <= n.discounts[a].max_uses
    } by {
        if a < r.discounts.len() {
            assert(1 <= r.discounts[a].percentage <= 100);
        }
    }
}


/// Replacing a consistent ledger's event by a consistent record with the
/// same id keeps the ledger consistent.
pub proof fn lemma_with_event_keeps_wf(s: ManagerView, id: u32, rec: RecordView)
    requires
        s.wf(),
        id < s.events.len(),
        rec.wf(),
        rec.event.id == id,
    ensures
        s.with_event(id, rec).wf(),
{
    let n = s.with_event(id, rec);
    assert forall|i: int| 0 <= i < n.events.len() implies {
        &&& (#[trigger] n.events[i]).event.id == i
        &&& n.events[i].wf()
    } by {
        if i != id {
            assert(n.events[i] == s.events[i]);
        }
    }
}

/// A new event starts consistent, and the ledger stays consistent.
pub proof fn lemma_create_event_keeps_wf(s: ManagerView, p: CreateEventParams, now: u64, ticket_nft: Address)
    requires
        s.wf(),
        s.create_event(p, now, ticket_nft) is Ok,
    ensures
        s.create_event(p, now, ticket_nft)->Ok_0.0.wf(),
{
    let id = s.events.len() as u32;
    let rec = ManagerView::new_record(p, id, ticket_nft);
    let tiers = initial_tiers(p);
    assert(sold_counts(tiers).len() == tiers.len());
    lemma_seq_sum_zeros(sold_counts(tiers));
    if p.tiers@.len() == 0 {
        assert(capacities(tiers).drop_last() =~= Seq::<int>::empty());
        assert(seq_sum(Seq::<int>::empty()) == 0);
        assert(capacities(tiers).last() == p.total_tickets);
        assert(seq_sum(capacities(tiers)) == p.total_tickets);
    } else {
        assert(capacities(tiers) =~= p.tiers@.map_values(|c: TierConfig| c.total_quantity as int));
        lemma_seq_sum_bounds(capacities(tiers));
        assert forall|j: int| 0 <= j < tiers.len() implies tiers[j].price >= 0 by {
            assert(!(p.tiers@[j].price < 0));
        }
    }
    assert(rec.wf());
    let n = s.create_event(p, now, ticket_nft)->Ok_0.0;
    assert forall|i: int| 0 <= i < n.events.len() implies {
        &&& (#[trigger] n.events[i]).event.id == i
        &&& n.events[i].wf()
    } by {
        if i < s.events.len() {
            assert(n.events[i] == s.events[i]);
        }
    }
}

/// Setting the ticket factory keeps the ledger consistent.
pub proof fn lemma_initialize_keeps_wf(s: ManagerView, ticket_factory: Address)
    requires
        s.wf(),
        s.initialize(ticket_factory) is Ok,
    ensures
        s.initialize(ticket_factory)->Ok_0.0.wf(),
{
    let n = s.initialize(ticket_factory)->Ok_0.0;
    assert forall|i: int| 0 <= i < n.events.len() implies {
        &&& (#[trigger] n.events[i]).event.id == i
        &&& n.events[i].wf()
    } by {
        assert(n.events[i] == s.events[i]);
    }
}

/// Cancelling keeps the ledger consistent.
pub proof fn lemma_cancel_event_keeps_wf(s: ManagerView, id: u32)
    requires
        s.wf(),
        s.cancel_event(id) is Ok,
    ensures
        s.cancel_event(id)->Ok_0.0.wf(),
{
    lemma_cancel_keeps_wf(s.record(id));
    lemma_with_event_keeps_wf(s, id, s.record(id).cancel()->Ok_0.0);
}

/// Buying a ticket keeps the ledger consistent.
pub proof fn lemma_ledger_purchase_ticket_keeps_wf(s: ManagerView, buyer: Address, id: u32, tier_index: u32)
    requires
        s.wf(),
        s.purchase_ticket(buyer, id, tier_index) is Ok,
    ensures
        s.purchase_ticket(buyer, id, tier_index)->Ok_0.0.wf(),
{
    lemma_purchase_ticket_keeps_wf(s.record(id), buyer, tier_index);
    lemma_with_event_keeps_wf(s, id, s.record(id).purchase_ticket(buyer, tier_index)->Ok_0.0);
}

/// Buying a group of tickets keeps the ledger consistent.
pub proof fn lemma_ledger_purchase_tickets_keeps_wf(s: ManagerView, buyer: Address, id: u32, quantity: u128)
    requires
        s.wf(),
        s.purchase_tickets(buyer, id, quantity) is Ok,
    ensures
        s.purchase_tickets(buyer, id, quantity)->Ok_0.0.wf(),
{
    lemma_purchase_tickets_keeps_wf(s.record(id), buyer, quantity);
    lemma_with_event_keeps_wf(s, id, s.record(id).purchase_tickets(buyer, quantity)->Ok_0.0);
}

/// Buying with a discount code keeps the ledger consistent.
pub proof fn lemma_ledger_purchase_with_discount_keeps_wf(
    s: ManagerView,
    buyer: Address,
    id: u32,
    tier_index: u32,
    code: Seq<char>,
    now: u64,
)
    requires
        s.wf(),
        s.purchase_ticket_with_discount(buyer, id, tier_index, code, now) is Ok,
    ensures
        s.purchase_ticket_with_discount(buyer, id, tier_index, code, now)->Ok_0.0.wf(),
{
    lemma_purchase_with_discount_keeps_wf(s.record(id), buyer, tier_index, code, now);
    lemma_with_event_keeps_wf(s, id, s.record(id).purchase_with_discount(buyer, tier_index, code, now)->Ok_0.0);
}

/// A refund keeps the ledger consistent.
pub proof fn lemma_ledger_claim_refund_keeps_wf(s: ManagerView, buyer: Address, id: u32)
    requires
        s.wf(),
        s.claim_refund(buyer, id) is Ok,
    ensures
        s.claim_refund(buyer, id)->Ok_0.0.wf(),
{
    lemma_claim_refund_keeps_wf(s.record(id), buyer);
    lemma_with_event_keeps_wf(s, id, s.record(id).claim_refund(buyer)->Ok_0.0);
}

/// A withdrawal keeps the ledger consistent.
pub proof fn lemma_ledger_withdraw_keeps_wf(s: ManagerView, id: u32, now: u64)
    requires
        s.wf(),
        s.withdraw_funds(id, now) is Ok,
    ensures
        s.withdraw_funds(id, now)->Ok_0.0.wf(),
{
    lemma_withdraw_keeps_wf(s.record(id), now);
    lemma_with_event_keeps_wf(s, id, s.record(id).withdraw_funds(now)->Ok_0.0);
}

/// Joining a waitlist keeps the ledger consistent.
pub proof fn lemma_ledger_join_waitlist_keeps_wf(s: ManagerView, user: Address, id: u32)
    requires
        s.wf(),
        s.join_waitlist(user, id) is Ok,
    ensures
        s.join_waitlist(user, id)->Ok_0.0.wf(),
{
    lemma_join_waitlist_keeps_wf(s.record(id), user);
    lemma_with_event_keeps_wf(s, id, s.record(id).join_waitlist(user)->Ok_0.0);
}

/// Returning a ticket keeps the ledger consistent.
pub proof fn lemma_ledger_return_ticket_keeps_wf(s: ManagerView, buyer: Address, id: u32, tier_index: u32)
    requires
        s.wf(),
        s.return_ticket(buyer, id, tier_index) is Ok,
    ensures
        s.return_ticket(buyer, id, tier_index)->Ok_0.0.wf(),
{
    lemma_return_ticket_keeps_wf(s.record(id), buyer, tier_index);
    lemma_with_event_keeps_wf(s, id, s.record(id).return_ticket(buyer, tier_index)->Ok_0.0);
}

/// Adding a discount code keeps the ledger consistent.
pub proof fn lemma_ledger_create_discount_keeps_wf(
    s: ManagerView,
    id: u32,
    code: Seq<char>,
    percentage: u32,
    max_uses: u32,
    expiration: u64,
    now: u64,
)
    requires
        s.wf(),
        s.create_discount(id, code, percentage, max_uses, expiration, now) is Ok,
    ensures
        s.create_discount(id, code, percentage, max_uses, expiration, now)->Ok_0.0.wf(),
{
    lemma_create_discount_keeps_wf(s.record(id), code, percentage, max_uses, expiration, now);
    lemma_with_event_keeps_wf(s, id, s.record(id).create_discount(code, percentage, max_uses, expiration, now)->Ok_0.0);
}


/// A sale that fits its tier fits the event: the event's count stays
/// within its capacity.
pub proof fn lemma_sale_within_capacity(r: RecordView, tier: int, quantity: int)
    requires
        r.wf(),
        0 <= tier < r.tiers.len(),
        quantity >= 0,
        r.tiers[tier].sold_quantity + quantity <= r.tiers[tier].total_quantity,
    ensures
        r.event.tickets_sold + quantity <= r.event.total_tickets,
        r.event.tickets_sold >= r.tiers[tier].sold_quantity,
{
    let t = r.tiers[tier];
    let s = sold_counts(r.tiers).update(tier, t.sold_quantity + quantity);
    lemma_seq_sum_update(sold_counts(r.tiers), tier, t.sold_quantity + quantity);
    assert forall|j: int| 0 <= j < s.len() implies #[trigger] s[j] <= capacities(r.tiers)[j] by {
        assert(r.tiers[j].sold_quantity <= r.tiers[j].total_quantity);
    }
    lemma_seq_sum_le(s, capacities(r.tiers));
    lemma_seq_sum_bounds(sold_counts(r.tiers));
    assert(sold_counts(r.tiers)[tier] == t.sold_quantity);
}

/// How many tickets a new event has.
pub proof fn lemma_initial_capacity(p: CreateEventParams)
    ensures
        seq_sum(capacities(initial_tiers(p))) == if p.tiers@.len() == 0 {
            p.total_tickets as int
        } else {
            config_capacity(p.tiers@)
        },
{
    let tiers = initial_tiers(p);
    if p.tiers@.len() == 0 {
        assert(capacities(tiers).drop_last() =~= Seq::<int>::empty());
        assert(seq_sum(Seq::<int>::empty()) == 0);
        assert(capacities(tiers).last() == p.total_tickets);
    } else {
        assert(capacities(tiers) =~= p.tiers@.map_values(|c: TierConfig| c.total_quantity as int));
    }
}


/// In a sequence of purchases with unique buyers, the index found for a
/// buyer is the buyer's one entry.
pub proof fn lemma_purchase_index_unique(p: Seq<PurchaseEntry>, buyer: Address, i: int)
    requires
        forall|a: int, b: int| 0 <= a < b < p.len() ==> #[trigger] p[a].buyer != #[trigger] p[b].buyer,
        0 <= i < p.len(),
        p[i].buyer == buyer,
    ensures
        purchase_index(p, buyer) == i,
{
    let j = purchase_index(p, buyer);
    assert(0 <= j < p.len() && p[j].buyer == buyer);
    if j < i {
        assert(p[j].buyer != p[i].buyer);
    } else if j > i {
        assert(p[i].buyer != p[j].buyer);
    }
}

/// In a sequence of discounts with unique codes, the index found for a
/// code is that code's one discount.
pub proof fn lemma_discount_index_unique(d: Seq<DiscountView>, code: Seq<char>, i: int)
    requires
        forall|a: int, b: int| 0 <= a < b < d.len() ==> #[trigger] d[a].code != #[trigger] d[b].code,
        0 <= i < d.len(),
        d[i].code == code,
    ensures
        discount_index(d, code) == i,
{
    let j = discount_index(d, code);
    assert(0 <= j < d.len() && d[j].code == code);
    if j < i {
        assert(d[j].code != d[i].code);
    } else if j > i {
        assert(d[i].code != d[j].code);
    }
}

/// In a waitlist without repeats, the place of a user is where the user stands.
pub proof fn lemma_waitlist_position_at(w: Seq<Address>, i: int)
    requires
        w.no_duplicates(),
        0 <= i < w.len(),
    ensures
        waitlist_position(w, w[i]) == i + 1,
{
    assert(w.contains(w[i]));
    let j = w.index_of(w[i]);
    assert(0 <= j < w.len() && w[j] == w[i]);
}

/// An event never sells more tickets than it has.
pub proof fn lemma_sold_within_capacity(s: ManagerView, id: u32)
    requires
        s.wf(),
        id < s.events.len(),
    ensures
        s.record(id).event.tickets_sold <= s.record(id).event.total_tickets,
        forall|j: int| 0 <= j < s.record(id).tiers.len() ==>
            (#[trigger] s.record(id).tiers[j]).sold_quantity <= s.record(id).tiers[j].total_quantity,
{
    let r = s.record(id);
    assert(r.wf());
    assert(r.tiers[0].sold_quantity <= r.tiers[0].total_quantity);
    lemma_sale_within_capacity(r, 0, 0);
}

/// Until the organiser withdraws, an event holds exactly what its buyers
/// have paid and not had back.
pub proof fn lemma_balance_is_held_payments(s: ManagerView, id: u32)
    requires
        s.wf(),
        id < s.events.len(),
        !s.record(id).withdrawn,
    ensures
        s.record(id).balance == seq_sum(held_payments(s.record(id).purchases)),
{
    assert(s.record(id).wf());
}

/// A buyer is refunded at most once: right after a successful refund, the
/// same claim is refused as already refunded.
pub proof fn lemma_refund_at_most_once(s: ManagerView, buyer: Address, id: u32)
    requires
        s.wf(),
        s.claim_refund(buyer, id) is Ok,
    ensures
        s.claim_refund(buyer, id)->Ok_0.0.claim_refund(buyer, id) == Err::<(ManagerView, i128), Error>(Error::AlreadyRefunded),
{
    let n = s.claim_refund(buyer, id)->Ok_0.0;
    lemma_ledger_claim_refund_keeps_wf(s, buyer, id);
    let r = s.record(id);
    lemma_purchase_index(r.purchases, buyer);
    let i = purchase_index(r.purchases, buyer);
    let nr = n.record(id);
    assert(nr.wf());
    lemma_purchase_index_unique(nr.purchases, buyer, i);
}

/// A refund pays back exactly what the buyer paid and did not get back.
pub proof fn lemma_refund_returns_payment(s: ManagerView, buyer: Address, id: u32)
    requires
        s.wf(),
        s.claim_refund(buyer, id) is Ok,
    ensures
        ({
            let r = s.record(id);
            let i = purchase_index(r.purchases, buyer);
            &&& s.claim_refund(buyer, id)->Ok_0.1 == r.purchases[i].purchase.total_paid
            &&& s.claim_refund(buyer, id)->Ok_0.0.record(id).balance == r.balance - r.purchases[i].purchase.total_paid
        }),
{
}

/// The proceeds are withdrawn at most once: after a successful withdrawal
/// every later one is refused.
pub proof fn lemma_withdraw_at_most_once(s: ManagerView, id: u32, now: u64, later: u64)
    requires
        s.wf(),
        s.withdraw_funds(id, now) is Ok,
        now <= later,
    ensures
        s.withdraw_funds(id, now)->Ok_0.0.withdraw_funds(id, later) == Err::<(ManagerView, i128), Error>(Error::FundsAlreadyWithdrawn),
        s.withdraw_funds(id, now)->Ok_0.0.record(id).balance == 0,
{
}

/// Joining a waitlist puts the user last, at the place returned; joining
/// again is refused, and nobody else moves.
pub proof fn lemma_join_waitlist_position(s: ManagerView, user: Address, id: u32, other: Address)
    requires
        s.wf(),
        s.join_waitlist(user, id) is Ok,
        other != user,
    ensures
        ({
            let (n, place) = s.join_waitlist(user, id)->Ok_0;
            &&& n.waitlist_position(id, user) == place
            &&& place == s.record(id).waitlist.len() + 1
            &&& n.join_waitlist(user, id) == Err::<(ManagerView, u32), Error>(Error::AlreadyOnWaitlist)
            &&& n.waitlist_position(id, other) == s.waitlist_position(id, other)
        }),
{
    let n = s.join_waitlist(user, id)->Ok_0.0;
    lemma_ledger_join_waitlist_keeps_wf(s, user, id);
    let w = s.record(id).waitlist;
    let nw = n.record(id).waitlist;
    assert(n.record(id).wf());
    lemma_waitlist_position_at(nw, w.len() as int);
    assert(nw[w.len() as int] == user);
    assert(nw.contains(user));
    if w.contains(other) {
        let k = w.index_of(other);
        assert(s.record(id).wf());
        lemma_waitlist_position_at(w, k);
        lemma_waitlist_position_at(nw, k);
        assert(nw[k] == w[k]);
    } else {
        assert(!nw.contains(other)) by {
            if nw.contains(other) {
                let k = nw.index_of(other);
                assert(w[k] == other);
            }
        }
    }
}

/// A returned ticket goes to the first user in line: that user leaves the
/// waitlist, everyone behind moves up one place, and the event has one
/// ticket fewer sold.
pub proof fn lemma_return_promotes_first_waiting(s: ManagerView, buyer: Address, id: u32, tier_index: u32, k: int)
    requires
        s.wf(),
        s.return_ticket(buyer, id, tier_index) is Ok,
        0 < k < s.record(id).waitlist.len(),
    ensures
        ({
            let w = s.record(id).waitlist;
            let (n, (back, promoted)) = s.return_ticket(buyer, id, tier_index)->Ok_0;
            &&& promoted == Some(w[0])
            &&& n.waitlist_position(id, w[0]) == 0
            &&& n.waitlist_position(id, w[k]) == s.waitlist_position(id, w[k]) - 1
            &&& n.record(id).event.tickets_sold == s.record(id).event.tickets_sold - 1
        }),
{
    let n = s.return_ticket(buyer, id, tier_index)->Ok_0.0;
    lemma_ledger_return_ticket_keeps_wf(s, buyer, id, tier_index);
    let w = s.record(id).waitlist;
    let nw = n.record(id).waitlist;
    assert(s.record(id).wf());
    assert(n.record(id).wf());
    lemma_waitlist_position_at(w, k);
    lemma_waitlist_position_at(nw, k - 1);
    assert(nw[k - 1] == w[k]);
    let r = s.record(id);
    assert(r.tiers[tier_index as int].sold_quantity <= r.tiers[tier_index as int].total_quantity);
    lemma_sale_within_capacity(r, tier_index as int, 0);
    assert(!nw.contains(w[0])) by {
        if nw.contains(w[0]) {
            let j = nw.index_of(w[0]);
            assert(nw[j] == w[j + 1]);
        }
    }
}

/// Once an event is cancelled, nothing more is sold, returned, queued,
/// discounted or withdrawn, while every buyer who has not been refunded
/// can claim a refund of what they paid.
pub proof fn lemma_cancel_closes_event(
    s: ManagerView,
    id: u32,
    buyer: Address,
    tier_index: u32,
    quantity: u128,
    code: Seq<char>,
    percentage: u32,
    max_uses: u32,
    expiration: u64,
    now: u64,
)
    requires
        s.wf(),
        s.cancel_event(id) is Ok,
    ensures
        ({
            let n = s.cancel_event(id)->Ok_0.0;
            let p = n.record(id).purchases;
            &&& n.purchase_ticket(buyer, id, tier_index) == Err::<(ManagerView, i128), Error>(Error::EventCanceled)
            &&& n.purchase_tickets(buyer, id, quantity) == Err::<(ManagerView, i128), Error>(Error::EventCanceled)
            &&& n.purchase_ticket_with_discount(buyer, id, tier_index, code, now) == Err::<(ManagerView, i128), Error>(Error::EventCanceled)
            &&& n.return_ticket(buyer, id, tier_index) == Err::<(ManagerView, (i128, Option<Address>)), Error>(Error::EventCanceled)
            &&& n.join_waitlist(buyer, id) == Err::<(ManagerView, u32), Error>(Error::EventCanceled)
            &&& n.create_discount(id, code, percentage, max_uses, expiration, now) == Err::<(ManagerView, ()), Error>(Error::EventCanceled)
            &&& n.withdraw_funds(id, now) == Err::<(ManagerView, i128), Error>(Error::EventCanceled)
            &&& n.cancel_event(id) == Err::<(ManagerView, ()), Error>(Error::EventCanceled)
            &&& n.record(id).waitlist.len() == 0
            &&& (purchase_index(p, buyer) >= 0 && !p[purchase_index(p, buyer)].refunded) ==> n.claim_refund(buyer, id)
                == Ok::<(ManagerView, i128), Error>(
                (n.claim_refund(buyer, id)->Ok_0.0, p[purchase_index(p, buyer)].purchase.total_paid),
            )
        }),
{
}

/// A successful discounted purchase uses up one use of a limited code and
/// none of an unlimited one.
pub proof fn lemma_discount_use(s: ManagerView, buyer: Address, id: u32, tier_index: u32, code: Seq<char>, now: u64)
    requires
        s.wf(),
        s.purchase_ticket_with_discount(buyer, id, tier_index, code, now) is Ok,
    ensures
        ({
            let d = s.record(id).discounts;
            let nd = s.purchase_ticket_with_discount(buyer, id, tier_index, code, now)->Ok_0.0.record(id).discounts;
            let i = discount_index(d, code);
            &&& discount_index(nd, code) == i
            &&& nd[i].uses_remaining == if d[i].max_uses > 0 {
                d[i].uses_remaining - 1
            } else {
                d[i].uses_remaining as int
            }
            &&& nd[i].max_uses == d[i].max_uses
        }),
{
    let n = s.purchase_ticket_with_discount(buyer, id, tier_index, code, now)->Ok_0.0;
    lemma_ledger_purchase_with_discount_keeps_wf(s, buyer, id, tier_index, code, now);
    let d = s.record(id).discounts;
    let i = discount_index(d, code);
    assert(n.record(id).wf());
    lemma_discount_index_unique(n.record(id).discounts, code, i);
}

/// A discount never raises a price, and a full discount makes it free.
pub proof fn lemma_discount_bounds(price: int, percentage: int)
    requires
        price >= 0,
        0 <= percentage <= 100,
    ensures
        0 <= discounted_price(price, percentage) <= price,
        discounted_price(price, 100) == 0,
        discounted_price(price, 0) == price,
{
    assert(price * (100 - percentage) <= price * 100) by (nonlinear_arith)
        requires
            price >= 0,
            percentage >= 0,
    ;
    assert(price * (100 - percentage) >= 0) by (nonlinear_arith)
        requires
            price >= 0,
            percentage <= 100,
    ;
}

/// A group never pays more than its tickets' full price.
pub proof fn lemma_group_cost_bounds(unit: int, quantity: int)
    requires
        unit >= 0,
        quantity >= 0,
    ensures
        0 <= group_cost(unit, quantity) <= quantity * unit,
{
    assert(quantity * unit >= 0) by (nonlinear_arith)
        requires
            unit >= 0,
            quantity >= 0,
    ;
    assert(quantity * unit * 9500 <= quantity * unit * 10000) by (nonlinear_arith)
        requires
            quantity * unit >= 0,
    ;
}


/// A new event reads back as it was created: with the organiser, dates,
/// price and token given, its tiers (one "General" tier when none were
/// asked for), all of their tickets as its capacity, nothing sold, open,
/// and with the id that is the number of events before it.
pub proof fn lemma_created_event_reads_back(s: ManagerView, p: CreateEventParams, now: u64, ticket_nft: Address)
    requires
        s.wf(),
        s.create_event(p, now, ticket_nft) is Ok,
    ensures
        ({
            let (n, id) = s.create_event(p, now, ticket_nft)->Ok_0;
            let r = n.record(id);
            &&& id == s.events.len()
            &&& n.events.len() == s.events.len() + 1
            &&& r.event.id == id
            &&& r.event.organizer == p.organizer
            &&& r.event.theme == p.theme@
            &&& r.event.event_type == p.event_type@
            &&& r.event.start_date == p.start_date
            &&& r.event.end_date == p.end_date
            &&& r.event.ticket_price == p.ticket_price
            &&& r.event.payment_token == p.payment_token
            &&& r.event.ticket_nft == ticket_nft
            &&& r.event.tickets_sold == 0
            &&& !r.event.is_canceled
            &&& r.tiers == initial_tiers(p)
            &&& r.event.total_tickets == if p.tiers@.len() == 0 {
                p.total_tickets as int
            } else {
                config_capacity(p.tiers@)
            }
            &&& forall|i: int| 0 <= i < s.events.len() ==> #[trigger] n.events[i] == s.events[i]
        }),
{
    lemma_initial_capacity(p);
    lemma_create_event_keeps_wf(s, p, now, ticket_nft);
    let n = s.create_event(p, now, ticket_nft)->Ok_0.0;
    let id = s.events.len() as u32;
    assert(n.events[id as int].wf());
    lemma_seq_sum_bounds(capacities(initial_tiers(p)));
}

/// A ticket sale adds one to the event's count and to its tier's, and
/// leaves every other tier as it was.
pub proof fn lemma_purchase_ticket_counts(s: ManagerView, buyer: Address, id: u32, tier_index: u32, j: int)
    requires
        s.wf(),
        s.purchase_ticket(buyer, id, tier_index) is Ok,
        0 <= j < s.record(id).tiers.len(),
    ensures
        ({
            let (n, price) = s.purchase_ticket(buyer, id, tier_index)->Ok_0;
            let r = s.record(id);
            &&& price == r.tiers[tier_index as int].price
            &&& n.record(id).event.tickets_sold == r.event.tickets_sold + 1
            &&& n.record(id).tiers[j].sold_quantity == if j == tier_index {
                r.tiers[j].sold_quantity + 1
            } else {
                r.tiers[j].sold_quantity as int
            }
            &&& n.record(id).tiers.len() == r.tiers.len()
        }),
{
    let r = s.record(id);
    assert(r.wf());
    assert(r.tiers[tier_index as int].sold_quantity <= r.tiers[tier_index as int].total_quantity);
    lemma_sale_within_capacity(r, tier_index as int, 1);
}


/// What `buyer` has paid in all for an event's tickets, by its purchases.
pub open spec fn paid_by(purchases: Seq<PurchaseEntry>, buyer: Address) -> int {
    let i = purchase_index(purchases, buyer);
    if i >= 0 {
        purchases[i].purchase.total_paid as int
    } else {
        0
    }
}

/// How many tickets of an event `buyer` holds, by its purchases.
pub open spec fn held_by(purchases: Seq<PurchaseEntry>, buyer: Address) -> int {
    let i = purchase_index(purchases, buyer);
    if i >= 0 {
        purchases[i].purchase.quantity as int
    } else {
        0
    }
}

/// A sale of `quantity` tickets for `cost` adds them to what the buyer
/// holds and `cost` to what the buyer paid and to the event's balance.
proof fn lemma_record_sale_buyer(r: RecordView, buyer: Address, tier: int, quantity: int, cost: int)
    requires
        r.wf(),
        !r.event.is_canceled,
        0 <= tier < r.tiers.len(),
        quantity >= 0,
        cost >= 0,
        r.tiers[tier].sold_quantity + quantity <= r.tiers[tier].total_quantity,
        r.sale_fits(buyer, quantity, cost),
    ensures
        ({
            let n = r.record_sale(buyer, tier, quantity, cost);
            &&& n.wf()
            &&& purchase_index(n.purchases, buyer) >= 0
            &&& paid_by(n.purchases, buyer) == paid_by(r.purchases, buyer) + cost
            &&& held_by(n.purchases, buyer) == held_by(r.purchases, buyer) + quantity
            &&& n.balance == r.balance + cost
        }),
{
    lemma_record_sale_wf(r, buyer, tier, quantity, cost);
    let n = r.record_sale(buyer, tier, quantity, cost);
    lemma_purchase_index(r.purchases, buyer);
    let i = purchase_index(r.purchases, buyer);
    assert(r.balance >= 0);
    if i >= 0 {
        lemma_purchase_index_unique(n.purchases, buyer, i);
        assert(r.purchases[i].purchase.total_paid >= 0);
    } else {
        lemma_purchase_index_unique(n.purchases, buyer, r.purchases.len() as int);
    }
}

/// Group pricing: a group of at least five tickets pays 95% of the full
/// price, rounded down; a smaller group pays the full price.
pub proof fn lemma_group_cost_is_five_percent_off(unit: int, quantity: int)
    requires
        unit >= 0,
        quantity >= 0,
    ensures
        quantity >= 5 ==> group_cost(unit, quantity) == quantity * unit * 95 / 100,
        quantity < 5 ==> group_cost(unit, quantity) == quantity * unit,
{
    if quantity >= 5 {
        assert(quantity * unit >= 0) by (nonlinear_arith)
            requires
                unit >= 0,
                quantity >= 0,
        ;
        let f = quantity * unit;
        assert(f * 9500 / 10000 == f * 95 / 100) by (nonlinear_arith)
            requires
                f >= 0,
        ;
    }
}

/// A group purchase charges the first tier's price for each ticket, 5% off
/// for groups of five or more (rounded down), adds the tickets and the
/// charge to what the buyer holds and paid, the charge to the balance, and
/// the tickets to the event's and the first tier's sold counts.
pub proof fn lemma_purchase_tickets_charge(s: ManagerView, buyer: Address, id: u32, quantity: u128)
    requires
        s.wf(),
        s.purchase_tickets(buyer, id, quantity) is Ok,
    ensures
        ({
            let r = s.record(id);
            let (n, cost) = s.purchase_tickets(buyer, id, quantity)->Ok_0;
            let unit = r.tiers[0].price as int;
            let nr = n.record(id);
            &&& quantity >= 5 ==> cost == quantity * unit * 95 / 100
            &&& quantity < 5 ==> cost == quantity * unit
            &&& paid_by(nr.purchases, buyer) == paid_by(r.purchases, buyer) + cost
            &&& held_by(nr.purchases, buyer) == held_by(r.purchases, buyer) + quantity
            &&& nr.balance == r.balance + cost
            &&& nr.event.tickets_sold == r.event.tickets_sold + quantity
            &&& nr.tiers[0].sold_quantity == r.tiers[0].sold_quantity + quantity
        }),
{
    let r = s.record(id);
    assert(r.wf());
    let unit = r.tiers[0].price as int;
    assert(r.tiers[0].sold_quantity <= r.tiers[0].total_quantity);
    lemma_costs_nonneg(unit, quantity as int, 0);
    lemma_group_cost_is_five_percent_off(unit, quantity as int);
    lemma_record_sale_buyer(r, buyer, 0, quantity as int, group_cost(unit, quantity as int));
    lemma_sale_within_capacity(r, 0, quantity as int);
}

/// A discounted purchase of a ticket of tier `tier_index` charges that
/// tier's price with the code's percentage off (rounded down), and adds one
/// ticket and the charge to what the buyer holds and paid, and the charge
/// to the balance.
pub proof fn lemma_purchase_with_discount_charge(
    s: ManagerView,
    buyer: Address,
    id: u32,
    tier_index: u32,
    code: Seq<char>,
    now: u64,
)
    requires
        s.wf(),
        s.purchase_ticket_with_discount(buyer, id, tier_index, code, now) is Ok,
    ensures
        ({
            let r = s.record(id);
            let (n, cost) = s.purchase_ticket_with_discount(buyer, id, tier_index, code, now)->Ok_0;
            let d = discount_index(r.discounts, code);
            let nr = n.record(id);
            &&& 0 <= d < r.discounts.len()
            &&& r.discounts[d].code == code
            &&& cost == r.tiers[tier_index as int].price * (100 - r.discounts[d].percentage) / 100
            &&& paid_by(nr.purchases, buyer) == paid_by(r.purchases, buyer) + cost
            &&& held_by(nr.purchases, buyer) == held_by(r.purchases, buyer) + 1
            &&& nr.balance == r.balance + cost
            &&& nr.tiers[tier_index as int].sold_quantity == r.tiers[tier_index as int].sold_quantity + 1
        }),
{
    let r = s.record(id);
    assert(r.wf());
    let t = tier_index as int;
    let d = discount_index(r.discounts, code);
    let price = r.tiers[t].price as int;
    assert(r.tiers[t].sold_quantity <= r.tiers[t].total_quantity);
    assert(1 <= r.discounts[d].percentage <= 100);
    lemma_costs_nonneg(price, 1, r.discounts[d].percentage as int);
    let cost = discounted_price(price, r.discounts[d].percentage as int);
    lemma_record_sale_buyer(r, buyer, t, 1, cost);
}

/// A returned ticket is paid back at its tier's price, or at what the
/// buyer has left paid when that is less; the buyer keeps one ticket fewer
/// and has that much less paid, and the balance drops by that much.
pub proof fn lemma_return_ticket_payback(s: ManagerView, buyer: Address, id: u32, tier_index: u32)
    requires
        s.wf(),
        s.return_ticket(buyer, id, tier_index) is Ok,
    ensures
        ({
            let r = s.record(id);
            let (n, (back, promoted)) = s.return_ticket(buyer, id, tier_index)->Ok_0;
            let price = r.tiers[tier_index as int].price as int;
            let paid = paid_by(r.purchases, buyer);
            let nr = n.record(id);
            &&& back == (if price <= paid { price } else { paid })
            &&& 0 <= back <= price
            &&& back <= paid
            &&& paid_by(nr.purchases, buyer) == paid - back
            &&& held_by(nr.purchases, buyer) == held_by(r.purchases, buyer) - 1
            &&& nr.balance == r.balance - back
        }),
{
    let r = s.record(id);
    assert(r.wf());
    lemma_ledger_return_ticket_keeps_wf(s, buyer, id, tier_index);
    let n = s.return_ticket(buyer, id, tier_index)->Ok_0.0;
    assert(n.record(id).wf());
    lemma_purchase_index(r.purchases, buyer);
    let i = purchase_index(r.purchases, buyer);
    assert(r.purchases[i].purchase.total_paid >= 0);
    assert(r.tiers[tier_index as int].sold_quantity <= r.tiers[tier_index as int].total_quantity);
    lemma_purchase_index_unique(n.record(id).purchases, buyer, i);
}

/// Only a sold-out event takes users on its waitlist: when joining
/// succeeds, every tier, and so the event, has sold all its tickets.
pub proof fn lemma_join_waitlist_only_when_sold_out(s: ManagerView, user: Address, id: u32, j: int)
    requires
        s.wf(),
        s.join_waitlist(user, id) is Ok,
        0 <= j < s.record(id).tiers.len(),
    ensures
        s.record(id).event.tickets_sold == s.record(id).event.total_tickets,
        s.record(id).tiers[j].sold_quantity == s.record(id).tiers[j].total_quantity,
{
    let r = s.record(id);
    assert(r.wf());
    assert forall|k: int| 0 <= k < r.tiers.len() implies #[trigger] sold_counts(r.tiers)[k] <= capacities(r.tiers)[k] by {
        assert(r.tiers[k].sold_quantity <= r.tiers[k].total_quantity);
    }
    lemma_seq_sum_le(sold_counts(r.tiers), capacities(r.tiers));
    lemma_seq_sum_eq_pointwise(sold_counts(r.tiers), capacities(r.tiers), j);
}

/// Joining the waitlist of an open, sold-out event succeeds for a user not
/// yet on it (while the waitlist has room for a `u32` place).
pub proof fn lemma_join_waitlist_accepted(s: ManagerView, user: Address, id: u32)
    requires
        s.wf(),
        id < s.events.len(),
        !s.record(id).event.is_canceled,
        s.record(id).event.tickets_sold == s.record(id).event.total_tickets,
        !s.record(id).waitlist.contains(user),
        s.record(id).waitlist.len() < u32::MAX,
    ensures
        s.join_waitlist(user, id) is Ok,
{
}

/// Which events are created: an initialised manager creates an event
/// exactly when it starts no earlier than now, ends after it starts, has no
/// negative price (free tickets are fine), and has a positive number of
/// tickets that fits a `u128` (its tiers' quantities when it has tiers, its
/// ticket count otherwise), while there is room for another id.
pub proof fn lemma_create_event_accepts(s: ManagerView, p: CreateEventParams, now: u64, ticket_nft: Address)
    ensures
        s.create_event(p, now, ticket_nft) is Ok <==> {
            &&& s.ticket_factory is Some
            &&& p.start_date >= now
            &&& p.end_date > p.start_date
            &&& p.ticket_price >= 0
            &&& forall|j: int| 0 <= j < p.tiers@.len() ==> #[trigger] p.tiers@[j].price >= 0
            &&& p.tiers@.len() == 0 ==> p.total_tickets > 0
            &&& p.tiers@.len() > 0 ==> 0 < config_capacity(p.tiers@) <= u128::MAX
            &&& s.events.len() < u32::MAX
        },
        s.create_event(p, now, ticket_nft) is Ok ==> s.create_event(p, now, ticket_nft)->Ok_0.1 == s.events.len(),
{
    let tiers = p.tiers@;
    let prices_ok = forall|j: int| 0 <= j < tiers.len() ==> #[trigger] tiers[j].price >= 0;
    let some_negative = exists|j: int| 0 <= j < tiers.len() && #[trigger] tiers[j].price < 0;
    assert(prices_ok <==> !some_negative) by {
        if !some_negative {
            assert forall|j: int| 0 <= j < tiers.len() implies #[trigger] tiers[j].price >= 0 by {
                if tiers[j].price < 0 {
                    assert(some_negative);
                }
            }
        }
    }
    let cond = {
        &&& s.ticket_factory is Some
        &&& p.start_date >= now
        &&& p.end_date > p.start_date
        &&& p.ticket_price >= 0
        &&& prices_ok
        &&& tiers.len() == 0 ==> p.total_tickets > 0
        &&& tiers.len() > 0 ==> 0 < config_capacity(tiers) <= u128::MAX
        &&& s.events.len() < u32::MAX
    };
    let caps = tiers.map_values(|c: TierConfig| c.total_quantity as int);
    assert forall|k: int| 0 <= k < caps.len() implies 0 <= #[trigger] caps[k] by {}
    lemma_seq_sum_bounds(caps);
    if s.create_event_error(p, now) is None {
        assert(cond);
        assert(s.create_event(p, now, ticket_nft) is Ok);
        assert(s.events.len() < u32::MAX);
    } else {
        assert(!cond);
        assert(s.create_event(p, now, ticket_nft) is Err);
    }
}


/// A ticket sale charges the tier's price, and adds one ticket and the
/// price to what the buyer holds and paid, and the price to the balance.
pub proof fn lemma_purchase_ticket_charge(s: ManagerView, buyer: Address, id: u32, tier_index: u32)
    requires
        s.wf(),
        s.purchase_ticket(buyer, id, tier_index) is Ok,
    ensures
        ({
            let r = s.record(id);
            let (n, price) = s.purchase_ticket(buyer, id, tier_index)->Ok_0;
            let nr = n.record(id);
            &&& price == r.tiers[tier_index as int].price
            &&& paid_by(nr.purchases, buyer) == paid_by(r.purchases, buyer) + price
            &&& held_by(nr.purchases, buyer) == held_by(r.purchases, buyer) + 1
            &&& nr.balance == r.balance + price
        }),
{
    let r = s.record(id);
    assert(r.wf());
    let t = tier_index as int;
    assert(r.tiers[t].sold_quantity <= r.tiers[t].total_quantity);
    lemma_record_sale_buyer(r, buyer, t, 1, r.tiers[t].price as int);
}

/// A withdrawal hands over the whole balance of an ended, open event and
/// leaves nothing behind; it is refused before the end date.
pub proof fn lemma_withdraw_hands_over_balance(s: ManagerView, id: u32, now: u64)
    requires
        s.wf(),
        id < s.events.len(),
    ensures
        now <= s.record(id).event.end_date ==> s.withdraw_funds(id, now) is Err,
        s.withdraw_funds(id, now) is Ok ==> {
            &&& s.withdraw_funds(id, now)->Ok_0.1 == s.record(id).balance
            &&& s.withdraw_funds(id, now)->Ok_0.0.record(id).balance == 0
            &&& now > s.record(id).event.end_date
            &&& !s.record(id).event.is_canceled
        },
        (!s.record(id).event.is_canceled && now > s.record(id).event.end_date && !s.record(id).withdrawn)
            ==> s.withdraw_funds(id, now) is Ok,
{
}

/// Which discount codes are added, and that an added code reads back as
/// given, with all its uses left: an open event takes a code it does not
/// have yet, with a percentage from 1 to 100 and an expiry that is 0 (never)
/// or later than now.
pub proof fn lemma_create_discount_accepts(
    s: ManagerView,
    id: u32,
    code: Seq<char>,
    percentage: u32,
    max_uses: u32,
    expiration: u64,
    now: u64,
)
    requires
        s.wf(),
        id < s.events.len(),
    ensures
        s.create_discount(id, code, percentage, max_uses, expiration, now) is Ok <==> {
            &&& !s.record(id).event.is_canceled
            &&& 1 <= percentage <= 100
            &&& expiration == 0 || expiration > now
            &&& forall|k: int| 0 <= k < s.record(id).discounts.len() ==> #[trigger] s.record(id).discounts[k].code != code
        },
        s.create_discount(id, code, percentage, max_uses, expiration, now) is Ok ==> {
            let nd = s.create_discount(id, code, percentage, max_uses, expiration, now)->Ok_0.0.record(id).discounts;
            let i = discount_index(nd, code);
            &&& 0 <= i < nd.len()
            &&& nd[i].code == code
            &&& nd[i].percentage == percentage
            &&& nd[i].max_uses == max_uses
            &&& nd[i].uses_remaining == max_uses
            &&& nd[i].expiration == expiration
        },
{
    let d = s.record(id).discounts;
    let fresh = forall|k: int| 0 <= k < d.len() ==> #[trigger] d[k].code != code;
    assert(fresh <==> discount_index(d, code) < 0) by {
        if discount_index(d, code) >= 0 {
            let j = discount_index(d, code);
            assert(d[j].code == code);
        }
    }
    if s.create_discount(id, code, percentage, max_uses, expiration, now) is Ok {
        lemma_ledger_create_discount_keeps_wf(s, id, code, percentage, max_uses, expiration, now);
        let n = s.create_discount(id, code, percentage, max_uses, expiration, now)->Ok_0.0;
        assert(n.record(id).wf());
        lemma_discount_index_unique(n.record(id).discounts, code, d.len() as int);
    }
}

} // verus!
