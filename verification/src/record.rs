//! The executable state of one event, and the requests on it. Each request
//! does exactly what the matching function of [`RecordView`] says.
use vstd::prelude::*;
use crate::types::{Address, BuyerPurchase, CreateEventParams, Discount, Error, Event, PurchaseEntry, Tier};
use crate::model::{
    capacities, discount_index, initial_tiers, outcome, purchase_index, seq_sum, waitlist_position, ManagerView,
    RecordView,
};
use crate::pricing::{discount_price, group_price};
use crate::laws::{
    lemma_cancel_keeps_wf, lemma_claim_refund_keeps_wf, lemma_costs_nonneg, lemma_create_discount_keeps_wf,
    lemma_join_waitlist_keeps_wf, lemma_purchase_ticket_keeps_wf, lemma_purchase_tickets_keeps_wf,
    lemma_purchase_with_discount_keeps_wf, lemma_return_ticket_keeps_wf, lemma_sale_within_capacity,
    lemma_withdraw_keeps_wf,
};

verus! {

/// One event with its tiers, buyers, waitlist, discount codes and money.
pub(crate) struct EventRecord {
    pub(crate) event: Event,
    pub(crate) tiers: Vec<Tier>,
    pub(crate) purchases: Vec<PurchaseEntry>,
    pub(crate) waitlist: Vec<Address>,
    pub(crate) discounts: Vec<Discount>,
    pub(crate) balance: i128,
    pub(crate) withdrawn: bool,
}

impl View for EventRecord {
    type V = RecordView;

    closed spec fn view(&self) -> RecordView {
        RecordView {
            event: self.event@,
            tiers: self.tiers@.map_values(|t: Tier| t@),
            purchases: self.purchases@,
            waitlist: self.waitlist@,
            discounts: self.discounts@.map_values(|d: Discount| d@),
            balance: self.balance,
            withdrawn: self.withdrawn,
        }
    }
}

impl EventRecord {
    /// Where `buyer`'s purchase stands.
    pub(crate) fn find_purchase(&self, buyer: Address) -> (r: Option<usize>)
        requires
            self@.wf(),
        ensures
            match r {
                Some(i) => i < self.purchases@.len() && i as int == purchase_index(self@.purchases, buyer),
                None => purchase_index(self@.purchases, buyer) < 0,
            },
    {
        let mut i: usize = 0;
        while i < self.purchases.len()
            invariant
                self@.wf(),
                i <= self.purchases@.len(),
                forall|k: int| 0 <= k < i ==> (#[trigger] self.purchases@[k]).buyer != buyer,
            decreases self.purchases@.len() - i,
        {
            if self.purchases[i].buyer == buyer {
                proof {
                    let p = self@.purchases;
                    assert(p[i as int].buyer == buyer);
                    let j = purchase_index(p, buyer);
                    assert(0 <= j < p.len() && p[j].buyer == buyer);
                    if j < i {
                        assert(p[j].buyer != p[i as int].buyer);
                    } else if j > i {
                        assert(p[i as int].buyer != p[j].buyer);
                    }
                }
                return Some(i);
            }
            i = i + 1;
        }
        None
    }

    /// Where the discount with code `code` stands.
    pub(crate) fn find_discount(&self, code: &String) -> (r: Option<usize>)
        requires
            self@.wf(),
        ensures
            match r {
                Some(i) => i < self.discounts@.len() && i as int == discount_index(self@.discounts, code@),
                None => discount_index(self@.discounts, code@) < 0,
            },
    {
        let mut i: usize = 0;
        while i < self.discounts.len()
            invariant
                self@.wf(),
                i <= self.discounts@.len(),
                forall|k: int| 0 <= k < i ==> (#[trigger] self@.discounts[k]).code != code@,
            decreases self.discounts@.len() - i,
        {
            if self.discounts[i].code == *code {
                proof {
                    let d = self@.discounts;
                    assert(d[i as int].code == code@);
                    let j = discount_index(d, code@);
                    assert(0 <= j < d.len() && d[j].code == code@);
                    if j < i {
                        assert(d[j].code != d[i as int].code);
                    } else if j > i {
                        assert(d[i as int].code != d[j].code);
                    }
                }
                return Some(i);
            }
            i = i + 1;
        }
        proof {
            assert forall|k: int| 0 <= k < self@.discounts.len() implies self@.discounts[k].code != code@ by {
                assert(self@.discounts[k].code != code@);
            }
        }
        None
    }

    /// Where `user` stands on the waitlist.
    pub(crate) fn find_waiting(&self, user: Address) -> (r: Option<usize>)
        requires
            self@.wf(),
        ensures
            match r {
                Some(i) => i < self.waitlist@.len() && self@.waitlist.contains(user) && i as int
                    == self@.waitlist.index_of(user),
                None => !self@.waitlist.contains(user),
            },
    {
        let mut i: usize = 0;
        while i < self.waitlist.len()
            invariant
                self@.wf(),
                i <= self.waitlist@.len(),
                forall|k: int| 0 <= k < i ==> self.waitlist@[k] != user,
            decreases self.waitlist@.len() - i,
        {
            if self.waitlist[i] == user {
                proof {
                    let w = self@.waitlist;
                    assert(w[i as int] == user);
                    assert(w.contains(user));
                    let j = w.index_of(user);
                    assert(0 <= j < w.len() && w[j] == user);
                }
                return Some(i);
            }
            i = i + 1;
        }
        None
    }

    /// Sells `quantity` tickets of tier `tier` to `buyer` for `cost`.
    fn sell(&mut self, buyer: Address, tier: usize, quantity: u128, cost: i128) -> (r: Result<i128, Error>)
        requires
            old(self)@.wf(),
            !old(self)@.event.is_canceled,
            tier < old(self)@.tiers.len(),
            cost >= 0,
        ensures
            outcome(r, final(self)@) == old(self)@.sell(buyer, tier as int, quantity as int, cost as int),
            r is Err ==> final(self)@ == old(self)@,
    {
        let ghost pre = self@;
        let sold = self.tiers[tier].sold_quantity;
        let total = self.tiers[tier].total_quantity;
        assert(pre.tiers[tier as int].sold_quantity <= pre.tiers[tier as int].total_quantity);
        if quantity > total - sold {
            return Err(Error::TierSoldOut);
        }
        let found = self.find_purchase(buyer);
        let new_balance = match self.balance.checked_add(cost) {
            Some(b) => b,
            None => {
                return Err(Error::ArithmeticOverflow);
            },
        };
        let entry = match found {
            Some(i) => {
                let e = self.purchases[i];
                let q = match e.purchase.quantity.checked_add(quantity) {
                    Some(q) => q,
                    None => {
                        return Err(Error::ArithmeticOverflow);
                    },
                };
                let p = match e.purchase.total_paid.checked_add(cost) {
                    Some(p) => p,
                    None => {
                        return Err(Error::ArithmeticOverflow);
                    },
                };
                PurchaseEntry { purchase: BuyerPurchase { quantity: q, total_paid: p }, ..e }
            },
            None => PurchaseEntry {
                buyer,
                purchase: BuyerPurchase { quantity, total_paid: cost },
                refunded: false,
            },
        };
        proof {
            lemma_sale_within_capacity(pre, tier as int, quantity as int);
        }
        self.tiers[tier].sold_quantity = sold + quantity;
        self.event.tickets_sold = self.event.tickets_sold + quantity;
        match found {
            Some(i) => {
                self.purchases.set(i, entry);
            },
            None => {
                self.purchases.push(entry);
            },
        }
        self.balance = new_balance;
        proof {
            let spec = pre.record_sale(buyer, tier as int, quantity as int, cost as int);
            assert(self@.tiers =~= spec.tiers);
            assert(self@.purchases =~= spec.purchases);
            assert(self@.discounts =~= spec.discounts);
            assert(self@ =~= spec);
        }
        Ok(cost)
    }
}

impl EventRecord {
    /// Cancels the event and empties its waitlist.
    pub(crate) fn cancel(&mut self) -> (r: Result<(), Error>)
        requires
            old(self)@.wf(),
        ensures
            final(self)@.wf(),
            final(self)@.event.id == old(self)@.event.id,
            outcome(r, final(self)@) == old(self)@.cancel(),
            r is Err ==> final(self)@ == old(self)@,
    {
        if self.event.is_canceled {
            return Err(Error::EventCanceled);
        }
        if self.withdrawn {
            return Err(Error::FundsAlreadyWithdrawn);
        }
        let ghost pre = self@;
        self.event.is_canceled = true;
        self.waitlist = Vec::new();
        proof {
            assert(self@ =~= pre.cancel()->Ok_0.0);
            lemma_cancel_keeps_wf(pre);
        }
        Ok(())
    }

    /// Sells one ticket of tier `tier_index` at its price.
    pub(crate) fn purchase_ticket(&mut self, buyer: Address, tier_index: u32) -> (r: Result<i128, Error>)
        requires
            old(self)@.wf(),
        ensures
            final(self)@.wf(),
            final(self)@.event.id == old(self)@.event.id,
            outcome(r, final(self)@) == old(self)@.purchase_ticket(buyer, tier_index),
            r is Err ==> final(self)@ == old(self)@,
    {
        let ghost pre = self@;
        if self.event.is_canceled {
            return Err(Error::EventCanceled);
        }
        if tier_index as usize >= self.tiers.len() {
            return Err(Error::InvalidTierIndex);
        }
        let t = tier_index as usize;
        let price = self.tiers[t].price;
        assert(pre.tiers[t as int].sold_quantity <= pre.tiers[t as int].total_quantity);
        let r = self.sell(buyer, t, 1, price);
        proof {
            if r is Ok {
                lemma_purchase_ticket_keeps_wf(pre, buyer, tier_index);
            }
        }
        r
    }

    /// Sells `quantity` tickets of the first tier at the group price.
    pub(crate) fn purchase_tickets(&mut self, buyer: Address, quantity: u128) -> (r: Result<i128, Error>)
        requires
            old(self)@.wf(),
        ensures
            final(self)@.wf(),
            final(self)@.event.id == old(self)@.event.id,
            outcome(r, final(self)@) == old(self)@.purchase_tickets(buyer, quantity),
            r is Err ==> final(self)@ == old(self)@,
    {
        let ghost pre = self@;
        if self.event.is_canceled {
            return Err(Error::EventCanceled);
        }
        if quantity == 0 {
            return Err(Error::InvalidQuantity);
        }
        let unit = self.tiers[0].price;
        let sold = self.tiers[0].sold_quantity;
        let total = self.tiers[0].total_quantity;
        assert(pre.tiers[0].sold_quantity <= pre.tiers[0].total_quantity);
        if quantity > total - sold {
            return Err(Error::TierSoldOut);
        }
        let cost = match group_price(unit, quantity) {
            Some(c) => c,
            None => {
                return Err(Error::ArithmeticOverflow);
            },
        };
        proof {
            lemma_costs_nonneg(unit as int, quantity as int, 0);
        }
        let r = self.sell(buyer, 0, quantity, cost);
        proof {
            if r is Ok {
                lemma_purchase_tickets_keeps_wf(pre, buyer, quantity);
            }
        }
        r
    }

    /// Sells one ticket of tier `tier_index` with discount `code` applied.
    pub(crate) fn purchase_with_discount(&mut self, buyer: Address, tier_index: u32, code: &String, now: u64) -> (r: Result<i128, Error>)
        requires
            old(self)@.wf(),
        ensures
            final(self)@.wf(),
            final(self)@.event.id == old(self)@.event.id,
            outcome(r, final(self)@) == old(self)@.purchase_with_discount(buyer, tier_index, code@, now),
            r is Err ==> final(self)@ == old(self)@,
    {
        let ghost pre = self@;
        if self.event.is_canceled {
            return Err(Error::EventCanceled);
        }
        if tier_index as usize >= self.tiers.len() {
            return Err(Error::InvalidTierIndex);
        }
        let t = tier_index as usize;
        let d = match self.find_discount(code) {
            Some(d) => d,
            None => {
                return Err(Error::DiscountNotFound);
            },
        };
        let expiration = self.discounts[d].expiration;
        let max_uses = self.discounts[d].max_uses;
        let remaining = self.discounts[d].uses_remaining;
        let percentage = self.discounts[d].percentage;
        if expiration != 0 && now > expiration {
            return Err(Error::DiscountExpired);
        }
        if max_uses > 0 && remaining == 0 {
            return Err(Error::DiscountExhausted);
        }
        let sold = self.tiers[t].sold_quantity;
        let total = self.tiers[t].total_quantity;
        assert(pre.tiers[t as int].sold_quantity <= pre.tiers[t as int].total_quantity);
        if sold >= total {
            return Err(Error::TierSoldOut);
        }
        let price = self.tiers[t].price;
        assert(1 <= pre.discounts[d as int].percentage <= 100);
        let cost = match discount_price(price, percentage) {
            Some(c) => c,
            None => {
                return Err(Error::ArithmeticOverflow);
            },
        };
        proof {
            lemma_costs_nonneg(price as int, 1, percentage as int);
        }
        let r = self.sell(buyer, t, 1, cost);
        if r.is_ok() && max_uses > 0 {
            assert(pre.discounts[d as int].uses_remaining <= pre.discounts[d as int].max_uses);
            self.discounts[d].uses_remaining = remaining - 1;
        }
        proof {
            if r is Ok {
                let sold_state = pre.sell(buyer, t as int, 1, cost as int)->Ok_0.0;
                let spec = pre.purchase_with_discount(buyer, tier_index, code@, now)->Ok_0.0;
                assert(self@.discounts =~= spec.discounts);
                assert(self@ =~= spec);
                lemma_purchase_with_discount_keeps_wf(pre, buyer, tier_index, code@, now);
            }
        }
        r
    }

    /// Refunds everything `buyer` paid for this cancelled event.
    pub(crate) fn claim_refund(&mut self, buyer: Address) -> (r: Result<i128, Error>)
        requires
            old(self)@.wf(),
        ensures
            final(self)@.wf(),
            final(self)@.event.id == old(self)@.event.id,
            outcome(r, final(self)@) == old(self)@.claim_refund(buyer),
            r is Err ==> final(self)@ == old(self)@,
    {
        let ghost pre = self@;
        if !self.event.is_canceled {
            return Err(Error::EventNotCanceled);
        }
        let i = match self.find_purchase(buyer) {
            Some(i) => i,
            None => {
                return Err(Error::NoTicketPurchased);
            },
        };
        let e = self.purchases[i];
        if e.refunded {
            return Err(Error::AlreadyRefunded);
        }
        proof {
            lemma_claim_refund_keeps_wf(pre, buyer);
        }
        let paid = e.purchase.total_paid;
        self.purchases.set(i, PurchaseEntry { refunded: true, ..e });
        self.balance = self.balance - paid;
        proof {
            assert(self@ =~= pre.claim_refund(buyer)->Ok_0.0);
        }
        Ok(paid)
    }

    /// Hands the organiser this event's balance once it has ended.
    pub(crate) fn withdraw_funds(&mut self, now: u64) -> (r: Result<i128, Error>)
        requires
            old(self)@.wf(),
        ensures
            final(self)@.wf(),
            final(self)@.event.id == old(self)@.event.id,
            outcome(r, final(self)@) == old(self)@.withdraw_funds(now),
            r is Err ==> final(self)@ == old(self)@,
    {
        let ghost pre = self@;
        if self.event.is_canceled {
            return Err(Error::EventCanceled);
        }
        if now <= self.event.end_date {
            return Err(Error::EventNotEnded);
        }
        if self.withdrawn {
            return Err(Error::FundsAlreadyWithdrawn);
        }
        let amount = self.balance;
        self.withdrawn = true;
        self.balance = 0;
        proof {
            assert(self@ =~= pre.withdraw_funds(now)->Ok_0.0);
            lemma_withdraw_keeps_wf(pre, now);
        }
        Ok(amount)
    }

    /// Puts `user` at the end of this sold-out event's waitlist.
    pub(crate) fn join_waitlist(&mut self, user: Address) -> (r: Result<u32, Error>)
        requires
            old(self)@.wf(),
        ensures
            final(self)@.wf(),
            final(self)@.event.id == old(self)@.event.id,
            outcome(r, final(self)@) == old(self)@.join_waitlist(user),
            r is Err ==> final(self)@ == old(self)@,
    {
        let ghost pre = self@;
        if self.event.is_canceled {
            return Err(Error::EventCanceled);
        }
        if self.event.tickets_sold < self.event.total_tickets {
            return Err(Error::EventNotSoldOut);
        }
        if self.find_waiting(user).is_some() {
            return Err(Error::AlreadyOnWaitlist);
        }
        let len = self.waitlist.len();
        if len >= u32::MAX as usize {
            return Err(Error::ArithmeticOverflow);
        }
        self.waitlist.push(user);
        proof {
            assert(self@ =~= pre.join_waitlist(user)->Ok_0.0);
            lemma_join_waitlist_keeps_wf(pre, user);
        }
        Ok((len + 1) as u32)
    }

    /// Takes one ticket of tier `tier_index` back from `buyer` and promotes
    /// the first user on the waitlist.
    pub(crate) fn return_ticket(&mut self, buyer: Address, tier_index: u32) -> (r: Result<(i128, Option<Address>), Error>)
        requires
            old(self)@.wf(),
        ensures
            final(self)@.wf(),
            final(self)@.event.id == old(self)@.event.id,
            outcome(r, final(self)@) == old(self)@.return_ticket(buyer, tier_index),
            r is Err ==> final(self)@ == old(self)@,
    {
        let ghost pre = self@;
        if self.event.is_canceled {
            return Err(Error::EventCanceled);
        }
        if self.withdrawn {
            return Err(Error::FundsAlreadyWithdrawn);
        }
        if tier_index as usize >= self.tiers.len() {
            return Err(Error::InvalidTierIndex);
        }
        let t = tier_index as usize;
        let i = match self.find_purchase(buyer) {
            Some(i) => i,
            None => {
                return Err(Error::NoTicketPurchased);
            },
        };
        let e = self.purchases[i];
        let sold = self.tiers[t].sold_quantity;
        if e.refunded || e.purchase.quantity == 0 || sold == 0 {
            return Err(Error::NoTicketPurchased);
        }
        let price = self.tiers[t].price;
        let back = if price <= e.purchase.total_paid { price } else { e.purchase.total_paid };
        proof {
            lemma_return_ticket_keeps_wf(pre, buyer, tier_index);
            assert(pre.tiers[t as int].sold_quantity <= pre.tiers[t as int].total_quantity);
            lemma_sale_within_capacity(pre, t as int, 0);
            assert(e.purchase.total_paid >= 0);
        }
        self.tiers[t].sold_quantity = sold - 1;
        self.event.tickets_sold = self.event.tickets_sold - 1;
        self.purchases.set(
            i,
            PurchaseEntry {
                purchase: BuyerPurchase { quantity: e.purchase.quantity - 1, total_paid: e.purchase.total_paid - back },
                ..e
            },
        );
        self.balance = self.balance - back;
        let promoted = if self.waitlist.len() > 0 {
            Some(self.waitlist.remove(0))
        } else {
            None
        };
        proof {
            let spec = pre.return_ticket(buyer, tier_index)->Ok_0.0;
            assert(self@.tiers =~= spec.tiers);
            assert(self@.purchases =~= spec.purchases);
            assert(self@.waitlist =~= spec.waitlist);
            assert(self@ =~= spec);
        }
        Ok((back, promoted))
    }

    /// Adds a discount code to this event.
    pub(crate) fn create_discount(&mut self, code: String, percentage: u32, max_uses: u32, expiration: u64, now: u64) -> (r: Result<(), Error>)
        requires
            old(self)@.wf(),
        ensures
            final(self)@.wf(),
            final(self)@.event.id == old(self)@.event.id,
            outcome(r, final(self)@) == old(self)@.create_discount(code@, percentage, max_uses, expiration, now),
            r is Err ==> final(self)@ == old(self)@,
    {
        let ghost pre = self@;
        if self.event.is_canceled {
            return Err(Error::EventCanceled);
        }
        if percentage == 0 || percentage > 100 {
            return Err(Error::InvalidDiscountPercentage);
        }
        if expiration != 0 && expiration <= now {
            return Err(Error::InvalidExpiration);
        }
        if self.find_discount(&code).is_some() {
            return Err(Error::DiscountCodeExists);
        }
        let ghost code_view = code@;
        self.discounts.push(Discount { code, percentage, max_uses, uses_remaining: max_uses, expiration });
        proof {
            let spec = pre.create_discount(code_view, percentage, max_uses, expiration, now)->Ok_0.0;
            assert(self@.discounts =~= spec.discounts);
            assert(self@ =~= spec);
            lemma_create_discount_keeps_wf(pre, code_view, percentage, max_uses, expiration, now);
        }
        Ok(())
    }
}

impl EventRecord {
    /// A new event `id` made from `p`, with `capacity` tickets in all.
    pub(crate) fn open(p: CreateEventParams, id: u32, ticket_nft: Address, capacity: u128) -> (r: Self)
        requires
            capacity as int == seq_sum(capacities(initial_tiers(p))),
        ensures
            r@ == ManagerView::new_record(p, id, ticket_nft),
    {
        let ghost spec_tiers = initial_tiers(p);
        let mut tiers: Vec<Tier> = Vec::new();
        if p.tiers.len() == 0 {
            tiers.push(Tier { name: "General".to_owned(), price: p.ticket_price, total_quantity: p.total_tickets, sold_quantity: 0 });
        } else {
            let mut i: usize = 0;
            while i < p.tiers.len()
                invariant
                    p.tiers@.len() > 0,
                    spec_tiers == initial_tiers(p),
                    i <= p.tiers@.len(),
                    tiers@.len() == i,
                    forall|k: int| 0 <= k < i ==> (#[trigger] tiers@[k])@ == spec_tiers[k],
                decreases p.tiers@.len() - i,
            {
                let c = &p.tiers[i];
                tiers.push(Tier { name: c.name.clone(), price: c.price, total_quantity: c.total_quantity, sold_quantity: 0 });
                i = i + 1;
            }
        }
        assert(tiers@.map_values(|t: Tier| t@) =~= spec_tiers);
        let event = Event {
            id,
            organizer: p.organizer,
            theme: p.theme,
            event_type: p.event_type,
            start_date: p.start_date,
            end_date: p.end_date,
            ticket_price: p.ticket_price,
            total_tickets: capacity,
            tickets_sold: 0,
            payment_token: p.payment_token,
            ticket_nft,
            is_canceled: false,
        };
        let r = EventRecord {
            event,
            tiers,
            purchases: Vec::new(),
            waitlist: Vec::new(),
            discounts: Vec::new(),
            balance: 0,
            withdrawn: false,
        };
        assert(r@ =~= ManagerView::new_record(p, id, ticket_nft));
        r
    }

    /// A copy of the event.
    pub(crate) fn event_copy(&self) -> (e: Event)
        ensures
            e@ == self@.event,
    {
        self.event.copy()
    }

    /// A copy of the tiers.
    pub(crate) fn tiers_copy(&self) -> (v: Vec<Tier>)
        ensures
            v@.map_values(|t: Tier| t@) =~= self@.tiers,
    {
        let mut v: Vec<Tier> = Vec::new();
        let mut i: usize = 0;
        while i < self.tiers.len()
            invariant
                i <= self.tiers@.len(),
                v@.len() == i,
                forall|k: int| 0 <= k < i ==> (#[trigger] v@[k])@ == self.tiers@[k]@,
            decreases self.tiers@.len() - i,
        {
            v.push(self.tiers[i].copy());
            i = i + 1;
        }
        v
    }

    /// What `buyer` holds of this event.
    pub(crate) fn purchase_of(&self, buyer: Address) -> (r: Option<BuyerPurchase>)
        requires
            self@.wf(),
        ensures
            match r {
                Some(p) => purchase_index(self@.purchases, buyer) >= 0 && p == self@.purchases[purchase_index(self@.purchases, buyer)].purchase,
                None => purchase_index(self@.purchases, buyer) < 0,
            },
    {
        match self.find_purchase(buyer) {
            Some(i) => Some(self.purchases[i].purchase),
            None => None,
        }
    }

    /// A copy of the waitlist.
    pub(crate) fn waitlist_copy(&self) -> (v: Vec<Address>)
        ensures
            v@ =~= self@.waitlist,
    {
        let mut v: Vec<Address> = Vec::new();
        let mut i: usize = 0;
        while i < self.waitlist.len()
            invariant
                i <= self.waitlist@.len(),
                v@ =~= self.waitlist@.take(i as int),
            decreases self.waitlist@.len() - i,
        {
            v.push(self.waitlist[i]);
            i = i + 1;
            assert(v@ =~= self.waitlist@.take(i as int));
        }
        v
    }

    /// The 1-based place of `user` on the waitlist, or 0.
    pub(crate) fn position_of(&self, user: Address) -> (r: u32)
        requires
            self@.wf(),
        ensures
            r as int == waitlist_position(self@.waitlist, user),
    {
        match self.find_waiting(user) {
            Some(i) => (i + 1) as u32,
            None => 0,
        }
    }

    /// A copy of the discount with code `code`.
    pub(crate) fn discount_of(&self, code: &String) -> (r: Option<Discount>)
        requires
            self@.wf(),
        ensures
            match r {
                Some(d) => discount_index(self@.discounts, code@) >= 0 && d@ == self@.discounts[discount_index(self@.discounts, code@)],
                None => discount_index(self@.discounts, code@) < 0,
            },
    {
        match self.find_discount(code) {
            Some(i) => Some(self.discounts[i].copy()),
            None => None,
        }
    }
}

} // verus!
