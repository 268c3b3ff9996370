//! The ticketing ledger: every request on it does exactly what the matching
//! function of [`ManagerView`] says, and keeps the ledger consistent.
use vstd::prelude::*;
use crate::types::{Address, BuyerPurchase, CreateEventParams, Discount, Error, Event, Tier, TierConfig};
use crate::model::{discount_index, outcome, purchase_index, seq_sum, ManagerView, RecordView};
use crate::record::EventRecord;
use crate::laws::{lemma_create_event_keeps_wf, lemma_initial_capacity, lemma_initialize_keeps_wf, lemma_with_event_keeps_wf};
use crate::lemmas::{lemma_seq_sum_prefix_le, lemma_seq_sum_take_next};

verus! {

/// The event manager: the ticket factory it was set up with, and the
/// events, each at the place of its id.
pub struct EventManager {
    ticket_factory: Option<Address>,
    events: Vec<EventRecord>,
}

impl View for EventManager {
    type V = ManagerView;

    closed spec fn view(&self) -> ManagerView {
        ManagerView { ticket_factory: self.ticket_factory, events: self.events@.map_values(|r: EventRecord| r@) }
    }
}

impl EventManager {
    /// The manager is consistent; every request keeps it so.
    pub open spec fn wf(&self) -> bool {
        self@.wf()
    }

    /// After a request on event `id` changed only that event, the manager is
    /// the old one with that event replaced, and is consistent.
    proof fn lemma_replaced(&self, pre: ManagerView, id: u32)
        requires
            pre.wf(),
            id < pre.events.len(),
            self.ticket_factory == pre.ticket_factory,
            self.events@.len() == pre.events.len(),
            forall|k: int| 0 <= k < pre.events.len() && k != id ==> #[trigger] self.events@[k]@ == pre.events[k],
            self.events@[id as int]@.wf(),
            self.events@[id as int]@.event.id == pre.events[id as int].event.id,
        ensures
            self@ == pre.with_event(id, self.events@[id as int]@),
            self@.wf(),
            self.events@[id as int]@ == pre.events[id as int] ==> self@ == pre,
    {
        assert(self@.events =~= pre.events.update(id as int, self.events@[id as int]@));
        assert(self@ =~= pre.with_event(id, self.events@[id as int]@));
        lemma_with_event_keeps_wf(pre, id, self.events@[id as int]@);
        if self.events@[id as int]@ == pre.events[id as int] {
            assert(self@.events =~= pre.events);
        }
    }

    /// A manager with no events that has not been set up.
    pub fn new() -> (m: EventManager)
        ensures
            m.wf(),
            m@ == (ManagerView { ticket_factory: None, events: Seq::empty() }),
    {
        let m = EventManager { ticket_factory: None, events: Vec::new() };
        assert(m@.events =~= Seq::<RecordView>::empty());
        m
    }

    /// Sets the ticket factory that deploys each event's ticket contract;
    /// refused when it is already set.
    pub fn initialize(&mut self, ticket_factory: Address) -> (r: Result<(), Error>)
        requires
            old(self).wf(),
        ensures
            final(self).wf(),
            outcome(r, final(self)@) == old(self)@.initialize(ticket_factory),
            r is Err ==> final(self)@ == old(self)@,
    {
        if self.ticket_factory.is_some() {
            return Err(Error::AlreadyInitialized);
        }
        let ghost pre = self@;
        self.ticket_factory = Some(ticket_factory);
        proof {
            assert(self@ =~= pre.initialize(ticket_factory)->Ok_0.0);
            lemma_initialize_keeps_wf(pre, ticket_factory);
        }
        Ok(())
    }

    /// The ticket factory, once set.
    pub fn ticket_factory(&self) -> (r: Option<Address>)
        ensures
            r == self@.ticket_factory,
    {
        self.ticket_factory
    }

    /// How many events there are; the next event gets this id.
    pub fn event_count(&self) -> (n: u32)
        requires
            self.wf(),
        ensures
            n == self@.events.len(),
    {
        self.events.len() as u32
    }

    /// Creates an event from `params` at time `now`, whose tickets are
    /// minted by `ticket_nft`; returns its id.
    #[verifier::loop_isolation(false)]
    pub fn create_event(&mut self, params: CreateEventParams, now: u64, ticket_nft: Address) -> (r: Result<u32, Error>)
        requires
            old(self).wf(),
        ensures
            final(self).wf(),
            outcome(r, final(self)@) == old(self)@.create_event(params, now, ticket_nft),
            r is Err ==> final(self)@ == old(self)@,
    {
        let ghost pre = self@;
        let ghost p = params;
        if self.ticket_factory.is_none() {
            return Err(Error::NotInitialized);
        }
        if params.start_date < now {
            return Err(Error::InvalidStartDate);
        }
        if params.end_date <= params.start_date {
            return Err(Error::InvalidEndDate);
        }
        if params.ticket_price < 0 {
            return Err(Error::InvalidPrice);
        }
        let n = params.tiers.len();
        if n == 0 && params.total_tickets == 0 {
            return Err(Error::InvalidTicketCount);
        }
        let mut i: usize = 0;
        while i < n
            invariant
                n == params.tiers@.len(),
                i <= n,
                forall|k: int| 0 <= k < i ==> (#[trigger] params.tiers@[k]).price >= 0,
            decreases n - i,
        {
            if params.tiers[i].price < 0 {
                assert(params.tiers@[i as int].price < 0);
                return Err(Error::InvalidPrice);
            }
            i = i + 1;
        }
        assert(!(exists|j: int| 0 <= j < params.tiers@.len() && #[trigger] params.tiers@[j].price < 0));
        let mut capacity: u128 = 0;
        if n == 0 {
            capacity = params.total_tickets;
        } else {
            let ghost caps = params.tiers@.map_values(|c: TierConfig| c.total_quantity as int);
            let mut i: usize = 0;
            assert(caps.take(0) =~= Seq::<int>::empty());
            while i < n
                invariant
                    n == params.tiers@.len(),
                    caps == params.tiers@.map_values(|c: TierConfig| c.total_quantity as int),
                    i <= n,
                    capacity == seq_sum(caps.take(i as int)),
                decreases n - i,
            {
                proof {
                    lemma_seq_sum_take_next(caps, i as int);
                }
                capacity = match capacity.checked_add(params.tiers[i].total_quantity) {
                    Some(c) => c,
                    None => {
                        proof {
                            lemma_seq_sum_prefix_le(caps, i + 1);
                        }
                        return Err(Error::ArithmeticOverflow);
                    },
                };
                i = i + 1;
            }
            assert(caps.take(n as int) =~= caps);
            if capacity == 0 {
                return Err(Error::InvalidTicketCount);
            }
        }
        if self.events.len() >= u32::MAX as usize {
            return Err(Error::TooManyEvents);
        }
        let id = self.events.len() as u32;
        proof {
            lemma_initial_capacity(params);
        }
        let rec = EventRecord::open(params, id, ticket_nft, capacity);
        self.events.push(rec);
        proof {
            assert(self@.events =~= pre.events.push(ManagerView::new_record(p, id, ticket_nft)));
            assert(self@ =~= pre.create_event(p, now, ticket_nft)->Ok_0.0);
            lemma_create_event_keeps_wf(pre, p, now, ticket_nft);
        }
        Ok(id)
    }

    /// Event `event_id`.
    pub fn get_event(&self, event_id: u32) -> (r: Result<Event, Error>)
        ensures
            match r {
                Ok(e) => event_id < self@.events.len() && e@ == self@.record(event_id).event,
                Err(err) => event_id >= self@.events.len() && err == Error::EventNotFound,
            },
    {
        if event_id as usize >= self.events.len() {
            return Err(Error::EventNotFound);
        }
        Ok(self.events[event_id as usize].event_copy())
    }

    /// The tiers of event `event_id`.
    pub fn get_event_tiers(&self, event_id: u32) -> (r: Result<Vec<Tier>, Error>)
        ensures
            match r {
                Ok(v) => event_id < self@.events.len() && v@.map_values(|t: Tier| t@) == self@.record(event_id).tiers,
                Err(err) => event_id >= self@.events.len() && err == Error::EventNotFound,
            },
    {
        if event_id as usize >= self.events.len() {
            return Err(Error::EventNotFound);
        }
        Ok(self.events[event_id as usize].tiers_copy())
    }

    /// What `buyer` holds of event `event_id`; `None` when there is no such
    /// event or the buyer never bought a ticket of it.
    pub fn get_buyer_purchase(&self, event_id: u32, buyer: Address) -> (r: Option<BuyerPurchase>)
        requires
            self.wf(),
        ensures
            match r {
                Some(p) => {
                    let rec = self@.record(event_id);
                    &&& event_id < self@.events.len()
                    &&& purchase_index(rec.purchases, buyer) >= 0
                    &&& p == rec.purchases[purchase_index(rec.purchases, buyer)].purchase
                },
                None => event_id >= self@.events.len() || purchase_index(self@.record(event_id).purchases, buyer) < 0,
            },
    {
        if event_id as usize >= self.events.len() {
            return None;
        }
        assert(self@.events[event_id as int] == self.events@[event_id as int]@);
        self.events[event_id as usize].purchase_of(buyer)
    }

    /// The waitlist of event `event_id`, first in line first; empty when
    /// there is no such event.
    pub fn get_waitlist(&self, event_id: u32) -> (r: Vec<Address>)
        ensures
            r@ == if event_id < self@.events.len() {
                self@.record(event_id).waitlist
            } else {
                Seq::empty()
            },
    {
        if event_id as usize >= self.events.len() {
            return Vec::new();
        }
        self.events[event_id as usize].waitlist_copy()
    }

    /// The 1-based place of `user` on event `event_id`'s waitlist; 0 when
    /// absent or when there is no such event.
    pub fn get_waitlist_position(&self, event_id: u32, user: Address) -> (r: u32)
        requires
            self.wf(),
        ensures
            r as int == self@.waitlist_position(event_id, user),
    {
        if event_id as usize >= self.events.len() {
            return 0;
        }
        assert(self@.events[event_id as int] == self.events@[event_id as int]@);
        self.events[event_id as usize].position_of(user)
    }

    /// Discount `code` of event `event_id`.
    pub fn get_discount(&self, event_id: u32, code: &String) -> (r: Result<Discount, Error>)
        requires
            self.wf(),
        ensures
            match r {
                Ok(d) => {
                    let rec = self@.record(event_id);
                    &&& event_id < self@.events.len()
                    &&& discount_index(rec.discounts, code@) >= 0
                    &&& d@ == rec.discounts[discount_index(rec.discounts, code@)]
                },
                Err(err) => {
                    &&& event_id >= self@.events.len() ==> err == Error::EventNotFound
                    &&& event_id < self@.events.len() ==> err == Error::DiscountNotFound && discount_index(
                        self@.record(event_id).discounts,
                        code@,
                    ) < 0
                },
            },
    {
        if event_id as usize >= self.events.len() {
            return Err(Error::EventNotFound);
        }
        assert(self@.events[event_id as int] == self.events@[event_id as int]@);
        match self.events[event_id as usize].discount_of(code) {
            Some(d) => Ok(d),
            None => Err(Error::DiscountNotFound),
        }
    }

    /// Cancels event `event_id` and empties its waitlist; refused when it is
    /// already cancelled or its proceeds were withdrawn.
    pub fn cancel_event(&mut self, event_id: u32) -> (r: Result<(), Error>)
        requires
            old(self).wf(),
        ensures
            final(self).wf(),
            outcome(r, final(self)@) == old(self)@.cancel_event(event_id),
            r is Err ==> final(self)@ == old(self)@,
    {
        let ghost pre = self@;
        if event_id as usize >= self.events.len() {
            return Err(Error::EventNotFound);
        }
        let i = event_id as usize;
        assert(pre.events[i as int] == self.events@[i as int]@);
        let r = self.events[i].cancel();
        proof {
            self.lemma_replaced(pre, event_id);
        }
        r
    }

    /// Sells `buyer` one ticket of tier `tier_index`; returns the price the
    /// buyer pays.
    pub fn purchase_ticket(&mut self, buyer: Address, event_id: u32, tier_index: u32) -> (r: Result<i128, Error>)
        requires
            old(self).wf(),
        ensures
            final(self).wf(),
            outcome(r, final(self)@) == old(self)@.purchase_ticket(buyer, event_id, tier_index),
            r is Err ==> final(self)@ == old(self)@,
    {
        let ghost pre = self@;
        if event_id as usize >= self.events.len() {
            return Err(Error::EventNotFound);
        }
        let i = event_id as usize;
        assert(pre.events[i as int] == self.events@[i as int]@);
        let r = self.events[i].purchase_ticket(buyer, tier_index);
        proof {
            self.lemma_replaced(pre, event_id);
        }
        r
    }

    /// Sells `buyer` `quantity` tickets of the first tier at the group price;
    /// returns what the buyer pays.
    pub fn purchase_tickets(&mut self, buyer: Address, event_id: u32, quantity: u128) -> (r: Result<i128, Error>)
        requires
            old(self).wf(),
        ensures
            final(self).wf(),
            outcome(r, final(self)@) == old(self)@.purchase_tickets(buyer, event_id, quantity),
            r is Err ==> final(self)@ == old(self)@,
    {
        let ghost pre = self@;
        if event_id as usize >= self.events.len() {
            return Err(Error::EventNotFound);
        }
        let i = event_id as usize;
        assert(pre.events[i as int] == self.events@[i as int]@);
        let r = self.events[i].purchase_tickets(buyer, quantity);
        proof {
            self.lemma_replaced(pre, event_id);
        }
        r
    }

    /// Sells `buyer` one ticket of tier `tier_index` with discount `code`
    /// applied at time `now`; returns the price the buyer pays.
    pub fn purchase_ticket_with_discount(&mut self, buyer: Address, event_id: u32, tier_index: u32, code: &String, now: u64) -> (r: Result<i128, Error>)
        requires
            old(self).wf(),
        ensures
            final(self).wf(),
            outcome(r, final(self)@) == old(self)@.purchase_ticket_with_discount(buyer, event_id, tier_index, code@, now),
            r is Err ==> final(self)@ == old(self)@,
    {
        let ghost pre = self@;
        if event_id as usize >= self.events.len() {
            return Err(Error::EventNotFound);
        }
        let i = event_id as usize;
        assert(pre.events[i as int] == self.events@[i as int]@);
        let r = self.events[i].purchase_with_discount(buyer, tier_index, code, now);
        proof {
            self.lemma_replaced(pre, event_id);
        }
        r
    }

    /// Refunds `buyer` everything paid for cancelled event `event_id`;
    /// returns the amount.
    pub fn claim_refund(&mut self, buyer: Address, event_id: u32) -> (r: Result<i128, Error>)
        requires
            old(self).wf(),
        ensures
            final(self).wf(),
            outcome(r, final(self)@) == old(self)@.claim_refund(buyer, event_id),
            r is Err ==> final(self)@ == old(self)@,
    {
        let ghost pre = self@;
        if event_id as usize >= self.events.len() {
            return Err(Error::EventNotFound);
        }
        let i = event_id as usize;
        assert(pre.events[i as int] == self.events@[i as int]@);
        let r = self.events[i].claim_refund(buyer);
        proof {
            self.lemma_replaced(pre, event_id);
        }
        r
    }

    /// Hands the organiser the proceeds of event `event_id` once it has ended
    /// at time `now`; returns the amount.
    pub fn withdraw_funds(&mut self, event_id: u32, now: u64) -> (r: Result<i128, Error>)
        requires
            old(self).wf(),
        ensures
            final(self).wf(),
            outcome(r, final(self)@) == old(self)@.withdraw_funds(event_id, now),
            r is Err ==> final(self)@ == old(self)@,
    {
        let ghost pre = self@;
        if event_id as usize >= self.events.len() {
            return Err(Error::EventNotFound);
        }
        let i = event_id as usize;
        assert(pre.events[i as int] == self.events@[i as int]@);
        let r = self.events[i].withdraw_funds(now);
        proof {
            self.lemma_replaced(pre, event_id);
        }
        r
    }

    /// Puts `user` at the end of sold-out event `event_id`'s waitlist; returns
    /// the user's 1-based place.
    pub fn join_waitlist(&mut self, user: Address, event_id: u32) -> (r: Result<u32, Error>)
        requires
            old(self).wf(),
        ensures
            final(self).wf(),
            outcome(r, final(self)@) == old(self)@.join_waitlist(user, event_id),
            r is Err ==> final(self)@ == old(self)@,
    {
        let ghost pre = self@;
        if event_id as usize >= self.events.len() {
            return Err(Error::EventNotFound);
        }
        let i = event_id as usize;
        assert(pre.events[i as int] == self.events@[i as int]@);
        let r = self.events[i].join_waitlist(user);
        proof {
            self.lemma_replaced(pre, event_id);
        }
        r
    }

    /// Takes one ticket of tier `tier_index` back from `buyer`; returns what
    /// is paid back and the waitlisted user who is promoted, if any.
    pub fn return_ticket(&mut self, buyer: Address, event_id: u32, tier_index: u32) -> (r: Result<(i128, Option<Address>), Error>)
        requires
            old(self).wf(),
        ensures
            final(self).wf(),
            outcome(r, final(self)@) == old(self)@.return_ticket(buyer, event_id, tier_index),
            r is Err ==> final(self)@ == old(self)@,
    {
        let ghost pre = self@;
        if event_id as usize >= self.events.len() {
            return Err(Error::EventNotFound);
        }
        let i = event_id as usize;
        assert(pre.events[i as int] == self.events@[i as int]@);
        let r = self.events[i].return_ticket(buyer, tier_index);
        proof {
            self.lemma_replaced(pre, event_id);
        }
        r
    }

    /// Adds discount `code` to event `event_id` at time `now`.
    pub fn create_discount(&mut self, event_id: u32, code: String, percentage: u32, max_uses: u32, expiration: u64, now: u64) -> (r: Result<(), Error>)
        requires
            old(self).wf(),
        ensures
            final(self).wf(),
            outcome(r, final(self)@) == old(self)@.create_discount(event_id, code@, percentage, max_uses, expiration, now),
            r is Err ==> final(self)@ == old(self)@,
    {
        let ghost pre = self@;
        if event_id as usize >= self.events.len() {
            return Err(Error::EventNotFound);
        }
        let i = event_id as usize;
        assert(pre.events[i as int] == self.events@[i as int]@);
        let r = self.events[i].create_discount(code, percentage, max_uses, expiration, now);
        proof {
            self.lemma_replaced(pre, event_id);
        }
        r
    }
}

} // verus!
