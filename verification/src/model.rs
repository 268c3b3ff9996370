//! The abstract state of the ticketing ledger and what each request does to
//! it. Every request either fails with an [`Error`] and changes nothing, or
//! succeeds with the new state and a value given here.
use vstd::prelude::*;
use crate::types::{Address, BuyerPurchase, CreateEventParams, DiscountView, Error, EventView, PurchaseEntry, TierConfig, TierView};

verus! {

/// Basis points in a whole.
pub const BPS_DENOMINATOR: u128 = 10000;

/// Group purchases of at least this many tickets get the group discount.
pub const GROUP_DISCOUNT_MIN_QUANTITY: u128 = 5;

/// The group discount, in basis points.
pub const GROUP_DISCOUNT_BPS: u128 = 500;

/// The sum of a sequence of integers.
pub open spec fn seq_sum(s: Seq<int>) -> int
    decreases s.len(),
{
    if s.len() == 0 {
        0
    } else {
        seq_sum(s.drop_last()) + s.last()
    }
}

/// How many tickets of each tier are sold.
pub open spec fn sold_counts(tiers: Seq<TierView>) -> Seq<int> {
    tiers.map_values(|t: TierView| t.sold_quantity as int)
}

/// How many tickets each tier has.
pub open spec fn capacities(tiers: Seq<TierView>) -> Seq<int> {
    tiers.map_values(|t: TierView| t.total_quantity as int)
}

/// How many tickets the requested tiers have together.
pub open spec fn config_capacity(configs: Seq<TierConfig>) -> int {
    seq_sum(configs.map_values(|c: TierConfig| c.total_quantity as int))
}

/// What each buyer has paid and not had back by a refund.
pub open spec fn held_payments(purchases: Seq<PurchaseEntry>) -> Seq<int> {
    purchases.map_values(
        |e: PurchaseEntry|
            if e.refunded {
                0
            } else {
                e.purchase.total_paid as int
            },
    )
}

/// Where `buyer`'s purchase stands in `purchases`, or -1.
pub open spec fn purchase_index(purchases: Seq<PurchaseEntry>, buyer: Address) -> int {
    if exists|i: int| 0 <= i < purchases.len() && purchases[i].buyer == buyer {
        choose|i: int| 0 <= i < purchases.len() && purchases[i].buyer == buyer
    } else {
        -1
    }
}

/// Where the discount with code `code` stands in `discounts`, or -1.
pub open spec fn discount_index(discounts: Seq<DiscountView>, code: Seq<char>) -> int {
    if exists|i: int| 0 <= i < discounts.len() && discounts[i].code == code {
        choose|i: int| 0 <= i < discounts.len() && discounts[i].code == code
    } else {
        -1
    }
}

/// The 1-based place of `user` in `waitlist`, or 0 when absent.
pub open spec fn waitlist_position(waitlist: Seq<Address>, user: Address) -> int {
    if waitlist.contains(user) {
        waitlist.index_of(user) + 1
    } else {
        0
    }
}

/// What `quantity` tickets at `unit` cost together: groups of at least
/// [`GROUP_DISCOUNT_MIN_QUANTITY`] pay [`GROUP_DISCOUNT_BPS`] less, rounded down.
pub open spec fn group_cost(unit: int, quantity: int) -> int {
    if quantity >= GROUP_DISCOUNT_MIN_QUANTITY {
        quantity * unit * (BPS_DENOMINATOR - GROUP_DISCOUNT_BPS) / (BPS_DENOMINATOR as int)
    } else {
        quantity * unit
    }
}

/// The largest intermediate of [`group_cost`] fits an `i128`.
pub open spec fn group_cost_fits(unit: int, quantity: int) -> bool {
    if quantity >= GROUP_DISCOUNT_MIN_QUANTITY {
        quantity * unit * (BPS_DENOMINATOR - GROUP_DISCOUNT_BPS) <= i128::MAX
    } else {
        quantity * unit <= i128::MAX
    }
}

/// A ticket at `price` with `percentage` off, rounded down.
pub open spec fn discounted_price(price: int, percentage: int) -> int {
    price * (100 - percentage) / 100
}

/// The intermediate of [`discounted_price`] fits an `i128`.
pub open spec fn discounted_price_fits(price: int, percentage: int) -> bool {
    price * (100 - percentage) <= i128::MAX
}

/// The tiers an event gets from its creation parameters.
pub open spec fn initial_tiers(p: CreateEventParams) -> Seq<TierView> {
    if p.tiers@.len() == 0 {
        seq![
            TierView {
                name: "General"@,
                price: p.ticket_price,
                total_quantity: p.total_tickets,
                sold_quantity: 0,
            },
        ]
    } else {
        p.tiers@.map_values(
            |c: TierConfig|
                TierView {
                    name: c.name@,
                    price: c.price,
                    total_quantity: c.total_quantity,
                    sold_quantity: 0,
                },
        )
    }
}

/// The state of one event.
#[verifier::ext_equal]
pub struct RecordView {
    pub event: EventView,
    pub tiers: Seq<TierView>,
    pub purchases: Seq<PurchaseEntry>,
    pub waitlist: Seq<Address>,
    pub discounts: Seq<DiscountView>,
    /// What the ledger holds for this event.
    pub balance: i128,
    /// The organiser has taken the proceeds.
    pub withdrawn: bool,
}

/// The state of the whole ledger: the ticket factory it was set up with,
/// and its events, each at the place of its id.
#[verifier::ext_equal]
pub struct ManagerView {
    pub ticket_factory: Option<Address>,
    pub events: Seq<RecordView>,
}

/// The outcome of a request that returned `r` and left the state `s`.
pub open spec fn outcome<S, T>(r: Result<T, Error>, s: S) -> Result<(S, T), Error> {
    match r {
        Ok(x) => Ok((s, x)),
        Err(e) => Err(e),
    }
}

impl RecordView {
    /// The record is consistent: each tier's sales are within its capacity,
    /// the event's counts are the sums over its tiers, buyers, waitlisted
    /// users and discount codes are unique, and the balance is what buyers
    /// have paid and not had back, until the organiser withdraws it.
    pub open spec fn wf(self) -> bool {
        &&& self.tiers.len() > 0
        &&& forall|j: int|
            0 <= j < self.tiers.len() ==> {
                &&& #[trigger] self.tiers[j].sold_quantity <= self.tiers[j].total_quantity
                &&& self.tiers[j].price >= 0
            }
        &&& self.event.total_tickets == seq_sum(capacities(self.tiers))
        &&& self.event.tickets_sold == seq_sum(sold_counts(self.tiers))
        &&& forall|i: int, k: int|
            0 <= i < k < self.purchases.len() ==> #[trigger] self.purchases[i].buyer
                != #[trigger] self.purchases[k].buyer
        &&& forall|i: int|
            0 <= i < self.purchases.len() ==> {
                &&& #[trigger] self.purchases[i].purchase.total_paid >= 0
                &&& self.purchases[i].refunded ==> self.event.is_canceled
            }
        &&& self.waitlist.no_duplicates()
        &&& self.waitlist.len() <= u32::MAX
        &&& forall|i: int, k: int|
            0 <= i < k < self.discounts.len() ==> #[trigger] self.discounts[i].code
                != #[trigger] self.discounts[k].code
        &&& forall|i: int|
            0 <= i < self.discounts.len() ==> {
                &&& 1 <= #[trigger] self.discounts[i].percentage <= 100
                &&& self.discounts[i].uses_remaining <= self.discounts[i].max_uses
            }
        &&& self.balance >= 0
        &&& !self.withdrawn ==> self.balance == seq_sum(held_payments(self.purchases))
        &&& self.withdrawn ==> !self.event.is_canceled
    }

    /// Sells `quantity` tickets of tier `tier` to `buyer` for `cost` in all.
    pub open spec fn record_sale(self, buyer: Address, tier: int, quantity: int, cost: int) -> RecordView {
        let t = self.tiers[tier];
        let i = purchase_index(self.purchases, buyer);
        let purchases = if i >= 0 {
            let e = self.purchases[i];
            self.purchases.update(
                i,
                PurchaseEntry {
                    purchase: BuyerPurchase {
                        quantity: (e.purchase.quantity + quantity) as u128,
                        total_paid: (e.purchase.total_paid + cost) as i128,
                    },
                    ..e
                },
            )
        } else {
            self.purchases.push(
                PurchaseEntry {
                    buyer,
                    purchase: BuyerPurchase { quantity: quantity as u128, total_paid: cost as i128 },
                    refunded: false,
                },
            )
        };
        RecordView {
            event: EventView { tickets_sold: (self.event.tickets_sold + quantity) as u128, ..self.event },
            tiers: self.tiers.update(tier, TierView { sold_quantity: (t.sold_quantity + quantity) as u128, ..t }),
            purchases,
            balance: (self.balance + cost) as i128,
            ..self
        }
    }

    /// The counters touched by [`Self::record_sale`] stay within their types.
    pub open spec fn sale_fits(self, buyer: Address, quantity: int, cost: int) -> bool {
        let i = purchase_index(self.purchases, buyer);
        &&& self.balance + cost <= i128::MAX
        &&& i >= 0 ==> {
            &&& self.purchases[i].purchase.quantity + quantity <= u128::MAX
            &&& self.purchases[i].purchase.total_paid + cost <= i128::MAX
        }
    }

    /// Sells `quantity` tickets of tier `tier` at `cost` in all, after the
    /// checks that every sale makes.
    pub open spec fn sell(self, buyer: Address, tier: int, quantity: int, cost: int) -> Result<(RecordView, i128), Error> {
        if self.tiers[tier].sold_quantity + quantity > self.tiers[tier].total_quantity {
            Err(Error::TierSoldOut)
        } else if !self.sale_fits(buyer, quantity, cost) {
            Err(Error::ArithmeticOverflow)
        } else {
            Ok((self.record_sale(buyer, tier, quantity, cost), cost as i128))
        }
    }

    /// Cancels the event and empties its waitlist.
    pub open spec fn cancel(self) -> Result<(RecordView, ()), Error> {
        if self.event.is_canceled {
            Err(Error::EventCanceled)
        } else if self.withdrawn {
            Err(Error::FundsAlreadyWithdrawn)
        } else {
            Ok((
                RecordView {
                    event: EventView { is_canceled: true, ..self.event },
                    waitlist: Seq::empty(),
                    ..self
                },
                (),
            ))
        }
    }

    /// Sells one ticket of tier `tier_index` at its price; returns the price.
    pub open spec fn purchase_ticket(self, buyer: Address, tier_index: u32) -> Result<(RecordView, i128), Error> {
        if self.event.is_canceled {
            Err(Error::EventCanceled)
        } else if tier_index >= self.tiers.len() {
            Err(Error::InvalidTierIndex)
        } else {
            self.sell(buyer, tier_index as int, 1, self.tiers[tier_index as int].price as int)
        }
    }

    /// Sells `quantity` tickets of the first tier at [`group_cost`]; returns the cost.
    pub open spec fn purchase_tickets(self, buyer: Address, quantity: u128) -> Result<(RecordView, i128), Error> {
        let unit = self.tiers[0].price as int;
        if self.event.is_canceled {
            Err(Error::EventCanceled)
        } else if quantity == 0 {
            Err(Error::InvalidQuantity)
        } else if self.tiers[0].sold_quantity + quantity > self.tiers[0].total_quantity {
            Err(Error::TierSoldOut)
        } else if !group_cost_fits(unit, quantity as int) {
            Err(Error::ArithmeticOverflow)
        } else {
            self.sell(buyer, 0, quantity as int, group_cost(unit, quantity as int))
        }
    }

    /// Sells one ticket of tier `tier_index` with discount `code` applied,
    /// using up one of the code's uses when they are limited; returns the
    /// price paid.
    pub open spec fn purchase_with_discount(
        self,
        buyer: Address,
        tier_index: u32,
        code: Seq<char>,
        now: u64,
    ) -> Result<(RecordView, i128), Error> {
        let d = discount_index(self.discounts, code);
        let disc = self.discounts[d];
        let price = self.tiers[tier_index as int].price as int;
        if self.event.is_canceled {
            Err(Error::EventCanceled)
        } else if tier_index >= self.tiers.len() {
            Err(Error::InvalidTierIndex)
        } else if d < 0 {
            Err(Error::DiscountNotFound)
        } else if disc.expiration != 0 && now > disc.expiration {
            Err(Error::DiscountExpired)
        } else if disc.max_uses > 0 && disc.uses_remaining == 0 {
            Err(Error::DiscountExhausted)
        } else if self.tiers[tier_index as int].sold_quantity + 1 > self.tiers[tier_index as int].total_quantity {
            Err(Error::TierSoldOut)
        } else if !discounted_price_fits(price, disc.percentage as int) {
            Err(Error::ArithmeticOverflow)
        } else {
            let cost = discounted_price(price, disc.percentage as int);
            let used = if disc.max_uses > 0 {
                self.discounts.update(d, DiscountView { uses_remaining: (disc.uses_remaining - 1) as u32, ..disc })
            } else {
                self.discounts
            };
            match self.sell(buyer, tier_index as int, 1, cost) {
                Ok((r, paid)) => Ok((RecordView { discounts: used, ..r }, paid)),
                Err(e) => Err(e),
            }
        }
    }

    /// Refunds everything `buyer` paid for a cancelled event; returns it.
    pub open spec fn claim_refund(self, buyer: Address) -> Result<(RecordView, i128), Error> {
        let i = purchase_index(self.purchases, buyer);
        let e = self.purchases[i];
        if !self.event.is_canceled {
            Err(Error::EventNotCanceled)
        } else if i < 0 {
            Err(Error::NoTicketPurchased)
        } else if e.refunded {
            Err(Error::AlreadyRefunded)
        } else {
            Ok((
                RecordView {
                    purchases: self.purchases.update(i, PurchaseEntry { refunded: true, ..e }),
                    balance: (self.balance - e.purchase.total_paid) as i128,
                    ..self
                },
                e.purchase.total_paid,
            ))
        }
    }

    /// Hands the organiser the event's balance once the event has ended.
    pub open spec fn withdraw_funds(self, now: u64) -> Result<(RecordView, i128), Error> {
        if self.event.is_canceled {
            Err(Error::EventCanceled)
        } else if now <= self.event.end_date {
            Err(Error::EventNotEnded)
        } else if self.withdrawn {
            Err(Error::FundsAlreadyWithdrawn)
        } else {
            Ok((RecordView { withdrawn: true, balance: 0, ..self }, self.balance))
        }
    }

    /// Puts `user` at the end of the waitlist of a sold-out event; returns
    /// the user's 1-based place.
    pub open spec fn join_waitlist(self, user: Address) -> Result<(RecordView, u32), Error> {
        if self.event.is_canceled {
            Err(Error::EventCanceled)
        } else if self.event.tickets_sold < self.event.total_tickets {
            Err(Error::EventNotSoldOut)
        } else if self.waitlist.contains(user) {
            Err(Error::AlreadyOnWaitlist)
        } else if self.waitlist.len() >= u32::MAX {
            Err(Error::ArithmeticOverflow)
        } else {
            Ok((RecordView { waitlist: self.waitlist.push(user), ..self }, (self.waitlist.len() + 1) as u32))
        }
    }

    /// Takes one ticket of tier `tier_index` back from `buyer`, pays back its
    /// price (at most what the buyer has paid), and promotes the first user
    /// on the waitlist, who leaves it; returns the amount paid back and the
    /// promoted user.
    pub open spec fn return_ticket(self, buyer: Address, tier_index: u32) -> Result<(RecordView, (i128, Option<Address>)), Error> {
        let i = purchase_index(self.purchases, buyer);
        let e = self.purchases[i];
        let t = self.tiers[tier_index as int];
        let back = if t.price <= e.purchase.total_paid { t.price } else { e.purchase.total_paid };
        if self.event.is_canceled {
            Err(Error::EventCanceled)
        } else if self.withdrawn {
            Err(Error::FundsAlreadyWithdrawn)
        } else if tier_index >= self.tiers.len() {
            Err(Error::InvalidTierIndex)
        } else if i < 0 || e.refunded || e.purchase.quantity == 0 || t.sold_quantity == 0 {
            Err(Error::NoTicketPurchased)
        } else {
            let promoted = if self.waitlist.len() > 0 { Some(self.waitlist[0]) } else { None };
            Ok((
                RecordView {
                    event: EventView { tickets_sold: (self.event.tickets_sold - 1) as u128, ..self.event },
                    tiers: self.tiers.update(tier_index as int, TierView { sold_quantity: (t.sold_quantity - 1) as u128, ..t }),
                    purchases: self.purchases.update(
                        i,
                        PurchaseEntry {
                            purchase: BuyerPurchase {
                                quantity: (e.purchase.quantity - 1) as u128,
                                total_paid: (e.purchase.total_paid - back) as i128,
                            },
                            ..e
                        },
                    ),
                    waitlist: if self.waitlist.len() > 0 { self.waitlist.drop_first() } else { self.waitlist },
                    balance: (self.balance - back) as i128,
                    ..self
                },
                (back, promoted),
            ))
        }
    }

    /// Adds a discount code to the event.
    pub open spec fn create_discount(
        self,
        code: Seq<char>,
        percentage: u32,
        max_uses: u32,
        expiration: u64,
        now: u64,
    ) -> Result<(RecordView, ()), Error> {
        if self.event.is_canceled {
            Err(Error::EventCanceled)
        } else if percentage == 0 || percentage > 100 {
            Err(Error::InvalidDiscountPercentage)
        } else if expiration != 0 && expiration <= now {
            Err(Error::InvalidExpiration)
        } else if discount_index(self.discounts, code) >= 0 {
            Err(Error::DiscountCodeExists)
        } else {
            Ok((
                RecordView {
                    discounts: self.discounts.push(
                        DiscountView { code, percentage, max_uses, uses_remaining: max_uses, expiration },
                    ),
                    ..self
                },
                (),
            ))
        }
    }
}

impl ManagerView {
    /// Every event is consistent and stands at the place of its id.
    pub open spec fn wf(self) -> bool {
        &&& self.events.len() <= u32::MAX
        &&& forall|i: int|
            0 <= i < self.events.len() ==> {
                &&& (#[trigger] self.events[i]).event.id == i
                &&& self.events[i].wf()
            }
    }

    /// The ledger with event `id` replaced by `r`.
    pub open spec fn with_event(self, id: u32, r: RecordView) -> ManagerView {
        ManagerView { events: self.events.update(id as int, r), ..self }
    }

    /// Applies the outcome of a request on event `id` to the ledger.
    pub open spec fn lift<T>(self, id: u32, r: Result<(RecordView, T), Error>) -> Result<(ManagerView, T), Error> {
        if id >= self.events.len() {
            Err(Error::EventNotFound)
        } else {
            match r {
                Ok((rec, x)) => Ok((self.with_event(id, rec), x)),
                Err(e) => Err(e),
            }
        }
    }

    /// The state of event `id`.
    pub open spec fn record(self, id: u32) -> RecordView {
        self.events[id as int]
    }

    /// Sets the ticket factory, once.
    pub open spec fn initialize(self, ticket_factory: Address) -> Result<(ManagerView, ()), Error> {
        if self.ticket_factory is Some {
            Err(Error::AlreadyInitialized)
        } else {
            Ok((ManagerView { ticket_factory: Some(ticket_factory), ..self }, ()))
        }
    }

    /// The checks that event creation makes, in order.
    pub open spec fn create_event_error(self, p: CreateEventParams, now: u64) -> Option<Error> {
        let tiers = p.tiers@;
        if self.ticket_factory is None {
            Some(Error::NotInitialized)
        } else if p.start_date < now {
            Some(Error::InvalidStartDate)
        } else if p.end_date <= p.start_date {
            Some(Error::InvalidEndDate)
        } else if p.ticket_price < 0 {
            Some(Error::InvalidPrice)
        } else if tiers.len() == 0 && p.total_tickets == 0 {
            Some(Error::InvalidTicketCount)
        } else if exists|j: int| 0 <= j < tiers.len() && #[trigger] tiers[j].price < 0 {
            Some(Error::InvalidPrice)
        } else if tiers.len() > 0 && config_capacity(tiers) > u128::MAX {
            Some(Error::ArithmeticOverflow)
        } else if tiers.len() > 0 && config_capacity(tiers) == 0 {
            Some(Error::InvalidTicketCount)
        } else if self.events.len() >= u32::MAX {
            Some(Error::TooManyEvents)
        } else {
            None
        }
    }

    /// The record a new event `id` starts with.
    pub open spec fn new_record(p: CreateEventParams, id: u32, ticket_nft: Address) -> RecordView {
        let tiers = initial_tiers(p);
        RecordView {
            event: EventView {
                id,
                organizer: p.organizer,
                theme: p.theme@,
                event_type: p.event_type@,
                start_date: p.start_date,
                end_date: p.end_date,
                ticket_price: p.ticket_price,
                total_tickets: seq_sum(capacities(tiers)) as u128,
                tickets_sold: 0,
                payment_token: p.payment_token,
                ticket_nft,
                is_canceled: false,
            },
            tiers,
            purchases: Seq::empty(),
            waitlist: Seq::empty(),
            discounts: Seq::empty(),
            balance: 0,
            withdrawn: false,
        }
    }

    /// Creates an event whose tickets are `ticket_nft`'s; returns its id,
    /// the number of events before it.
    pub open spec fn create_event(self, p: CreateEventParams, now: u64, ticket_nft: Address) -> Result<(ManagerView, u32), Error> {
        match self.create_event_error(p, now) {
            Some(e) => Err(e),
            None => {
                let id = self.events.len() as u32;
                Ok((ManagerView { events: self.events.push(Self::new_record(p, id, ticket_nft)), ..self }, id))
            },
        }
    }

    pub open spec fn cancel_event(self, id: u32) -> Result<(ManagerView, ()), Error> {
        self.lift(id, self.record(id).cancel())
    }

    pub open spec fn purchase_ticket(self, buyer: Address, id: u32, tier_index: u32) -> Result<(ManagerView, i128), Error> {
        self.lift(id, self.record(id).purchase_ticket(buyer, tier_index))
    }

    pub open spec fn purchase_tickets(self, buyer: Address, id: u32, quantity: u128) -> Result<(ManagerView, i128), Error> {
        self.lift(id, self.record(id).purchase_tickets(buyer, quantity))
    }

    pub open spec fn purchase_ticket_with_discount(
        self,
        buyer: Address,
        id: u32,
        tier_index: u32,
        code: Seq<char>,
        now: u64,
    ) -> Result<(ManagerView, i128), Error> {
        self.lift(id, self.record(id).purchase_with_discount(buyer, tier_index, code, now))
    }

    pub open spec fn claim_refund(self, buyer: Address, id: u32) -> Result<(ManagerView, i128), Error> {
        self.lift(id, self.record(id).claim_refund(buyer))
    }

    pub open spec fn withdraw_funds(self, id: u32, now: u64) -> Result<(ManagerView, i128), Error> {
        self.lift(id, self.record(id).withdraw_funds(now))
    }

    pub open spec fn join_waitlist(self, user: Address, id: u32) -> Result<(ManagerView, u32), Error> {
        self.lift(id, self.record(id).join_waitlist(user))
    }

    pub open spec fn return_ticket(self, buyer: Address, id: u32, tier_index: u32) -> Result<(ManagerView, (i128, Option<Address>)), Error> {
        self.lift(id, self.record(id).return_ticket(buyer, tier_index))
    }

    pub open spec fn create_discount(
        self,
        id: u32,
        code: Seq<char>,
        percentage: u32,
        max_uses: u32,
        expiration: u64,
        now: u64,
    ) -> Result<(ManagerView, ()), Error> {
        self.lift(id, self.record(id).create_discount(code, percentage, max_uses, expiration, now))
    }

    /// The 1-based place of `user` on event `id`'s waitlist, 0 when absent
    /// or when there is no such event.
    pub open spec fn waitlist_position(self, id: u32, user: Address) -> int {
        if id < self.events.len() {
            waitlist_position(self.record(id).waitlist, user)
        } else {
            0
        }
    }
}

} // verus!
