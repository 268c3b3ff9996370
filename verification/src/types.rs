use vstd::prelude::*;

verus! {

/// An account or a contract on the ledger, named by a number.
#[derive(Clone, Copy, PartialEq, Eq, Structural, Debug, Hash)]
pub struct Address {
    pub id: u64,
}

/// What the ledger tells a contract call about its surroundings.
#[derive(Clone, Copy, PartialEq, Eq, Structural, Debug)]
pub struct Env {
    /// The address of the contract that is running.
    pub current_contract: Address,
    /// The ledger's close time, in seconds.
    pub timestamp: u64,
}

/// Why a request was refused.
#[derive(Clone, Copy, PartialEq, Eq, Structural, Debug)]
pub enum Error {
    AlreadyInitialized,
    NotInitialized,
    EventNotFound,
    InvalidStartDate,
    InvalidEndDate,
    InvalidPrice,
    InvalidTicketCount,
    TooManyEvents,
    ArithmeticOverflow,
    EventCanceled,
    InvalidTierIndex,
    TierSoldOut,
    InvalidQuantity,
    EventNotCanceled,
    NoTicketPurchased,
    AlreadyRefunded,
    EventNotEnded,
    FundsAlreadyWithdrawn,
    EventNotSoldOut,
    AlreadyOnWaitlist,
    InvalidDiscountPercentage,
    InvalidExpiration,
    DiscountCodeExists,
    DiscountNotFound,
    DiscountExpired,
    DiscountExhausted,
}

/// A ticket tier that an organiser asks for when creating an event.
#[derive(Debug, PartialEq, Eq)]
pub struct TierConfig {
    pub name: String,
    pub price: i128,
    pub total_quantity: u128,
}

/// Everything an organiser supplies to create an event. When `tiers` is
/// empty the event gets one tier, "General", at `ticket_price` with
/// `total_tickets` seats; otherwise `ticket_price` and `total_tickets` are
/// kept for reference and the tiers decide price and capacity.
#[derive(Debug, PartialEq, Eq)]
pub struct CreateEventParams {
    pub organizer: Address,
    pub theme: String,
    pub event_type: String,
    pub start_date: u64,
    pub end_date: u64,
    pub ticket_price: i128,
    pub total_tickets: u128,
    pub payment_token: Address,
    pub tiers: Vec<TierConfig>,
}

/// A ticket tier of an event, with how many of its tickets are sold.
#[derive(Debug, PartialEq, Eq)]
pub struct Tier {
    pub name: String,
    pub price: i128,
    pub total_quantity: u128,
    pub sold_quantity: u128,
}

/// An event as the ledger holds it.
#[derive(Debug, PartialEq, Eq)]
pub struct Event {
    pub id: u32,
    pub organizer: Address,
    pub theme: String,
    pub event_type: String,
    pub start_date: u64,
    pub end_date: u64,
    pub ticket_price: i128,
    pub total_tickets: u128,
    pub tickets_sold: u128,
    pub payment_token: Address,
    pub ticket_nft: Address,
    pub is_canceled: bool,
}

/// What one buyer holds of one event: tickets and what was paid for them.
#[derive(Clone, Copy, Debug, PartialEq, Eq, Structural)]
pub struct BuyerPurchase {
    pub quantity: u128,
    pub total_paid: i128,
}

/// A buyer's purchase, and whether it has been refunded.
#[derive(Clone, Copy, Debug, PartialEq, Eq, Structural)]
pub struct PurchaseEntry {
    pub buyer: Address,
    pub purchase: BuyerPurchase,
    pub refunded: bool,
}

/// A discount code of an event. `max_uses == 0` means unlimited, and then
/// `uses_remaining` stays 0; `expiration == 0` means it never expires.
#[derive(Debug, PartialEq, Eq)]
pub struct Discount {
    pub code: String,
    pub percentage: u32,
    pub max_uses: u32,
    pub uses_remaining: u32,
    pub expiration: u64,
}

/// The mathematical value of a [`Tier`].
pub struct TierView {
    pub name: Seq<char>,
    pub price: i128,
    pub total_quantity: u128,
    pub sold_quantity: u128,
}

/// The mathematical value of an [`Event`].
pub struct EventView {
    pub id: u32,
    pub organizer: Address,
    pub theme: Seq<char>,
    pub event_type: Seq<char>,
    pub start_date: u64,
    pub end_date: u64,
    pub ticket_price: i128,
    pub total_tickets: u128,
    pub tickets_sold: u128,
    pub payment_token: Address,
    pub ticket_nft: Address,
    pub is_canceled: bool,
}

/// The mathematical value of a [`Discount`].
pub struct DiscountView {
    pub code: Seq<char>,
    pub percentage: u32,
    pub max_uses: u32,
    pub uses_remaining: u32,
    pub expiration: u64,
}

impl View for Tier {
    type V = TierView;

    open spec fn view(&self) -> TierView {
        TierView {
            name: self.name@,
            price: self.price,
            total_quantity: self.total_quantity,
            sold_quantity: self.sold_quantity,
        }
    }
}

impl View for Event {
    type V = EventView;

    open spec fn view(&self) -> EventView {
        EventView {
            id: self.id,
            organizer: self.organizer,
            theme: self.theme@,
            event_type: self.event_type@,
            start_date: self.start_date,
            end_date: self.end_date,
            ticket_price: self.ticket_price,
            total_tickets: self.total_tickets,
            tickets_sold: self.tickets_sold,
            payment_token: self.payment_token,
            ticket_nft: self.ticket_nft,
            is_canceled: self.is_canceled,
        }
    }
}

impl View for Discount {
    type V = DiscountView;

    open spec fn view(&self) -> DiscountView {
        DiscountView {
            code: self.code@,
            percentage: self.percentage,
            max_uses: self.max_uses,
            uses_remaining: self.uses_remaining,
            expiration: self.expiration,
        }
    }
}

impl Tier {
    /// A copy of this tier.
    pub fn copy(&self) -> (r: Tier)
        ensures
            r == *self,
    {
        Tier {
            name: self.name.clone(),
            price: self.price,
            total_quantity: self.total_quantity,
            sold_quantity: self.sold_quantity,
        }
    }
}

impl Event {
    /// A copy of this event.
    pub fn copy(&self) -> (r: Event)
        ensures
            r == *self,
    {
        Event {
            id: self.id,
            organizer: self.organizer,
            theme: self.theme.clone(),
            event_type: self.event_type.clone(),
            start_date: self.start_date,
            end_date: self.end_date,
            ticket_price: self.ticket_price,
            total_tickets: self.total_tickets,
            tickets_sold: self.tickets_sold,
            payment_token: self.payment_token,
            ticket_nft: self.ticket_nft,
            is_canceled: self.is_canceled,
        }
    }
}

impl Discount {
    /// A copy of this discount.
    pub fn copy(&self) -> (r: Discount)
        ensures
            r == *self,
    {
        Discount {
            code: self.code.clone(),
            percentage: self.percentage,
            max_uses: self.max_uses,
            uses_remaining: self.uses_remaining,
            expiration: self.expiration,
        }
    }
}

} // verus!
