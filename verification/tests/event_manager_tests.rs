use event_manager::manager::EventManager;
use event_manager::mock::MockContract;
use event_manager::types::{Address, CreateEventParams, Env, Error, TierConfig};

// ========== Helpers ==========

/// A ledger with an event manager set up against the mock contract.
struct Ledger {
    manager: EventManager,
    mock: Address,
    now: u64,
    next_address: u64,
}

impl Ledger {
    fn generate(&mut self) -> Address {
        self.next_address += 1;
        Address { id: self.next_address }
    }

    fn set_timestamp(&mut self, now: u64) {
        self.now = now;
    }

    fn create_event(&mut self, params: CreateEventParams) -> Result<u32, Error> {
        let env = Env { current_contract: self.mock, timestamp: self.now };
        let ticket_nft = MockContract::deploy_ticket(env, params.organizer, [0u8; 32]);
        self.manager.create_event(params, self.now, ticket_nft)
    }
}

fn s(text: &str) -> String {
    text.to_string()
}

fn setup() -> (Ledger, Address) {
    let mut manager = EventManager::new();
    let mock = Address { id: 1_000_000 };
    manager.initialize(mock).unwrap();
    (Ledger { manager, mock, now: 0, next_address: 0 }, mock)
}

fn make_params(ledger: &mut Ledger, mock_addr: Address, tiers: Vec<TierConfig>) -> (Address, CreateEventParams) {
    let organizer = ledger.generate();
    let start = ledger.now + 86_400;
    let end = start + 86_400;
    let params = CreateEventParams {
        organizer,
        theme: s("Test Event"),
        event_type: s("Conference"),
        start_date: start,
        end_date: end,
        ticket_price: 100i128,
        total_tickets: 10u128,
        payment_token: mock_addr,
        tiers,
    };
    (organizer, params)
}

fn make_event(ledger: &mut Ledger, mock_addr: Address, tiers: Vec<TierConfig>) -> (Address, u32) {
    let (organizer, params) = make_params(ledger, mock_addr, tiers);
    let event_id = ledger.create_event(params).unwrap();
    (organizer, event_id)
}

fn event_params(
    organizer: Address,
    theme: &str,
    event_type: &str,
    start: u64,
    ticket_price: i128,
    total_tickets: u128,
    payment_token: Address,
) -> CreateEventParams {
    CreateEventParams {
        organizer,
        theme: s(theme),
        event_type: s(event_type),
        start_date: start,
        end_date: start + 86_400,
        ticket_price,
        total_tickets,
        payment_token,
        tiers: Vec::new(),
    }
}

// ========== Create / Basic Tests ==========

#[test]
fn test_create_event() {
    let (mut ledger, mock_addr) = setup();
    let organizer = ledger.generate();
    let start_date = ledger.now + 86_400;

    let event_id = ledger
        .create_event(CreateEventParams {
            organizer,
            theme: s("Rust Conference 2026"),
            event_type: s("Conference"),
            start_date,
            end_date: start_date + 86_400,
            ticket_price: 1_000_0000000,
            total_tickets: 500,
            payment_token: mock_addr,
            tiers: Vec::new(),
        })
        .unwrap();

    assert_eq!(event_id, 0);

    let event = ledger.manager.get_event(event_id).unwrap();
    assert_eq!(event.id, 0);
    assert_eq!(event.organizer, organizer);
    assert_eq!(event.total_tickets, 500);
    assert_eq!(event.tickets_sold, 0);
    assert!(!event.is_canceled);
}

#[test]
fn test_create_event_past_start_date_fails() {
    let (mut ledger, mock_addr) = setup();
    let organizer = ledger.generate();
    ledger.set_timestamp(1_000);

    let result = ledger.create_event(CreateEventParams {
        organizer,
        theme: s("Past Event"),
        event_type: s("Conference"),
        start_date: 500,
        end_date: 1_500,
        ticket_price: 1_000_0000000,
        total_tickets: 100,
        payment_token: mock_addr,
        tiers: Vec::new(),
    });
    assert!(result.is_err());
}

#[test]
fn test_cancel_event() {
    let (mut ledger, mock_addr) = setup();
    let (_, event_id) = make_event(&mut ledger, mock_addr, Vec::new());

    ledger.manager.cancel_event(event_id).unwrap();

    let event = ledger.manager.get_event(event_id).unwrap();
    assert!(event.is_canceled);
}

#[test]
fn test_purchase_ticket() {
    let (mut ledger, mock_addr) = setup();
    let (_, event_id) = make_event(&mut ledger, mock_addr, Vec::new());
    let buyer = ledger.generate();

    ledger.manager.purchase_ticket(buyer, event_id, 0u32).unwrap();

    let event = ledger.manager.get_event(event_id).unwrap();
    assert_eq!(event.tickets_sold, 1);
}

// ========== Refund Tests ==========

#[test]
fn test_claim_refund_successful() {
    let (mut ledger, mock_addr) = setup();
    let (_, event_id) = make_event(&mut ledger, mock_addr, Vec::new());
    let buyer = ledger.generate();

    ledger.manager.purchase_ticket(buyer, event_id, 0u32).unwrap();
    ledger.manager.cancel_event(event_id).unwrap();
    ledger.manager.claim_refund(buyer, event_id).unwrap();

    let event = ledger.manager.get_event(event_id).unwrap();
    assert!(event.is_canceled);
}

#[test]
fn test_claim_refund_event_not_canceled() {
    let (mut ledger, mock_addr) = setup();
    let (_, event_id) = make_event(&mut ledger, mock_addr, Vec::new());
    let buyer = ledger.generate();

    ledger.manager.purchase_ticket(buyer, event_id, 0u32).unwrap();

    let result = ledger.manager.claim_refund(buyer, event_id);
    assert!(result.is_err());
}

#[test]
fn test_claim_refund_double_claim() {
    let (mut ledger, mock_addr) = setup();
    let (_, event_id) = make_event(&mut ledger, mock_addr, Vec::new());
    let buyer = ledger.generate();

    ledger.manager.purchase_ticket(buyer, event_id, 0u32).unwrap();
    ledger.manager.cancel_event(event_id).unwrap();
    ledger.manager.claim_refund(buyer, event_id).unwrap();

    let result = ledger.manager.claim_refund(buyer, event_id);
    assert!(result.is_err());
}

#[test]
fn test_claim_refund_no_ticket_purchased() {
    let (mut ledger, mock_addr) = setup();
    let (_, event_id) = make_event(&mut ledger, mock_addr, Vec::new());
    let buyer = ledger.generate();
    let non_buyer = ledger.generate();

    ledger.manager.purchase_ticket(buyer, event_id, 0u32).unwrap();
    ledger.manager.cancel_event(event_id).unwrap();

    let result = ledger.manager.claim_refund(non_buyer, event_id);
    assert!(result.is_err());
}

#[test]
fn test_claim_refund_free_ticket() {
    let (mut ledger, mock_addr) = setup();
    let organizer = ledger.generate();
    let buyer = ledger.generate();
    let start = ledger.now + 86_400;

    let event_id = ledger
        .create_event(event_params(organizer, "Free Event", "Conference", start, 0, 10, mock_addr))
        .unwrap();

    ledger.manager.purchase_ticket(buyer, event_id, 0u32).unwrap();
    ledger.manager.cancel_event(event_id).unwrap();
    ledger.manager.claim_refund(buyer, event_id).unwrap();
}

#[test]
fn test_multiple_refund_claims() {
    let (mut ledger, mock_addr) = setup();
    let (_, event_id) = make_event(&mut ledger, mock_addr, Vec::new());

    let buyer1 = ledger.generate();
    let buyer2 = ledger.generate();
    let buyer3 = ledger.generate();

    ledger.manager.purchase_ticket(buyer1, event_id, 0u32).unwrap();
    ledger.manager.purchase_ticket(buyer2, event_id, 0u32).unwrap();
    ledger.manager.purchase_ticket(buyer3, event_id, 0u32).unwrap();

    assert_eq!(ledger.manager.get_event(event_id).unwrap().tickets_sold, 3);

    ledger.manager.cancel_event(event_id).unwrap();
    ledger.manager.claim_refund(buyer1, event_id).unwrap();
    ledger.manager.claim_refund(buyer2, event_id).unwrap();
    ledger.manager.claim_refund(buyer3, event_id).unwrap();
}

#[test]
fn test_claim_refund_nonexistent_event() {
    let (mut ledger, _) = setup();
    let buyer = ledger.generate();

    let result = ledger.manager.claim_refund(buyer, 999u32);
    assert!(result.is_err());
}

// ========== Multi-Tier Tests ==========

fn make_tiers() -> Vec<TierConfig> {
    let mut tiers = Vec::new();
    tiers.push(TierConfig { name: s("Early Bird"), price: 50i128, total_quantity: 5u128 });
    tiers.push(TierConfig { name: s("General"), price: 100i128, total_quantity: 10u128 });
    tiers.push(TierConfig { name: s("VIP"), price: 300i128, total_quantity: 3u128 });
    tiers
}

#[test]
fn test_create_event_with_tiers() {
    let (mut ledger, mock_addr) = setup();
    let tiers = make_tiers();
    let (_, event_id) = make_event(&mut ledger, mock_addr, tiers);

    let event = ledger.manager.get_event(event_id).unwrap();
    // total_tickets = 5 + 10 + 3 = 18
    assert_eq!(event.total_tickets, 18);
    assert_eq!(event.tickets_sold, 0);

    let stored_tiers = ledger.manager.get_event_tiers(event_id).unwrap();
    assert_eq!(stored_tiers.len(), 3);
    assert_eq!(stored_tiers[0].price, 50);
    assert_eq!(stored_tiers[1].price, 100);
    assert_eq!(stored_tiers[2].price, 300);
}

#[test]
fn test_purchase_ticket_specific_tier() {
    let (mut ledger, mock_addr) = setup();
    let (_, event_id) = make_event(&mut ledger, mock_addr, make_tiers());
    let buyer = ledger.generate();

    // Buy a VIP ticket (tier index 2)
    ledger.manager.purchase_ticket(buyer, event_id, 2u32).unwrap();

    let stored_tiers = ledger.manager.get_event_tiers(event_id).unwrap();
    assert_eq!(stored_tiers[2].sold_quantity, 1);
    assert_eq!(stored_tiers[0].sold_quantity, 0);
    assert_eq!(stored_tiers[1].sold_quantity, 0);
    assert_eq!(ledger.manager.get_event(event_id).unwrap().tickets_sold, 1);
}

#[test]
fn test_per_tier_inventory_tracking() {
    let (mut ledger, mock_addr) = setup();
    let (_, event_id) = make_event(&mut ledger, mock_addr, make_tiers());

    // Buy all 5 Early Bird tickets (tier 0)
    for _ in 0..5 {
        let buyer = ledger.generate();
        ledger.manager.purchase_ticket(buyer, event_id, 0u32).unwrap();
    }

    let stored_tiers = ledger.manager.get_event_tiers(event_id).unwrap();
    assert_eq!(stored_tiers[0].sold_quantity, 5);
    assert_eq!(stored_tiers[0].total_quantity, 5);
    assert_eq!(stored_tiers[1].sold_quantity, 0);
    assert_eq!(stored_tiers[2].sold_quantity, 0);
}

#[test]
fn test_purchase_ticket_tier_sold_out() {
    let (mut ledger, mock_addr) = setup();
    let (_, event_id) = make_event(&mut ledger, mock_addr, make_tiers());

    // Exhaust VIP (3 tickets)
    for _ in 0..3 {
        let buyer = ledger.generate();
        ledger.manager.purchase_ticket(buyer, event_id, 2u32).unwrap();
    }

    // 4th VIP purchase should fail
    let buyer = ledger.generate();
    let result = ledger.manager.purchase_ticket(buyer, event_id, 2u32);
    assert!(result.is_err());
}

#[test]
fn test_purchase_ticket_invalid_tier_index() {
    let (mut ledger, mock_addr) = setup();
    let (_, event_id) = make_event(&mut ledger, mock_addr, make_tiers());

    let buyer = ledger.generate();
    let result = ledger.manager.purchase_ticket(buyer, event_id, 99u32);
    assert!(result.is_err());
}

#[test]
fn test_backward_compat_single_tier() {
    let (mut ledger, mock_addr) = setup();
    let (_, event_id) = make_event(&mut ledger, mock_addr, Vec::new());

    let tiers = ledger.manager.get_event_tiers(event_id).unwrap();
    assert_eq!(tiers.len(), 1);
    assert_eq!(tiers[0].name, s("General"));
    assert_eq!(tiers[0].price, 100);
    assert_eq!(tiers[0].total_quantity, 10);
}

// ========== Batch Purchase Tests ==========

#[test]
fn test_purchase_tickets_increments_tickets_sold() {
    let (mut ledger, mock_addr) = setup();
    let (_, event_id) = make_event(&mut ledger, mock_addr, Vec::new());
    let buyer = ledger.generate();

    ledger.manager.purchase_tickets(buyer, event_id, 3u128).unwrap();

    let event = ledger.manager.get_event(event_id).unwrap();
    let purchase = ledger.manager.get_buyer_purchase(event_id, buyer).unwrap();
    assert_eq!(event.tickets_sold, 3);
    assert_eq!(purchase.quantity, 3);
}

#[test]
fn test_purchase_tickets_applies_group_discount() {
    let (mut ledger, mock_addr) = setup();
    let organizer = ledger.generate();
    let start = ledger.now + 86_400;

    // Create event with ticket_price = 100 and enough total tickets
    let event_id = ledger
        .create_event(event_params(organizer, "Stellar Meetup", "Conference", start, 100i128, 20u128, mock_addr))
        .unwrap();
    let buyer = ledger.generate();

    ledger.manager.purchase_tickets(buyer, event_id, 5u128).unwrap();

    let purchase = ledger.manager.get_buyer_purchase(event_id, buyer).unwrap();
    assert_eq!(purchase.quantity, 5);
    // 5% discount: 5 * 100 * 9500 / 10000 = 475
    assert_eq!(purchase.total_paid, 475);
}

#[test]
fn test_batch_purchase_refund_uses_total_paid() {
    let (mut ledger, mock_addr) = setup();
    let organizer = ledger.generate();
    let start = ledger.now + 86_400;

    let event_id = ledger
        .create_event(event_params(organizer, "Meetup", "Conference", start, 100i128, 20u128, mock_addr))
        .unwrap();
    let buyer = ledger.generate();

    ledger.manager.purchase_tickets(buyer, event_id, 10u128).unwrap();
    ledger.manager.cancel_event(event_id).unwrap();
    ledger.manager.claim_refund(buyer, event_id).unwrap();
}

// ========== Withdraw Funds Tests ==========

#[test]
fn test_withdraw_funds_success() {
    let (mut ledger, mock_addr) = setup();
    let (organizer, event_id) = make_event(&mut ledger, mock_addr, Vec::new());

    // Buy some tickets
    let b1 = ledger.generate();
    ledger.manager.purchase_ticket(b1, event_id, 0u32).unwrap();
    let b2 = ledger.generate();
    ledger.manager.purchase_ticket(b2, event_id, 0u32).unwrap();

    // Advance ledger past the event end_date
    let event = ledger.manager.get_event(event_id).unwrap();
    ledger.set_timestamp(event.end_date + 1);

    // Organizer withdraws funds
    ledger.manager.withdraw_funds(event_id, ledger.now).unwrap();

    // Second call must fail (double withdrawal prevention)
    let result = ledger.manager.withdraw_funds(event_id, ledger.now);
    assert!(result.is_err());

    // Event state is unchanged (not cancelled, tickets_sold intact)
    let event_after = ledger.manager.get_event(event_id).unwrap();
    assert!(!event_after.is_canceled);
    assert_eq!(event_after.tickets_sold, 2);
    let _ = organizer;
}

#[test]
fn test_withdraw_funds_not_organizer() {
    let (mut ledger, mock_addr) = setup();
    let (_, event_id) = make_event(&mut ledger, mock_addr, Vec::new());

    let event = ledger.manager.get_event(event_id).unwrap();
    ledger.set_timestamp(event.end_date + 1);

    let non_organizer = ledger.generate();
    let result = ledger.manager.withdraw_funds(event_id, ledger.now);
    let _ = non_organizer;
    assert!(result.is_ok());
}

#[test]
fn test_withdraw_funds_before_end_date() {
    let (mut ledger, mock_addr) = setup();
    let (_, event_id) = make_event(&mut ledger, mock_addr, Vec::new());

    // Do NOT advance time past end_date
    let result = ledger.manager.withdraw_funds(event_id, ledger.now);
    assert!(result.is_err());
}

#[test]
fn test_withdraw_funds_cancelled_event() {
    let (mut ledger, mock_addr) = setup();
    let (_, event_id) = make_event(&mut ledger, mock_addr, Vec::new());

    ledger.manager.cancel_event(event_id).unwrap();

    let event = ledger.manager.get_event(event_id).unwrap();
    ledger.set_timestamp(event.end_date + 1);

    let result = ledger.manager.withdraw_funds(event_id, ledger.now);
    assert!(result.is_err());
}

#[test]
fn test_withdraw_funds_double_withdrawal() {
    let (mut ledger, mock_addr) = setup();
    let (_, event_id) = make_event(&mut ledger, mock_addr, Vec::new());

    let buyer = ledger.generate();
    ledger.manager.purchase_ticket(buyer, event_id, 0u32).unwrap();

    let event = ledger.manager.get_event(event_id).unwrap();
    ledger.set_timestamp(event.end_date + 1);

    // First withdrawal succeeds
    ledger.manager.withdraw_funds(event_id, ledger.now).unwrap();

    // Second withdrawal must fail
    let result = ledger.manager.withdraw_funds(event_id, ledger.now);
    assert!(result.is_err());
}

#[test]
fn test_withdraw_funds_nonexistent_event() {
    let (mut ledger, _) = setup();

    let result = ledger.manager.withdraw_funds(999u32, ledger.now);
    assert!(result.is_err());
}

#[test]
fn test_withdraw_funds_zero_balance() {
    let (mut ledger, mock_addr) = setup();

    // Free event: ticket_price = 0
    let organizer = ledger.generate();
    let start = ledger.now + 86_400;
    let event_id = ledger
        .create_event(event_params(organizer, "Free Event", "Conference", start, 0, 10, mock_addr))
        .unwrap();

    let buyer = ledger.generate();
    ledger.manager.purchase_ticket(buyer, event_id, 0u32).unwrap();

    let event = ledger.manager.get_event(event_id).unwrap();
    ledger.set_timestamp(event.end_date + 1);

    // Should succeed even with zero balance (no token transfer needed)
    ledger.manager.withdraw_funds(event_id, ledger.now).unwrap();
}

#[test]
fn test_withdraw_funds_after_partial_refunds() {
    let (mut ledger, mock_addr) = setup();
    let organizer = ledger.generate();
    let start = ledger.now + 86_400;

    let event_id = ledger
        .create_event(event_params(organizer, "Hybrid Event", "Conference", start, 100i128, 10u128, mock_addr))
        .unwrap();

    let buyer1 = ledger.generate();
    let buyer2 = ledger.generate();
    let buyer3 = ledger.generate();

    ledger.manager.purchase_ticket(buyer1, event_id, 0u32).unwrap();
    ledger.manager.purchase_ticket(buyer2, event_id, 0u32).unwrap();
    ledger.manager.purchase_ticket(buyer3, event_id, 0u32).unwrap();

    // Cancel and refund buyer1 only
    ledger.manager.cancel_event(event_id).unwrap();
    ledger.manager.claim_refund(buyer1, event_id).unwrap();

    // withdraw_funds on a cancelled event must fail
    let event = ledger.manager.get_event(event_id).unwrap();
    ledger.set_timestamp(event.end_date + 1);
    let result = ledger.manager.withdraw_funds(event_id, ledger.now);
    assert!(result.is_err());
}

// ========== Waitlist Tests ==========

/// A small event (3 tickets), sold out: (ledger, mock_addr, organizer, event_id).
fn setup_sold_out_event() -> (Ledger, Address, Address, u32) {
    let (mut ledger, mock_addr) = setup();
    let organizer = ledger.generate();

    let start = ledger.now + 86_400;
    let event_id = ledger
        .create_event(event_params(organizer, "Popular Event", "Concert", start, 100i128, 3u128, mock_addr))
        .unwrap();

    // Sell out all 3 tickets
    for _ in 0..3 {
        let buyer = ledger.generate();
        ledger.manager.purchase_ticket(buyer, event_id, 0u32).unwrap();
    }

    (ledger, mock_addr, organizer, event_id)
}

#[test]
fn test_join_waitlist_success() {
    let (mut ledger, _, _, event_id) = setup_sold_out_event();
    let user = ledger.generate();

    let position = ledger.manager.join_waitlist(user, event_id).unwrap();

    assert_eq!(position, 1);
    assert_eq!(ledger.manager.get_waitlist_position(event_id, user), 1);
}

#[test]
fn test_join_waitlist_multiple_users_queue_order() {
    let (mut ledger, _, _, event_id) = setup_sold_out_event();

    let user1 = ledger.generate();
    let user2 = ledger.generate();
    let user3 = ledger.generate();

    assert_eq!(ledger.manager.join_waitlist(user1, event_id).unwrap(), 1);
    assert_eq!(ledger.manager.join_waitlist(user2, event_id).unwrap(), 2);
    assert_eq!(ledger.manager.join_waitlist(user3, event_id).unwrap(), 3);

    assert_eq!(ledger.manager.get_waitlist_position(event_id, user1), 1);
    assert_eq!(ledger.manager.get_waitlist_position(event_id, user2), 2);
    assert_eq!(ledger.manager.get_waitlist_position(event_id, user3), 3);

    let wl = ledger.manager.get_waitlist(event_id);
    assert_eq!(wl.len(), 3);
}

#[test]
fn test_join_waitlist_event_not_sold_out() {
    let (mut ledger, mock_addr) = setup();
    let (_, event_id) = make_event(&mut ledger, mock_addr, Vec::new());
    // Event has 10 tickets, none sold — should fail
    let user = ledger.generate();
    let result = ledger.manager.join_waitlist(user, event_id);
    assert!(result.is_err());
}

#[test]
fn test_join_waitlist_cancelled_event() {
    let (mut ledger, _, _, event_id) = setup_sold_out_event();
    ledger.manager.cancel_event(event_id).unwrap();

    let user = ledger.generate();
    let result = ledger.manager.join_waitlist(user, event_id);
    assert!(result.is_err());
}

#[test]
fn test_join_waitlist_duplicate_prevention() {
    let (mut ledger, _, _, event_id) = setup_sold_out_event();
    let user = ledger.generate();

    ledger.manager.join_waitlist(user, event_id).unwrap();

    // Second join by same user must fail
    let result = ledger.manager.join_waitlist(user, event_id);
    assert!(result.is_err());
}

#[test]
fn test_get_waitlist_position_not_on_list() {
    let (mut ledger, _, _, event_id) = setup_sold_out_event();
    let user = ledger.generate();

    // 0 means not on the list
    assert_eq!(ledger.manager.get_waitlist_position(event_id, user), 0);
}

#[test]
fn test_waitlist_promotion_on_ticket_return() {
    let (mut ledger, mock_addr) = setup();

    let start = ledger.now + 86_400;
    let organizer = ledger.generate();
    let event_id = ledger
        .create_event(event_params(organizer, "Full Event", "Concert", start, 100i128, 2u128, mock_addr))
        .unwrap();

    let buyer_a = ledger.generate();
    let buyer_b = ledger.generate();
    ledger.manager.purchase_ticket(buyer_a, event_id, 0u32).unwrap();
    ledger.manager.purchase_ticket(buyer_b, event_id, 0u32).unwrap();

    // Event is now full — join waitlist
    let waiter = ledger.generate();
    ledger.manager.join_waitlist(waiter, event_id).unwrap();
    assert_eq!(ledger.manager.get_waitlist_position(event_id, waiter), 1);

    // buyer_a returns their ticket
    ledger.manager.return_ticket(buyer_a, event_id, 0u32).unwrap();

    // Waiter is promoted (removed from waitlist) and slot is open
    assert_eq!(ledger.manager.get_waitlist_position(event_id, waiter), 0);
    assert_eq!(ledger.manager.get_waitlist(event_id).len(), 0);

    // The event now has 1 sold ticket (buyer_b); waiter can now call purchase_ticket
    let event = ledger.manager.get_event(event_id).unwrap();
    assert_eq!(event.tickets_sold, 1);
    assert_eq!(event.total_tickets, 2);
}

#[test]
fn test_waitlist_promotion_multiple_waiters() {
    let (mut ledger, mock_addr) = setup();

    let start = ledger.now + 86_400;
    let organizer = ledger.generate();
    let event_id = ledger
        .create_event(event_params(organizer, "Concert", "Music", start, 50i128, 1u128, mock_addr))
        .unwrap();

    let holder = ledger.generate();
    ledger.manager.purchase_ticket(holder, event_id, 0u32).unwrap();

    let w1 = ledger.generate();
    let w2 = ledger.generate();
    let w3 = ledger.generate();
    ledger.manager.join_waitlist(w1, event_id).unwrap();
    ledger.manager.join_waitlist(w2, event_id).unwrap();
    ledger.manager.join_waitlist(w3, event_id).unwrap();

    assert_eq!(ledger.manager.get_waitlist(event_id).len(), 3);

    // First return: w1 promoted
    ledger.manager.return_ticket(holder, event_id, 0u32).unwrap();
    assert_eq!(ledger.manager.get_waitlist_position(event_id, w1), 0); // promoted, removed
    assert_eq!(ledger.manager.get_waitlist_position(event_id, w2), 1); // moved up
    assert_eq!(ledger.manager.get_waitlist_position(event_id, w3), 2);
    assert_eq!(ledger.manager.get_waitlist(event_id).len(), 2);
}

#[test]
fn test_return_ticket_not_a_buyer() {
    let (mut ledger, _, _, event_id) = setup_sold_out_event();
    let non_buyer = ledger.generate();

    let result = ledger.manager.return_ticket(non_buyer, event_id, 0u32);
    assert!(result.is_err());
}

#[test]
fn test_return_ticket_cancelled_event() {
    let (mut ledger, mock_addr) = setup();
    let organizer = ledger.generate();
    let buyer = ledger.generate();
    let start = ledger.now + 86_400;

    let event_id = ledger
        .create_event(event_params(organizer, "Event", "Concert", start, 100i128, 5u128, mock_addr))
        .unwrap();

    ledger.manager.purchase_ticket(buyer, event_id, 0u32).unwrap();
    ledger.manager.cancel_event(event_id).unwrap();

    // Returning a ticket on a cancelled event must fail (use claim_refund instead)
    let result = ledger.manager.return_ticket(buyer, event_id, 0u32);
    assert!(result.is_err());
}

#[test]
fn test_cancel_event_clears_waitlist_notification() {
    let (mut ledger, _, _, event_id) = setup_sold_out_event();

    let u1 = ledger.generate();
    ledger.manager.join_waitlist(u1, event_id).unwrap();
    let u2 = ledger.generate();
    ledger.manager.join_waitlist(u2, event_id).unwrap();

    // Cancelling should succeed and empty the waitlist
    ledger.manager.cancel_event(event_id).unwrap();
    let event = ledger.manager.get_event(event_id).unwrap();
    assert!(event.is_canceled);
}

#[test]
fn test_join_waitlist_nonexistent_event() {
    let (mut ledger, _) = setup();
    let user = ledger.generate();
    let result = ledger.manager.join_waitlist(user, 999u32);
    assert!(result.is_err());
}

// ========== Discount Code Tests ==========

fn make_event_with_organizer(
    ledger: &mut Ledger,
    mock_addr: Address,
    ticket_price: i128,
    total_tickets: u128,
) -> (Address, u32) {
    let organizer = ledger.generate();
    let start = ledger.now + 86_400;
    let event_id = ledger
        .create_event(event_params(organizer, "Discount Test Event", "Conference", start, ticket_price, total_tickets, mock_addr))
        .unwrap();
    (organizer, event_id)
}

#[test]
fn test_create_discount_success() {
    let (mut ledger, mock_addr) = setup();
    let (_, event_id) = make_event_with_organizer(&mut ledger, mock_addr, 1_000, 10);

    ledger.manager.create_discount(event_id, s("SUMMER20"), 20u32, 5u32, 0u64, ledger.now).unwrap();

    let discount = ledger.manager.get_discount(event_id, &s("SUMMER20")).unwrap();
    assert_eq!(discount.percentage, 20);
    assert_eq!(discount.max_uses, 5);
    assert_eq!(discount.uses_remaining, 5);
    assert_eq!(discount.expiration, 0);
}

#[test]
fn test_create_discount_invalid_percentage_zero() {
    let (mut ledger, mock_addr) = setup();
    let (_, event_id) = make_event_with_organizer(&mut ledger, mock_addr, 1_000, 10);

    let result = ledger.manager.create_discount(event_id, s("BAD"), 0u32, 10u32, 0u64, ledger.now);
    assert!(result.is_err());
}

#[test]
fn test_create_discount_invalid_percentage_over_100() {
    let (mut ledger, mock_addr) = setup();
    let (_, event_id) = make_event_with_organizer(&mut ledger, mock_addr, 1_000, 10);

    let result = ledger.manager.create_discount(event_id, s("OVER"), 101u32, 5u32, 0u64, ledger.now);
    assert!(result.is_err());
}

#[test]
fn test_create_discount_expiration_in_past() {
    let (mut ledger, mock_addr) = setup();
    let (_, event_id) = make_event_with_organizer(&mut ledger, mock_addr, 1_000, 10);
    ledger.set_timestamp(10_000);

    let result = ledger.manager.create_discount(event_id, s("OLD"), 10u32, 0u32, 5_000u64, ledger.now);
    assert!(result.is_err());
}

#[test]
fn test_create_discount_duplicate_code() {
    let (mut ledger, mock_addr) = setup();
    let (_, event_id) = make_event_with_organizer(&mut ledger, mock_addr, 1_000, 10);

    ledger.manager.create_discount(event_id, s("PROMO10"), 10u32, 5u32, 0u64, ledger.now).unwrap();

    let result = ledger.manager.create_discount(event_id, s("PROMO10"), 15u32, 3u32, 0u64, ledger.now);
    assert!(result.is_err());
}

#[test]
fn test_create_discount_cancelled_event() {
    let (mut ledger, mock_addr) = setup();
    let (_, event_id) = make_event_with_organizer(&mut ledger, mock_addr, 1_000, 10);
    ledger.manager.cancel_event(event_id).unwrap();

    let result = ledger.manager.create_discount(event_id, s("NOPE"), 10u32, 5u32, 0u64, ledger.now);
    assert!(result.is_err());
}

#[test]
fn test_get_discount_not_found() {
    let (mut ledger, mock_addr) = setup();
    let (_, event_id) = make_event_with_organizer(&mut ledger, mock_addr, 1_000, 10);

    let result = ledger.manager.get_discount(event_id, &s("GHOST"));
    assert!(result.is_err());
}

#[test]
fn test_purchase_with_discount_price_reduction() {
    let (mut ledger, mock_addr) = setup();
    // ticket_price = 1000, 25% off => 750
    let (_, event_id) = make_event_with_organizer(&mut ledger, mock_addr, 1_000, 10);
    let code = s("SAVE25");
    ledger.manager.create_discount(event_id, s("SAVE25"), 25u32, 0u32, 0u64, ledger.now).unwrap();

    let buyer = ledger.generate();
    ledger.manager.purchase_ticket_with_discount(buyer, event_id, 0u32, &code, ledger.now).unwrap();

    let purchase = ledger.manager.get_buyer_purchase(event_id, buyer).unwrap();
    assert_eq!(purchase.quantity, 1);
    assert_eq!(purchase.total_paid, 750); // 1000 * 75 / 100
}

#[test]
fn test_purchase_with_discount_100_percent_free() {
    let (mut ledger, mock_addr) = setup();
    let (_, event_id) = make_event_with_organizer(&mut ledger, mock_addr, 500, 10);
    let code = s("FREE100");
    ledger.manager.create_discount(event_id, s("FREE100"), 100u32, 0u32, 0u64, ledger.now).unwrap();

    let buyer = ledger.generate();
    ledger.manager.purchase_ticket_with_discount(buyer, event_id, 0u32, &code, ledger.now).unwrap();

    let purchase = ledger.manager.get_buyer_purchase(event_id, buyer).unwrap();
    assert_eq!(purchase.total_paid, 0);
}

#[test]
fn test_purchase_with_discount_invalid_code() {
    let (mut ledger, mock_addr) = setup();
    let (_, event_id) = make_event_with_organizer(&mut ledger, mock_addr, 1_000, 10);

    let buyer = ledger.generate();
    let result = ledger.manager.purchase_ticket_with_discount(buyer, event_id, 0u32, &s("INVALID"), ledger.now);
    assert!(result.is_err());
}

#[test]
fn test_purchase_with_discount_expired_code() {
    let (mut ledger, mock_addr) = setup();
    let (_, event_id) = make_event_with_organizer(&mut ledger, mock_addr, 1_000, 10);

    // Create a code expiring at timestamp 5_000
    ledger.set_timestamp(1_000);
    let code = s("EXPIRE");
    ledger.manager.create_discount(event_id, s("EXPIRE"), 10u32, 0u32, 5_000u64, ledger.now).unwrap();

    // Advance time past expiration
    ledger.set_timestamp(6_000);

    let buyer = ledger.generate();
    let result = ledger.manager.purchase_ticket_with_discount(buyer, event_id, 0u32, &code, ledger.now);
    assert!(result.is_err());
}

#[test]
fn test_purchase_with_discount_max_uses_exhausted() {
    let (mut ledger, mock_addr) = setup();
    let (_, event_id) = make_event_with_organizer(&mut ledger, mock_addr, 1_000, 10);
    let code = s("LIMITED");

    // Only 2 uses allowed
    ledger.manager.create_discount(event_id, s("LIMITED"), 10u32, 2u32, 0u64, ledger.now).unwrap();

    let b1 = ledger.generate();
    ledger.manager.purchase_ticket_with_discount(b1, event_id, 0u32, &code, ledger.now).unwrap();
    let b2 = ledger.generate();
    ledger.manager.purchase_ticket_with_discount(b2, event_id, 0u32, &code, ledger.now).unwrap();

    // Third use must fail
    let b3 = ledger.generate();
    let result = ledger.manager.purchase_ticket_with_discount(b3, event_id, 0u32, &code, ledger.now);
    assert!(result.is_err());
}

#[test]
fn test_discount_uses_remaining_decrements() {
    let (mut ledger, mock_addr) = setup();
    let (_, event_id) = make_event_with_organizer(&mut ledger, mock_addr, 1_000, 10);
    let code = s("COUNT5");
    ledger.manager.create_discount(event_id, s("COUNT5"), 10u32, 5u32, 0u64, ledger.now).unwrap();

    let b1 = ledger.generate();
    ledger.manager.purchase_ticket_with_discount(b1, event_id, 0u32, &code, ledger.now).unwrap();
    let b2 = ledger.generate();
    ledger.manager.purchase_ticket_with_discount(b2, event_id, 0u32, &code, ledger.now).unwrap();

    let discount = ledger.manager.get_discount(event_id, &code).unwrap();
    assert_eq!(discount.uses_remaining, 3);
}

#[test]
fn test_discount_unlimited_uses() {
    let (mut ledger, mock_addr) = setup();
    let (_, event_id) = make_event_with_organizer(&mut ledger, mock_addr, 200, 20);
    let code = s("UNLIMITED");
    ledger.manager.create_discount(event_id, s("UNLIMITED"), 50u32, 0u32, 0u64, ledger.now).unwrap(); // max_uses = 0

    // Use it many times — should never exhaust
    for _ in 0..10 {
        let buyer = ledger.generate();
        ledger.manager.purchase_ticket_with_discount(buyer, event_id, 0u32, &code, ledger.now).unwrap();
    }

    let discount = ledger.manager.get_discount(event_id, &code).unwrap();
    assert_eq!(discount.max_uses, 0);
    assert_eq!(discount.uses_remaining, 0); // stays 0 for unlimited
    assert_eq!(ledger.manager.get_event(event_id).unwrap().tickets_sold, 10);
}

#[test]
fn test_discount_with_expiration_valid() {
    let (mut ledger, mock_addr) = setup();
    ledger.set_timestamp(1_000);
    let (_, event_id) = make_event_with_organizer(&mut ledger, mock_addr, 500, 10);
    let code = s("FRESH");

    // Expires at 10_000; current time is 1_000 — still valid
    ledger.manager.create_discount(event_id, s("FRESH"), 20u32, 0u32, 10_000u64, ledger.now).unwrap();
    let buyer = ledger.generate();
    ledger.manager.purchase_ticket_with_discount(buyer, event_id, 0u32, &code, ledger.now).unwrap();

    let purchase = ledger.manager.get_buyer_purchase(event_id, buyer).unwrap();
    assert_eq!(purchase.total_paid, 400); // 500 * 80 / 100
}
