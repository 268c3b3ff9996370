use event_manager::manager::EventManager;
use event_manager::mock::MockContract;
use event_manager::pricing::{discount_price, group_price};
use event_manager::types::{Address, CreateEventParams, Env, Error, TierConfig};

fn addr(id: u64) -> Address {
    Address { id }
}

fn params(organizer: u64, start: u64, price: i128, total: u128, tiers: Vec<TierConfig>) -> CreateEventParams {
    CreateEventParams {
        organizer: addr(organizer),
        theme: "Theme".to_string(),
        event_type: "Talk".to_string(),
        start_date: start,
        end_date: start + 100,
        ticket_price: price,
        total_tickets: total,
        payment_token: addr(999),
        tiers,
    }
}

fn ready() -> EventManager {
    let mut m = EventManager::new();
    m.initialize(addr(500)).unwrap();
    m
}

fn one_event(price: i128, total: u128) -> (EventManager, u32) {
    let mut m = ready();
    let id = m.create_event(params(1, 10, price, total, Vec::new()), 0, addr(77)).unwrap();
    (m, id)
}

#[test]
fn mock_contract_deploys_itself_and_mints_one() {
    let env = Env { current_contract: addr(42), timestamp: 7 };
    assert_eq!(MockContract::deploy_ticket(env, addr(1), [3u8; 32]), addr(42));
    assert_eq!(MockContract::mint_ticket_nft(env, addr(1)), 1);
    MockContract::transfer(env, addr(1), addr(2), 100);
}

#[test]
fn initialize_only_once() {
    let mut m = EventManager::new();
    assert_eq!(m.ticket_factory(), None);
    assert_eq!(m.initialize(addr(5)), Ok(()));
    assert_eq!(m.initialize(addr(6)), Err(Error::AlreadyInitialized));
    assert_eq!(m.ticket_factory(), Some(addr(5)));
}

#[test]
fn create_event_requires_initialization() {
    let mut m = EventManager::new();
    assert_eq!(m.create_event(params(1, 10, 5, 5, Vec::new()), 0, addr(7)), Err(Error::NotInitialized));
    assert_eq!(m.event_count(), 0);
}

#[test]
fn create_event_validation_errors() {
    let mut m = ready();
    let mut p = params(1, 10, 5, 5, Vec::new());
    p.end_date = 10;
    assert_eq!(m.create_event(p, 0, addr(7)), Err(Error::InvalidEndDate));
    assert_eq!(m.create_event(params(1, 10, -1, 5, Vec::new()), 0, addr(7)), Err(Error::InvalidPrice));
    assert_eq!(m.create_event(params(1, 10, 5, 0, Vec::new()), 0, addr(7)), Err(Error::InvalidTicketCount));
    let bad_tier = vec![TierConfig { name: "A".to_string(), price: -3, total_quantity: 4 }];
    assert_eq!(m.create_event(params(1, 10, 5, 5, bad_tier), 0, addr(7)), Err(Error::InvalidPrice));
    let empty_tiers = vec![TierConfig { name: "A".to_string(), price: 3, total_quantity: 0 }];
    assert_eq!(m.create_event(params(1, 10, 5, 5, empty_tiers), 0, addr(7)), Err(Error::InvalidTicketCount));
    let huge = vec![
        TierConfig { name: "A".to_string(), price: 3, total_quantity: u128::MAX },
        TierConfig { name: "B".to_string(), price: 3, total_quantity: 1 },
    ];
    assert_eq!(m.create_event(params(1, 10, 5, 5, huge), 0, addr(7)), Err(Error::ArithmeticOverflow));
    assert_eq!(m.event_count(), 0);
}

#[test]
fn event_ids_count_up_and_keep_parameters() {
    let mut m = ready();
    assert_eq!(m.create_event(params(1, 10, 5, 5, Vec::new()), 10, addr(7)), Ok(0));
    assert_eq!(m.create_event(params(2, 20, 6, 6, Vec::new()), 0, addr(8)), Ok(1));
    let e = m.get_event(1).unwrap();
    assert_eq!(e.organizer, addr(2));
    assert_eq!(e.start_date, 20);
    assert_eq!(e.end_date, 120);
    assert_eq!(e.ticket_price, 6);
    assert_eq!(e.ticket_nft, addr(8));
    assert_eq!(e.payment_token, addr(999));
    assert_eq!(e.theme, "Theme".to_string());
    assert_eq!(m.get_event(2).err(), Some(Error::EventNotFound));
    assert_eq!(m.get_event_tiers(2).err(), Some(Error::EventNotFound));
}

#[test]
fn purchase_returns_price_and_accumulates() {
    let (mut m, id) = one_event(40, 5);
    assert_eq!(m.purchase_ticket(addr(10), id, 0), Ok(40));
    assert_eq!(m.purchase_ticket(addr(10), id, 0), Ok(40));
    let p = m.get_buyer_purchase(id, addr(10)).unwrap();
    assert_eq!(p.quantity, 2);
    assert_eq!(p.total_paid, 80);
    assert_eq!(m.get_buyer_purchase(id, addr(11)), None);
    assert_eq!(m.get_buyer_purchase(9, addr(10)), None);
}

#[test]
fn group_purchase_errors() {
    let (mut m, id) = one_event(100, 6);
    assert_eq!(m.purchase_tickets(addr(10), id, 0), Err(Error::InvalidQuantity));
    assert_eq!(m.purchase_tickets(addr(10), id, 7), Err(Error::TierSoldOut));
    assert_eq!(m.purchase_tickets(addr(10), id, 4), Ok(400));
    assert_eq!(m.purchase_tickets(addr(11), id, 3), Err(Error::TierSoldOut));
    assert_eq!(m.get_event(id).unwrap().tickets_sold, 4);
}

#[test]
fn group_price_values() {
    assert_eq!(group_price(100, 4), Some(400));
    assert_eq!(group_price(100, 5), Some(475));
    assert_eq!(group_price(33, 7), Some(219)); // 7 * 33 * 9500 / 10000 = 219.45
    assert_eq!(group_price(0, u128::MAX), Some(0));
    assert_eq!(group_price(i128::MAX, 2), None);
    assert_eq!(group_price(i128::MAX / 2, 1), Some(i128::MAX / 2));
}

#[test]
fn discount_price_values() {
    assert_eq!(discount_price(1000, 25), Some(750));
    assert_eq!(discount_price(999, 10), Some(899)); // 899.1
    assert_eq!(discount_price(500, 100), Some(0));
    assert_eq!(discount_price(500, 0), Some(500));
    assert_eq!(discount_price(i128::MAX, 50), None);
}

#[test]
fn refund_pays_back_once() {
    let (mut m, id) = one_event(40, 5);
    m.purchase_ticket(addr(10), id, 0).unwrap();
    m.purchase_tickets(addr(10), id, 2).unwrap();
    assert_eq!(m.claim_refund(addr(10), id), Err(Error::EventNotCanceled));
    m.cancel_event(id).unwrap();
    assert_eq!(m.claim_refund(addr(11), id), Err(Error::NoTicketPurchased));
    assert_eq!(m.claim_refund(addr(10), id), Ok(120));
    assert_eq!(m.claim_refund(addr(10), id), Err(Error::AlreadyRefunded));
    assert_eq!(m.claim_refund(addr(10), 5), Err(Error::EventNotFound));
}

#[test]
fn cancel_closes_the_event() {
    let (mut m, id) = one_event(40, 1);
    m.purchase_ticket(addr(10), id, 0).unwrap();
    m.join_waitlist(addr(20), id).unwrap();
    m.create_discount(id, "X".to_string(), 10, 0, 0, 0).unwrap();
    assert_eq!(m.cancel_event(id), Ok(()));
    assert_eq!(m.get_waitlist(id).len(), 0);
    assert_eq!(m.cancel_event(id), Err(Error::EventCanceled));
    assert_eq!(m.purchase_ticket(addr(11), id, 0), Err(Error::EventCanceled));
    assert_eq!(m.purchase_tickets(addr(11), id, 1), Err(Error::EventCanceled));
    assert_eq!(m.purchase_ticket_with_discount(addr(11), id, 0, &"X".to_string(), 0), Err(Error::EventCanceled));
    assert_eq!(m.return_ticket(addr(10), id, 0), Err(Error::EventCanceled));
    assert_eq!(m.join_waitlist(addr(21), id), Err(Error::EventCanceled));
    assert_eq!(m.withdraw_funds(id, 1_000), Err(Error::EventCanceled));
    assert_eq!(m.create_discount(id, "Y".to_string(), 10, 0, 0, 0), Err(Error::EventCanceled));
    assert_eq!(m.claim_refund(addr(10), id), Ok(40));
}

#[test]
fn withdraw_pays_the_balance_once() {
    let (mut m, id) = one_event(40, 5);
    m.purchase_ticket(addr(10), id, 0).unwrap();
    m.purchase_ticket(addr(11), id, 0).unwrap();
    assert_eq!(m.withdraw_funds(id, 110), Err(Error::EventNotEnded));
    assert_eq!(m.withdraw_funds(id, 111), Ok(80));
    assert_eq!(m.withdraw_funds(id, 500), Err(Error::FundsAlreadyWithdrawn));
    assert_eq!(m.cancel_event(id), Err(Error::FundsAlreadyWithdrawn));
    assert_eq!(m.return_ticket(addr(10), id, 0), Err(Error::FundsAlreadyWithdrawn));
}

#[test]
fn waitlist_errors_and_positions() {
    let (mut m, id) = one_event(40, 1);
    assert_eq!(m.join_waitlist(addr(20), id), Err(Error::EventNotSoldOut));
    m.purchase_ticket(addr(10), id, 0).unwrap();
    assert_eq!(m.join_waitlist(addr(20), id), Ok(1));
    assert_eq!(m.join_waitlist(addr(21), id), Ok(2));
    assert_eq!(m.join_waitlist(addr(20), id), Err(Error::AlreadyOnWaitlist));
    assert_eq!(m.get_waitlist(id), vec![addr(20), addr(21)]);
    assert_eq!(m.get_waitlist(7), Vec::<Address>::new());
    assert_eq!(m.get_waitlist_position(7, addr(20)), 0);
    assert_eq!(m.join_waitlist(addr(20), 7), Err(Error::EventNotFound));
}

#[test]
fn return_ticket_refunds_price_and_promotes() {
    let (mut m, id) = one_event(40, 1);
    m.purchase_ticket(addr(10), id, 0).unwrap();
    m.join_waitlist(addr(20), id).unwrap();
    m.join_waitlist(addr(21), id).unwrap();
    assert_eq!(m.return_ticket(addr(10), id, 1), Err(Error::InvalidTierIndex));
    assert_eq!(m.return_ticket(addr(11), id, 0), Err(Error::NoTicketPurchased));
    assert_eq!(m.return_ticket(addr(10), id, 0), Ok((40, Some(addr(20)))));
    assert_eq!(m.get_waitlist_position(id, addr(21)), 1);
    let p = m.get_buyer_purchase(id, addr(10)).unwrap();
    assert_eq!(p.quantity, 0);
    assert_eq!(p.total_paid, 0);
    assert_eq!(m.return_ticket(addr(10), id, 0), Err(Error::NoTicketPurchased));
    assert_eq!(m.get_event(id).unwrap().tickets_sold, 0);
}

#[test]
fn return_of_discounted_ticket_pays_back_what_was_paid() {
    let (mut m, id) = one_event(100, 3);
    m.create_discount(id, "HALF".to_string(), 50, 0, 0, 0).unwrap();
    assert_eq!(m.purchase_ticket_with_discount(addr(10), id, 0, &"HALF".to_string(), 0), Ok(50));
    assert_eq!(m.return_ticket(addr(10), id, 0), Ok((50, None)));
}

#[test]
fn discount_errors() {
    let (mut m, id) = one_event(100, 3);
    m.create_discount(id, "ONE".to_string(), 10, 1, 50, 0).unwrap();
    assert_eq!(m.get_discount(id, &"NONE".to_string()).err(), Some(Error::DiscountNotFound));
    assert_eq!(m.get_discount(8, &"ONE".to_string()).err(), Some(Error::EventNotFound));
    assert_eq!(m.purchase_ticket_with_discount(addr(10), id, 5, &"ONE".to_string(), 0), Err(Error::InvalidTierIndex));
    assert_eq!(m.purchase_ticket_with_discount(addr(10), id, 0, &"ONE".to_string(), 51), Err(Error::DiscountExpired));
    assert_eq!(m.purchase_ticket_with_discount(addr(10), id, 0, &"ONE".to_string(), 50), Ok(90));
    assert_eq!(m.purchase_ticket_with_discount(addr(11), id, 0, &"ONE".to_string(), 0), Err(Error::DiscountExhausted));
    assert_eq!(m.create_discount(id, "T".to_string(), 10, 1, 5, 5), Err(Error::InvalidExpiration));
    assert_eq!(m.create_discount(id, "ONE".to_string(), 20, 1, 0, 0), Err(Error::DiscountCodeExists));
    assert_eq!(m.create_discount(9, "Z".to_string(), 20, 1, 0, 0), Err(Error::EventNotFound));
}

#[test]
fn discount_sold_out_tier_is_refused_without_using_the_code() {
    let (mut m, id) = one_event(100, 1);
    m.create_discount(id, "C".to_string(), 10, 2, 0, 0).unwrap();
    m.purchase_ticket(addr(10), id, 0).unwrap();
    assert_eq!(m.purchase_ticket_with_discount(addr(11), id, 0, &"C".to_string(), 0), Err(Error::TierSoldOut));
    assert_eq!(m.get_discount(id, &"C".to_string()).unwrap().uses_remaining, 2);
}

#[test]
fn overflowing_payment_is_refused() {
    let (mut m, id) = one_event(i128::MAX, 3);
    assert_eq!(m.purchase_ticket(addr(10), id, 0), Ok(i128::MAX));
    assert_eq!(m.purchase_ticket(addr(11), id, 0), Err(Error::ArithmeticOverflow));
    assert_eq!(m.get_event(id).unwrap().tickets_sold, 1);
    assert_eq!(m.purchase_tickets(addr(12), id, 2), Err(Error::ArithmeticOverflow));
}

#[test]
fn tiers_sum_to_the_event_capacity() {
    let mut m = ready();
    let tiers = vec![
        TierConfig { name: "A".to_string(), price: 1, total_quantity: 2 },
        TierConfig { name: "B".to_string(), price: 2, total_quantity: 3 },
    ];
    let id = m.create_event(params(1, 10, 5, 99, tiers), 0, addr(7)).unwrap();
    assert_eq!(m.get_event(id).unwrap().total_tickets, 5);
    assert_eq!(m.purchase_ticket(addr(10), id, 1), Ok(2));
    assert_eq!(m.purchase_tickets(addr(11), id, 2), Ok(2));
    assert_eq!(m.purchase_ticket(addr(12), id, 0), Err(Error::TierSoldOut));
    let t = m.get_event_tiers(id).unwrap();
    assert_eq!(t[0].name, "A".to_string());
    assert_eq!(t[0].sold_quantity, 2);
    assert_eq!(t[1].sold_quantity, 1);
    assert_eq!(m.get_event(id).unwrap().tickets_sold, 3);
}
