# event_manager

A verified ticketing ledger for events, written in Verus.

Organisers create events whose tickets are split into priced tiers (an event
created without tiers gets a single "General" tier). Buyers purchase tickets
one at a time, in groups (five or more tickets of the first tier cost 5% less),
or with discount codes (a percentage off, optionally limited in uses and in
time). A sold-out event keeps a first-come waitlist; a returned ticket is paid
back at its tier's price (at most what the buyer paid) and the first user in
line is promoted. A cancelled event stops all sales and pays each buyer back
once; an event that ends uncancelled lets its organiser withdraw the proceeds
once.

## Layout

- `src/types.rs`: addresses, events, tiers, purchases, discounts, errors.
- `src/model.rs`: the abstract state and what every request does to it.
- `src/record.rs`, `src/manager.rs`: the executable ledger; every request is
  proved to do exactly what the model says and to keep the ledger consistent.
- `src/pricing.rs`: group and discount prices.
- `src/laws.rs`, `src/lemmas.rs`: properties proved of the model.
- `src/mock.rs`: a stand-in for the ticket factory, ticket and token contracts.
- `app/lib.rs`: the Soroban contracts around the library (storage, signatures,
  token transfers, ticket deployment and minting, events).
- `tests/`: scenarios run against the compiled library.
