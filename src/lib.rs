//! Freelance client ledger: an event-sourced record of clients, their billing
//! rates over time, and invoices with prorated quantities and taxes.
pub mod dec;
pub mod date;
pub mod historical;
pub mod billing;
pub mod clients;
pub mod ledger;
pub mod tex;
pub mod cli;
