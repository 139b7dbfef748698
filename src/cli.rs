//! The commands that the ledger accepts.
use vstd::prelude::*;

verus! {

/// A command together with the event log it works on.
#[derive(Clone, Debug, PartialEq, Eq)]
pub struct Opts {
    pub file: String,
    pub subcommand: Command,
}

#[derive(Clone, Debug, PartialEq, Eq)]
pub enum Command {
    /// List clients, services, or invoices.
    List { listing: Listable },
    /// Add a new client or service.
    Add { property: Addable },
    /// Show a client, or one of its invoices.
    Show { client: String, property: Option<Showable> },
    /// Set properties of clients and services.
    SetProperty { client: String, property: Setable },
    /// Generate a new invoice for a client.
    Invoice { client: String },
    /// Record an invoice as paid.
    MarkPaid { client: String, number: usize },
    /// Remove a client; its history is kept.
    Remove { client: String },
}

#[derive(Clone, Debug, PartialEq, Eq)]
pub enum Addable {
    Client,
    Service { client: String },
}

#[derive(Clone, Debug, PartialEq, Eq)]
pub enum Listable {
    Clients,
    Invoices { client: String },
    Services { client: String },
}

#[derive(Clone, Debug, PartialEq, Eq)]
pub enum Showable {
    Taxes,
    Invoice { number: usize, view: Option<InvoiceView> },
}

#[derive(Clone, Copy, Debug, PartialEq, Eq, Structural)]
pub enum Setable {
    Rate,
    Taxes,
    Address,
    Name,
}

#[derive(Clone, Copy, Debug, PartialEq, Eq, Structural)]
pub enum InvoiceView {
    /// The invoice as a ledger posting.
    Posting,
    /// The payment as a ledger posting.
    Payment,
    /// The invoice typeset with LaTeX.
    Latex,
}

} // verus!
