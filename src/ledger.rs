//! Amounts and postings in the plain-text ledger format.
use crate::billing::{calculation, int_dec, money_times, Currency, Invoice, Money};
use crate::dec::{two_place_text, Dec};
use vstd::prelude::*;

verus! {

/// Values that have a ledger form.
pub trait LedgerDisplay {
    /// The ledger form as characters.
    spec fn ledger_text(&self) -> Seq<char>;

    fn ledger_fmt(&self) -> (r: String)
        ensures
            r@ == self.ledger_text(),
    ;
}

pub open spec fn currency_symbol(c: Currency) -> Seq<char> {
    match c {
        Currency::Cad => "$"@,
        Currency::Usd => "USD$"@,
        Currency::Eur => "EUR€"@,
    }
}

pub open spec fn money_text(m: Money) -> Seq<char> {
    currency_symbol(m.0) + two_place_text(m.1.m(), m.1.s() as int)
}

impl LedgerDisplay for Currency {
    open spec fn ledger_text(&self) -> Seq<char> {
        currency_symbol(*self)
    }

    fn ledger_fmt(&self) -> (r: String) {
        let s = match self {
            Currency::Cad => "$",
            Currency::Usd => "USD$",
            Currency::Eur => "EUR€",
        };
        s.to_string()
    }
}

impl LedgerDisplay for Dec {
    open spec fn ledger_text(&self) -> Seq<char> {
        two_place_text(self.m(), self.s() as int)
    }

    fn ledger_fmt(&self) -> (r: String) {
        self.to_text()
    }
}

impl LedgerDisplay for Money {
    open spec fn ledger_text(&self) -> Seq<char> {
        money_text(*self)
    }

    fn ledger_fmt(&self) -> (r: String) {
        let mut s = self.0.ledger_fmt();
        let amount = self.1.ledger_fmt();
        s.append(amount.as_str());
        s
    }
}

/// The ledger form of a value.
pub fn ledger_fmt<T: LedgerDisplay>(item: T) -> (r: String)
    ensures
        r@ == item.ledger_text(),
{
    item.ledger_fmt()
}

/// `prefix` followed by `name`.
fn account(prefix: &str, name: &str) -> (r: String)
    ensures
        r@ == prefix@ + name@,
{
    let mut s = prefix.to_string();
    s.append(name);
    s
}

/// The lines of an invoice's ledger posting, as account and amount: the
/// subtotal and each tax as receivable, then the total, negated, as revenue.
/// `None` where the invoice's totals cannot be computed.
pub fn posting_entries(invoice: &Invoice, client_name: &str) -> (r: Option<Vec<(String, String)>>)
    ensures
        r is Some <==> (calculation(*invoice) is Some && money_times(
            (calculation(*invoice)->0).2,
            int_dec(-1),
        ) is Some),
        r matches Some(v) ==> ({
            let c = calculation(*invoice)->0;
            let n = invoice.tax_rates@.len() as int;
            &&& v@.len() == n + 2
            &&& v@[0].0@ == "assets:receivable:"@ + client_name@
            &&& v@[0].1@ == money_text(c.0)
            &&& forall|i: int|
                0 <= i < n ==> (#[trigger] v@[i + 1]).0@ == "assets:receivable:"@
                    + invoice.tax_rates@[i].0@ && v@[i + 1].1@ == money_text(c.1[i])
            &&& v@[n + 1].0@ == "revenues:clients:"@ + client_name@
            &&& v@[n + 1].1@ == money_text(money_times(c.2, int_dec(-1))->0)
        }),
{
    let total = match invoice.calculate() {
        Some(t) => t,
        None => {
            return None;
        },
    };
    let negated = match total.total.mul(Dec::from_int(-1)) {
        Some(m) => m,
        None => {
            return None;
        },
    };
    let mut v: Vec<(String, String)> = Vec::new();
    v.push((account("assets:receivable:", client_name), total.subtotal.ledger_fmt()));
    assert forall|k: int| 0 <= k < total.taxes@.len() implies (#[trigger] total.taxes@[k]).0.0@
        == invoice.tax_rates@[k].0@ by {
        assert(total.taxes@[k].1 == (calculation(*invoice)->0).1[k]);
        assert(crate::billing::total_matches(total, *invoice));
    }
    let mut i: usize = 0;
    while i < total.taxes.len()
        invariant
            i <= total.taxes@.len(),
            total.taxes@.len() == invoice.tax_rates@.len(),
            v@.len() == i + 1,
            v@[0].0@ == "assets:receivable:"@ + client_name@,
            v@[0].1@ == money_text(total.subtotal),
            forall|k: int|
                0 <= k < total.taxes@.len() ==> (#[trigger] total.taxes@[k]).0.0@ == invoice.tax_rates@[k].0@,
            forall|k: int|
                0 <= k < i ==> (#[trigger] v@[k + 1]).0@ == "assets:receivable:"@ + total.taxes@[k].0.0@
                    && v@[k + 1].1@ == money_text(total.taxes@[k].1),
        decreases total.taxes@.len() - i,
    {
        let (tr, amount) = &total.taxes[i];
        v.push((account("assets:receivable:", tr.0.as_str()), amount.ledger_fmt()));
        i = i + 1;
    }
    v.push((account("revenues:clients:", client_name), negated.ledger_fmt()));
    Some(v)
}

} // verus!
