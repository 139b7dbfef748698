use invogen::billing::{Currency, Invoice, InvoiceItem, Money, Period, Rate, TaxRate, Unit};
use invogen::date::Date;
use invogen::dec::Dec;
use invogen::ledger::{ledger_fmt, posting_entries};
use invogen::tex::Tex;

fn ymd(year: i32, month: u32, day: u32) -> Date {
    Date::from_ymd_opt(year, month, day).unwrap()
}

#[test]
fn ledger_forms() {
    assert_eq!(ledger_fmt(Currency::Cad), "$");
    assert_eq!(ledger_fmt(Currency::Eur), "EUR€");
    assert_eq!(ledger_fmt(Dec::new(105, 1)), "10.50");
    assert_eq!(ledger_fmt(Money::new(Currency::Usd, Dec::from_int(1050))), "USD$1050.00");
}

#[test]
fn invoice_posting_lines() {
    let rate = Rate { amount: Money::new(Currency::Cad, Dec::from_int(1000)), per: Unit::Month };
    let item = InvoiceItem::new("consulting".to_string(), rate, Period::new(ymd(2023, 11, 1), ymd(2023, 11, 30))).unwrap();
    let invoice = Invoice::new(1, vec![item], vec![TaxRate::new("GST".to_string(), 5)], ymd(2023, 12, 1));
    let lines = posting_entries(&invoice, "Acme").unwrap();
    assert_eq!(
        lines,
        vec![
            ("assets:receivable:Acme".to_string(), "$1000.00".to_string()),
            ("assets:receivable:GST".to_string(), "$50.00".to_string()),
            ("revenues:clients:Acme".to_string(), "$-1050.00".to_string()),
        ]
    );
}

#[test]
fn tex_escaping() {
    assert_eq!(Tex.write_escaped_str("50% of $10"), "50\\% of \\$10");
    assert_eq!(Tex.write_escaped_str("plain"), "plain");
    assert_eq!(Tex.write_escaped_str(""), "");
}
