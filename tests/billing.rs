use invogen::billing::{Currency, Invoice, InvoiceItem, Money, Period, Rate, TaxRate, Unit};
use invogen::date::Date;
use invogen::dec::Dec;

fn ymd(year: i32, month: u32, day: u32) -> Date {
    Date::from_ymd_opt(year, month, day).unwrap()
}

fn usd(mantissa: i64, scale: u32) -> Money {
    Money::new(Currency::Usd, Dec::new(mantissa, scale))
}

fn monthly(amount: i64) -> Rate {
    Rate { amount: usd(amount, 0), per: Unit::Month }
}

#[test]
fn weekend_has_no_working_days() {
    let sat_sun = Period::new(ymd(2023, 11, 18), ymd(2023, 11, 19));
    assert_eq!(sat_sun.num_units(&Unit::Day), Some(Dec::from_int(0)));
    let saturday = Period::new(ymd(2023, 11, 18), ymd(2023, 11, 18));
    assert_eq!(saturday.num_units(&Unit::Day), Some(Dec::from_int(0)));
}

#[test]
fn working_days_of_a_range() {
    let p = Period::new(ymd(2023, 11, 15), ymd(2023, 11, 30));
    assert_eq!(p.num_units(&Unit::Day), Some(Dec::from_int(12)));
    assert_eq!(p.num_units(&Unit::Hour), Some(Dec::from_int(0)));
}

#[test]
fn full_month_is_one_month() {
    for (y, m, last) in [(2023, 11, 30), (2024, 2, 29), (2023, 2, 28), (2021, 4, 30)] {
        let p = Period::new(ymd(y, m, 1), ymd(y, m, last));
        let q = p.num_units(&Unit::Month).unwrap();
        assert_eq!(q, Dec::from_int(1));
        assert_eq!((q.mantissa(), q.scale()), (1, 0));
    }
}

#[test]
fn partial_month_is_prorated_by_working_days() {
    let p = Period::new(ymd(2023, 11, 15), ymd(2023, 11, 30));
    let q = p.num_units(&Unit::Month).unwrap();
    assert_eq!(q.round_dp(4), Dec::new(5455, 4));
    let item = InvoiceItem::new("consulting".to_string(), monthly(1000), p).unwrap();
    assert_eq!(item.amount, usd(54545, 2));
}

#[test]
fn two_full_months_across_a_year() {
    let p = Period::new(ymd(2023, 12, 1), ymd(2024, 1, 31));
    let q = p.num_units(&Unit::Month).unwrap();
    assert_eq!(q, Dec::from_int(2));
}

#[test]
fn partial_week_is_prorated() {
    let p = Period::new(ymd(2023, 11, 15), ymd(2023, 11, 17));
    assert_eq!(p.num_units(&Unit::Week), Some(Dec::new(6, 1)));
    let full = Period::new(ymd(2023, 11, 13), ymd(2023, 11, 19));
    assert_eq!(full.num_units(&Unit::Week), Some(Dec::from_int(1)));
}

#[test]
fn money_multiplication_is_exact() {
    let tax = usd(100000, 2).mul(Dec::new(5, 2)).unwrap();
    assert_eq!(tax, usd(5000, 2));
    assert_eq!((tax.1.mantissa(), tax.1.scale()), (5000, 2));
}

#[test]
fn money_multiplication_rounds_half_to_even() {
    assert_eq!(usd(1, 2).mul(Dec::new(5, 1)).unwrap(), usd(0, 2));
    assert_eq!(usd(3, 2).mul(Dec::new(5, 1)).unwrap(), usd(2, 2));
    assert_eq!(usd(-3, 2).mul(Dec::new(5, 1)).unwrap(), usd(-2, 2));
    assert_eq!(usd(10, 0).mul(Dec::new(3333, 4)).unwrap(), usd(333, 2));
}

#[test]
fn money_addition_is_exact() {
    let sum = usd(10, 2).add(usd(20, 2)).unwrap();
    assert_eq!(sum, usd(30, 2));
    assert_eq!((sum.1.mantissa(), sum.1.scale()), (30, 2));
    assert_eq!(usd(1, 1).add(usd(2, 3)).unwrap(), usd(102, 3));
}

#[test]
fn decimal_equality_compares_values() {
    assert_eq!(Dec::new(1000, 2), Dec::from_int(10));
    assert_ne!(Dec::new(1001, 2), Dec::from_int(10));
}

#[test]
fn decimal_division() {
    assert_eq!(Dec::from_int(6).checked_div(Dec::from_int(3)), Some(Dec::from_int(2)));
    assert_eq!(Dec::from_int(1).checked_div(Dec::from_int(0)), None);
    assert_eq!(Dec::from_int(1).checked_div(Dec::from_int(4)), Some(Dec::new(25, 2)));
}

#[test]
fn invoice_total_with_tax() {
    let p = Period::new(ymd(2023, 11, 1), ymd(2023, 11, 30));
    let item = InvoiceItem::new("consulting".to_string(), monthly(1000), p).unwrap();
    let invoice = Invoice::new(1, vec![item], vec![TaxRate::new("GST".to_string(), 5)], ymd(2023, 12, 1));
    let total = invoice.calculate().unwrap();
    assert_eq!(total.subtotal, usd(100000, 2));
    assert_eq!(total.taxes.len(), 1);
    assert_eq!(total.taxes[0].0, TaxRate::new("GST".to_string(), 5));
    assert_eq!(total.taxes[0].1, usd(5000, 2));
    assert_eq!(total.total, usd(105000, 2));
}

#[test]
fn invoice_without_items_has_no_total() {
    let invoice = Invoice::new(1, vec![], vec![], ymd(2023, 12, 1));
    assert!(invoice.calculate().is_none());
}

#[test]
fn invoice_with_hourly_and_two_taxes() {
    let hourly = Rate { amount: usd(12550, 2), per: Unit::Hour };
    let p = Period::new(ymd(2023, 11, 1), ymd(2023, 11, 3));
    let a = InvoiceItem::new_hourly("support".to_string(), hourly, p, Dec::new(35, 1)).unwrap();
    assert_eq!(a.amount, usd(43925, 2));
    let b = InvoiceItem::new("consulting".to_string(), monthly(1000), Period::new(ymd(2023, 11, 1), ymd(2023, 11, 30))).unwrap();
    let taxes = vec![TaxRate::new("GST".to_string(), 5), TaxRate::new("PST".to_string(), 7)];
    let invoice = Invoice::new(3, vec![a, b], taxes, ymd(2023, 12, 1));
    let total = invoice.calculate().unwrap();
    assert_eq!(total.subtotal, usd(143925, 2));
    assert_eq!(total.taxes[0].1, usd(7196, 2));
    assert_eq!(total.taxes[1].1, usd(10075, 2));
    assert_eq!(total.total, usd(161196, 2));
}

#[test]
fn overall_period_spans_items() {
    let a = InvoiceItem::new_hourly(
        "a".to_string(),
        Rate { amount: usd(1, 0), per: Unit::Hour },
        Period::new(ymd(2023, 11, 10), ymd(2023, 11, 20)),
        Dec::from_int(1),
    )
    .unwrap();
    let b = InvoiceItem::new_hourly(
        "b".to_string(),
        Rate { amount: usd(1, 0), per: Unit::Hour },
        Period::new(ymd(2023, 11, 5), ymd(2023, 11, 12)),
        Dec::from_int(1),
    )
    .unwrap();
    let invoice = Invoice::new(1, vec![a, b], vec![], ymd(2023, 12, 1));
    let p = invoice.overall_period();
    assert_eq!(p.from, ymd(2023, 11, 5));
    assert_eq!(p.until, ymd(2023, 11, 20));
}
