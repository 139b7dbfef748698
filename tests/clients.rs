use invogen::billing::{Currency, Invoice, InvoiceItem, Money, Period, Rate, TaxRate, Unit};
use invogen::clients::{Change, Client, ClientError, Clients, Event, InvoiceError, Timestamp, Update};
use invogen::date::Date;
use invogen::dec::Dec;

fn ymd(year: i32, month: u32, day: u32) -> Date {
    Date::from_ymd_opt(year, month, day).unwrap()
}

fn at(secs: i64) -> Timestamp {
    Timestamp { secs, nanos: 0 }
}

fn billing_rate() -> Rate {
    Rate { amount: Money::new(Currency::Usd, Dec::from_int(1000)), per: Unit::Month }
}

fn invoice(number: usize) -> Invoice {
    let p = Period::new(ymd(2023, 11, 1), ymd(2023, 11, 30));
    let item = InvoiceItem::new("Stuff".to_string(), billing_rate(), p).unwrap();
    Invoice::new(number, vec![item], vec![], ymd(2023, 12, 1))
}

#[test]
fn client_from_events() -> Result<(), ClientError> {
    let events = vec![
        Event(
            "innotech".to_string(),
            at(1618482600),
            Change::Added { name: "Innotech".to_string(), address: "Some Place".to_string() },
        ),
        Event(
            "innotech".to_string(),
            at(1618565400),
            Change::Updated(Update::ServiceRate("Stuff".to_string(), ymd(2021, 4, 15), billing_rate())),
        ),
    ];
    let clients = Clients::from_events(events)?;

    let client = clients.get(&"innotech".to_string())?;
    let query_date = ymd(2021, 4, 17);
    let service = client.service(&"Stuff".to_string()).unwrap();

    assert_eq!(&client.address, "Some Place");
    assert_eq!(&service.name, "Stuff");
    assert_eq!(service.rates.as_of(&query_date), Some(&billing_rate()));
    Ok(())
}

#[test]
fn service_rate_as_of_dates() {
    let events = vec![
        Event::new("acme", at(0), Change::Added { name: "Acme".to_string(), address: "123 St".to_string() }),
        Event::new_update(
            "acme",
            at(1),
            Update::ServiceRate("consulting".to_string(), ymd(2021, 4, 1), billing_rate()),
        ),
    ];
    let clients = Clients::from_events(events).unwrap();
    let client = clients.get(&"acme".to_string()).unwrap();
    let rates = &client.service(&"consulting".to_string()).unwrap().rates;
    assert_eq!(rates.as_of(&ymd(2021, 4, 15)), Some(&billing_rate()));
    assert_eq!(rates.as_of(&ymd(2021, 3, 15)), None);
    assert_eq!(client.rate_as_of(&"consulting".to_string(), &ymd(2021, 4, 15)), Ok(billing_rate()));
    assert_eq!(
        client.rate_as_of(&"consulting".to_string(), &ymd(2021, 3, 15)),
        Err(ClientError::NoRate("acme".to_string(), ymd(2021, 3, 15)))
    );
    assert_eq!(client.service_names(), vec!["consulting"]);
}

#[test]
fn invoices_must_follow_in_sequence() {
    let mut c = Client::new("acme", "Acme", "123 St");
    assert_eq!(c.next_invoice_num(), 1);
    assert_eq!(
        c.update(Update::Invoiced(invoice(2))),
        Err(ClientError::Invoice(2, InvoiceError::OutOfSequence(0)))
    );
    assert_eq!(c.next_invoice_num(), 1);
    assert_eq!(c.update(Update::Invoiced(invoice(1))), Ok(()));
    assert_eq!(c.next_invoice_num(), 2);
    assert_eq!(
        c.update(Update::Invoiced(invoice(1))),
        Err(ClientError::Invoice(1, InvoiceError::OutOfSequence(1)))
    );
    assert_eq!(c.update(Update::Invoiced(invoice(2))), Ok(()));
    assert_eq!(c.next_invoice_num(), 3);
    assert_eq!(c.billed_until(), Some(ymd(2023, 11, 30)));
}

#[test]
fn invoices_are_paid_once() {
    let mut c = Client::new("acme", "Acme", "123 St");
    c.update(Update::Invoiced(invoice(1))).unwrap();
    c.update(Update::Invoiced(invoice(2))).unwrap();
    assert_eq!(c.unpaid_invoices(), vec![1, 2]);
    assert_eq!(
        c.update(Update::Paid(3, ymd(2024, 1, 5))),
        Err(ClientError::Invoice(3, InvoiceError::NotFound))
    );
    assert_eq!(c.update(Update::Paid(1, ymd(2024, 1, 5))), Ok(()));
    assert_eq!(c.invoice(&1).unwrap().paid, Some(ymd(2024, 1, 5)));
    assert_eq!(c.unpaid_invoices(), vec![2]);
    assert_eq!(
        c.update(Update::Paid(1, ymd(2024, 1, 6))),
        Err(ClientError::Invoice(1, InvoiceError::AlreadyPaid))
    );
    assert_eq!(c.invoice(&1).unwrap().paid, Some(ymd(2024, 1, 5)));
    assert!(matches!(c.invoice(&7), Err(ClientError::Invoice(7, InvoiceError::NotFound))));
}

#[test]
fn name_address_and_taxes() {
    let mut c = Client::new("acme", "Acme", "123 St");
    c.update(Update::Name("Acme Inc".to_string())).unwrap();
    c.update(Update::Address("9 Road".to_string())).unwrap();
    c.update(Update::Taxes(ymd(2022, 1, 1), vec![TaxRate::new("GST".to_string(), 5)])).unwrap();
    c.update(Update::Taxes(ymd(2023, 1, 1), vec![TaxRate::new("HST".to_string(), 13)])).unwrap();
    assert_eq!(c.name, "Acme Inc");
    assert_eq!(c.address, "9 Road");
    assert_eq!(c.taxes_as_of(&ymd(2021, 6, 1)), vec![]);
    assert_eq!(c.taxes_as_of(&ymd(2022, 6, 1)), vec![TaxRate::new("GST".to_string(), 5)]);
    assert_eq!(c.current_taxes(&ymd(2024, 6, 1)), vec![TaxRate::new("HST".to_string(), 13)]);
    assert_eq!(c.billed_until(), None);
}

#[test]
fn draft_invoice_takes_next_number_and_taxes() {
    let mut c = Client::new("acme", "Acme", "123 St");
    c.update(Update::Taxes(ymd(2023, 1, 1), vec![TaxRate::new("GST".to_string(), 5)])).unwrap();
    c.update(Update::Invoiced(invoice(1))).unwrap();
    let p = Period::new(ymd(2023, 12, 1), ymd(2023, 12, 31));
    let item = InvoiceItem::new("Stuff".to_string(), billing_rate(), p).unwrap();
    let draft = c.draft_invoice(vec![item], ymd(2024, 1, 2));
    assert_eq!(draft.number, 2);
    assert_eq!(draft.tax_rates, vec![TaxRate::new("GST".to_string(), 5)]);
    assert_eq!(draft.paid, None);
    assert_eq!(c.update(Update::Invoiced(draft)), Ok(()));
}

#[test]
fn events_for_unknown_clients_fail() {
    let update = vec![Event::new_update("ghost", at(0), Update::Name("x".to_string()))];
    assert!(matches!(Clients::from_events(update), Err(ClientError::NotFound(k)) if k == "ghost"));
    let removal = vec![Event::new("ghost", at(0), Change::Removed)];
    assert!(matches!(Clients::from_events(removal), Err(ClientError::NotFound(_))));
}

#[test]
fn added_client_replaces_and_removed_client_goes() {
    let events = vec![
        Event::new("a", at(0), Change::Added { name: "A".to_string(), address: "1".to_string() }),
        Event::new("b", at(1), Change::Added { name: "B".to_string(), address: "2".to_string() }),
        Event::new("a", at(2), Change::Added { name: "A2".to_string(), address: "3".to_string() }),
        Event::new("b", at(3), Change::Removed),
    ];
    let clients = Clients::from_events(events).unwrap();
    let all = clients.iter();
    assert_eq!(all.len(), 1);
    assert_eq!(all[0].name, "A2");
    assert!(clients.get(&"b".to_string()).is_err());
}

#[test]
fn registry_operations() {
    let mut clients = Clients::new();
    clients.add("a", Client::new("a", "A", "1")).unwrap();
    assert!(clients.update(&"a".to_string(), Update::Name("AA".to_string())).is_ok());
    assert_eq!(clients.get(&"a".to_string()).unwrap().name, "AA");
    assert!(matches!(clients.update(&"z".to_string(), Update::Name("Z".to_string())), Err(ClientError::NotFound(_))));
    assert!(clients.remove(&"a".to_string()).is_ok());
    assert!(matches!(clients.remove(&"a".to_string()), Err(ClientError::NotFound(_))));
}
