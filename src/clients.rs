//! Clients, the changes recorded about them, and the fold of a change log
//! into the current set of clients.
use crate::billing::{earliest, latest, Invoice, InvoiceItem, Rate, TaxRate};
use crate::date::Date;
use crate::historical::{insert_sorted, value_as_of, Historical};
use vstd::prelude::*;

verus! {

/// Why an invoice update was refused.
#[derive(Clone, Copy, Debug, PartialEq, Eq, Structural)]
pub enum InvoiceError {
    /// The invoice's number does not follow the given count of invoices.
    OutOfSequence(usize),
    NotFound,
    AlreadyPaid,
}

#[derive(Clone, Debug, PartialEq)]
pub enum ClientError {
    /// No client has this key.
    NotFound(String),
    /// No rate is in effect for the client on the date.
    NoRate(String, Date),
    /// The invoice with this number cannot take the update.
    Invoice(usize, InvoiceError),
}

/// A `ClientError` with its keys as character sequences.
pub enum ClientErrorView {
    NotFound(Seq<char>),
    NoRate(Seq<char>, Date),
    Invoice(usize, InvoiceError),
}

impl View for ClientError {
    type V = ClientErrorView;

    open spec fn view(&self) -> ClientErrorView {
        match self {
            ClientError::NotFound(k) => ClientErrorView::NotFound(k@),
            ClientError::NoRate(k, d) => ClientErrorView::NoRate(k@, *d),
            ClientError::Invoice(n, e) => ClientErrorView::Invoice(*n, *e),
        }
    }
}

/// A billable service and the history of its rate.
#[derive(Debug)]
pub struct Service {
    pub name: String,
    pub rates: Historical<Rate>,
}

impl Service {
    pub fn new(name: String) -> (r: Service)
        ensures
            r.name == name,
            r.rates@ == Seq::<(Date, Rate)>::empty(),
    {
        Service { name, rates: Historical::new() }
    }
}

/// A change to one client.
#[derive(Clone, Debug, PartialEq)]
pub enum Update {
    Address(String),
    Name(String),
    /// A rate for the named service, from the date on.
    ServiceRate(String, Date, Rate),
    Invoiced(Invoice),
    /// Invoice number paid on the date.
    Paid(usize, Date),
    /// The taxes that apply from the date on.
    Taxes(Date, Vec<TaxRate>),
}

/// What a client holds, as plain sequences: services as names with their
/// rate histories, invoices in number order, tax sets by effective date.
pub struct ClientModel {
    pub key: Seq<char>,
    pub name: Seq<char>,
    pub address: Seq<char>,
    pub services: Seq<(Seq<char>, Seq<(Date, Rate)>)>,
    pub invoices: Seq<Invoice>,
    pub taxes: Seq<(Date, Vec<TaxRate>)>,
}

/// Index of the last service with this name, or -1.
pub open spec fn find_service(s: Seq<(Seq<char>, Seq<(Date, Rate)>)>, name: Seq<char>) -> int
    decreases s.len(),
{
    if s.len() == 0 {
        -1
    } else if s.last().0 == name {
        s.len() - 1
    } else {
        find_service(s.drop_last(), name)
    }
}

/// The effect of an update on a client, or the error that refuses it.
pub open spec fn update_model(c: ClientModel, u: Update) -> Result<ClientModel, ClientErrorView> {
    match u {
        Update::Address(a) => Ok(ClientModel { address: a@, ..c }),
        Update::Name(n) => Ok(ClientModel { name: n@, ..c }),
        Update::ServiceRate(name, effective, rate) => {
            let i = find_service(c.services, name@);
            if i >= 0 {
                Ok(
                    ClientModel {
                        services: c.services.update(
                            i,
                            (name@, insert_sorted(c.services[i].1, effective, rate)),
                        ),
                        ..c
                    },
                )
            } else {
                Ok(
                    ClientModel {
                        services: c.services.push(
                            (name@, insert_sorted(Seq::empty(), effective, rate)),
                        ),
                        ..c
                    },
                )
            }
        },
        Update::Invoiced(inv) => {
            if inv.number != c.invoices.len() + 1 {
                Err(
                    ClientErrorView::Invoice(
                        inv.number,
                        InvoiceError::OutOfSequence(c.invoices.len() as usize),
                    ),
                )
            } else {
                Ok(ClientModel { invoices: c.invoices.push(inv), ..c })
            }
        },
        Update::Paid(num, when) => {
            if num < 1 || num > c.invoices.len() {
                Err(ClientErrorView::Invoice(num, InvoiceError::NotFound))
            } else if c.invoices[num - 1].paid is Some {
                Err(ClientErrorView::Invoice(num, InvoiceError::AlreadyPaid))
            } else {
                Ok(
                    ClientModel {
                        invoices: c.invoices.update(
                            num - 1,
                            Invoice { paid: Some(when), ..c.invoices[num - 1] },
                        ),
                        ..c
                    },
                )
            }
        },
        Update::Taxes(effective, taxes) => Ok(
            ClientModel { taxes: insert_sorted(c.taxes, effective, taxes), ..c },
        ),
    }
}

/// A client with its services, invoices and tax history.
#[derive(Debug)]
pub struct Client {
    pub key: String,
    pub name: String,
    pub address: String,
    services: Vec<Service>,
    invoices: Vec<Invoice>,
    taxes: Historical<Vec<TaxRate>>,
}

impl View for Client {
    type V = ClientModel;

    closed spec fn view(&self) -> ClientModel {
        ClientModel {
            key: self.key@,
            name: self.name@,
            address: self.address@,
            services: self.services@.map_values(|s: Service| (s.name@, s.rates@)),
            invoices: self.invoices@,
            taxes: self.taxes@,
        }
    }
}

/// Invoices are numbered 1, 2, 3, ... in order.
pub open spec fn numbered(invoices: Seq<Invoice>) -> bool {
    forall|i: int| 0 <= i < invoices.len() ==> #[trigger] invoices[i].number == i + 1
}

impl Client {
    pub open spec fn wf(&self) -> bool {
        numbered(self@.invoices)
    }

    pub fn new(key: &str, name: &str, address: &str) -> (r: Client)
        ensures
            r.wf(),
            r@.key == key@,
            r@.name == name@,
            r@.address == address@,
            r@.services.len() == 0,
            r@.invoices.len() == 0,
            r@.taxes.len() == 0,
    {
        let r = Client {
            key: key.to_string(),
            name: name.to_string(),
            address: address.to_string(),
            services: Vec::new(),
            invoices: Vec::new(),
            taxes: Historical::new(),
        };
        assert(r@.services =~= Seq::empty());
        r
    }

    /// The number the next invoice must carry.
    pub fn next_invoice_num(&self) -> (r: usize)
        requires
            self@.invoices.len() < usize::MAX,
        ensures
            r == self@.invoices.len() + 1,
    {
        proof {
            assert(self@.invoices.len() == self.invoices@.len());
        }
        self.invoices.len() + 1
    }
    /// Applies one change: address and name are replaced; a service rate or
    /// a tax set takes effect from its date; an invoice must carry the next
    /// number; an invoice may be paid once.
    pub fn update(&mut self, update: Update) -> (r: Result<(), ClientError>)
        requires
            old(self).wf(),
        ensures
            final(self).wf(),
            match update_model(old(self)@, update) {
                Ok(m) => r is Ok && final(self)@ == m,
                Err(e) => r matches Err(x) && x@ == e && final(self)@ == old(self)@,
            },
    {
        let ghost before = self@;
        match update {
            Update::Address(addr) => {
                self.address = addr;
            },
            Update::Name(name) => {
                self.name = name;
            },
            Update::ServiceRate(name, effective, rate) => {
                let mut i = self.services.len();
                let ghost names = self@.services;
                assert(names.len() == self.services@.len());
                assert(names.subrange(0, i as int) =~= names);
                while i > 0 && !(self.services[i - 1].name == name)
                    invariant
                        i <= self.services@.len(),
                        self@ == before,
                        names == before.services,
                        names.len() == self.services@.len(),
                        find_service(names, name@) == find_service(names.subrange(0, i as int), name@),
                        forall|j: int| 0 <= j < names.len() ==> #[trigger] names[j].0 == self.services@[j].name@,
                    decreases i,
                {
                    assert(names.subrange(0, i as int).drop_last() =~= names.subrange(0, i - 1));
                    i = i - 1;
                }
                if i > 0 {
                    let k = i - 1;
                    assert(names.subrange(0, i as int).last() == names[k as int]);
                    assert(find_service(names, name@) == k);
                    let mut service = self.services.remove(k);
                    service.rates.insert(effective, rate);
                    self.services.insert(k, service);
                    assert(self@.services =~= before.services.update(
                        k as int,
                        (name@, insert_sorted(before.services[k as int].1, effective, rate)),
                    ));
                } else {
                    assert(names.subrange(0, 0) =~= Seq::<(Seq<char>, Seq<(Date, Rate)>)>::empty());
                    let mut service = Service::new(name);
                    service.rates.insert(effective, rate);
                    self.services.push(service);
                    assert(self@.services =~= before.services.push(
                        (name@, insert_sorted(Seq::empty(), effective, rate)),
                    ));
                }
            },
            Update::Invoiced(invoice) => {
                let n = self.invoices.len();
                if invoice.number == 0 || invoice.number - 1 != n {
                    return Err(ClientError::Invoice(invoice.number, InvoiceError::OutOfSequence(n)));
                }
                self.invoices.push(invoice);
            },
            Update::Paid(num, when) => {
                if num < 1 || num > self.invoices.len() {
                    return Err(ClientError::Invoice(num, InvoiceError::NotFound));
                }
                let k = num - 1;
                if self.invoices[k].paid.is_some() {
                    return Err(ClientError::Invoice(num, InvoiceError::AlreadyPaid));
                }
                let mut invoice = self.invoices.remove(k);
                invoice.paid = Some(when);
                self.invoices.insert(k, invoice);
                assert(self@.invoices =~= before.invoices.update(
                    k as int,
                    Invoice { paid: Some(when), ..before.invoices[k as int] },
                ));
            },
            Update::Taxes(effective, taxes) => {
                self.taxes.insert(effective, taxes);
            },
        }
        Ok(())
    }
    /// The taxes in effect on `date`, none if no tax set was in effect.
    pub fn taxes_as_of(&self, date: &Date) -> (r: Vec<TaxRate>)
        ensures
            match value_as_of(self@.taxes, date.days()) {
                Some(ts) => r@.len() == ts@.len() && forall|i: int|
                    0 <= i < r@.len() ==> (#[trigger] r@[i]).0@ == ts@[i].0@ && r@[i].1 == ts@[i].1,
                None => r@.len() == 0,
            },
    {
        let mut out: Vec<TaxRate> = Vec::new();
        match self.taxes.as_of(date) {
            None => {},
            Some(ts) => {
                let mut i: usize = 0;
                while i < ts.len()
                    invariant
                        i <= ts@.len(),
                        out@.len() == i,
                        forall|j: int|
                            0 <= j < i ==> (#[trigger] out@[j]).0@ == ts@[j].0@ && out@[j].1 == ts@[j].1,
                    decreases ts@.len() - i,
                {
                    out.push(ts[i].duplicate());
                    i = i + 1;
                }
            },
        }
        out
    }

    /// The taxes in effect on `today`.
    pub fn current_taxes(&self, today: &Date) -> (r: Vec<TaxRate>)
        ensures
            match value_as_of(self@.taxes, today.days()) {
                Some(ts) => r@.len() == ts@.len() && forall|i: int|
                    0 <= i < r@.len() ==> (#[trigger] r@[i]).0@ == ts@[i].0@ && r@[i].1 == ts@[i].1,
                None => r@.len() == 0,
            },
    {
        self.taxes_as_of(today)
    }

    /// The end of the latest invoice's overall period, if there is an invoice.
    pub fn billed_until(&self) -> (r: Option<Date>)
        ensures
            self@.invoices.len() == 0 ==> r is None,
            self@.invoices.len() > 0 ==> r == Some(latest(self@.invoices.last().items@)),
    {
        let n = self.invoices.len();
        if n == 0 {
            None
        } else {
            Some(self.invoices[n - 1].overall_period().until)
        }
    }

    /// The invoice with this number.
    pub fn invoice(&self, num: &usize) -> (r: Result<&Invoice, ClientError>)
        requires
            self.wf(),
        ensures
            1 <= *num <= self@.invoices.len() ==> r == Ok::<&Invoice, ClientError>(
                &self@.invoices[*num - 1],
            ),
            !(1 <= *num <= self@.invoices.len()) ==> (r matches Err(e) && e@ == ClientErrorView::Invoice(
                *num,
                InvoiceError::NotFound,
            )),
    {
        let num = *num;
        if num < 1 || num > self.invoices.len() {
            Err(ClientError::Invoice(num, InvoiceError::NotFound))
        } else {
            Ok(&self.invoices[num - 1])
        }
    }

    /// All invoices, in number order.
    pub fn invoices(&self) -> (r: &Vec<Invoice>)
        ensures
            r@ == self@.invoices,
    {
        &self.invoices
    }

    /// Numbers of the invoices not yet paid, in order.
    pub fn unpaid_invoices(&self) -> (r: Vec<usize>)
        ensures
            r@ == self@.invoices.filter(|i: Invoice| i.paid is None).map_values(
                |i: Invoice| i.number,
            ),
    {
        let mut out: Vec<usize> = Vec::new();
        let mut i: usize = 0;
        while i < self.invoices.len()
            invariant
                i <= self.invoices@.len(),
                out@ == self.invoices@.subrange(0, i as int).filter(|i: Invoice| i.paid is None).map_values(
                    |i: Invoice| i.number,
                ),
            decreases self.invoices@.len() - i,
        {
            let ghost before = self.invoices@.subrange(0, i as int);
            assert(self.invoices@.subrange(0, i + 1) =~= before.push(self.invoices@[i as int]));
            proof {
                reveal(Seq::filter);
                assert(self.invoices@.subrange(0, i + 1).drop_last() =~= before);
            }
            if self.invoices[i].paid.is_none() {
                out.push(self.invoices[i].number);
            }
            i = i + 1;
        }
        assert(self.invoices@.subrange(0, i as int) =~= self.invoices@);
        out
    }

    /// Names of the services, in the order they were added.
    pub fn service_names(&self) -> (r: Vec<&str>)
        ensures
            r@.len() == self@.services.len(),
            forall|i: int| 0 <= i < r@.len() ==> (#[trigger] r@[i])@ == self@.services[i].0,
    {
        let mut out: Vec<&str> = Vec::new();
        let mut i: usize = 0;
        while i < self.services.len()
            invariant
                i <= self.services@.len(),
                out@.len() == i,
                forall|j: int| 0 <= j < i ==> (#[trigger] out@[j])@ == self.services@[j].name@,
            decreases self.services@.len() - i,
        {
            out.push(self.services[i].name.as_str());
            i = i + 1;
        }
        out
    }

    /// The service with this name.
    pub fn service(&self, name: &String) -> (r: Option<&Service>)
        ensures
            find_service(self@.services, name@) < 0 ==> r is None,
            find_service(self@.services, name@) >= 0 ==> (r matches Some(s) && s.name@ == name@
                && s.rates@ == self@.services[find_service(self@.services, name@)].1),
    {
        let ghost names = self@.services;
        let mut i = self.services.len();
        assert(names.subrange(0, i as int) =~= names);
        while i > 0 && !(self.services[i - 1].name == *name)
            invariant
                i <= self.services@.len(),
                names == self@.services,
                names.len() == self.services@.len(),
                find_service(names, name@) == find_service(names.subrange(0, i as int), name@),
                forall|j: int| 0 <= j < names.len() ==> #[trigger] names[j] == (self.services@[j].name@, self.services@[j].rates@),
            decreases i,
        {
            assert(names.subrange(0, i as int).drop_last() =~= names.subrange(0, i - 1));
            i = i - 1;
        }
        if i > 0 {
            assert(names.subrange(0, i as int).last() == names[i - 1]);
            Some(&self.services[i - 1])
        } else {
            None
        }
    }

    /// The rate of the named service in effect on `date`.
    pub fn rate_as_of(&self, name: &String, date: &Date) -> (r: Result<Rate, ClientError>)
        ensures
            ({
                let i = find_service(self@.services, name@);
                let found = if i >= 0 { value_as_of(self@.services[i].1, date.days()) } else { None };
                match found {
                    Some(rate) => r == Ok::<Rate, ClientError>(rate),
                    None => r matches Err(e) && e@ == ClientErrorView::NoRate(self@.key, *date),
                }
            }),
    {
        match self.service(name) {
            Some(s) => match s.rates.as_of(date) {
                Some(rate) => Ok(*rate),
                None => Err(ClientError::NoRate(self.key.clone(), *date)),
            },
            None => Err(ClientError::NoRate(self.key.clone(), *date)),
        }
    }

    /// An unpaid invoice of these items, issued on `date`, with the next
    /// number and the taxes in effect on the earliest start of an item.
    pub fn draft_invoice(&self, items: Vec<InvoiceItem>, date: Date) -> (r: Invoice)
        requires
            self@.invoices.len() < usize::MAX,
        ensures
            r.number == self@.invoices.len() + 1,
            r.items@ == items@,
            r.date == date,
            r.paid is None,
            match value_as_of(self@.taxes, earliest(items@).days()) {
                Some(ts) => r.tax_rates@.len() == ts@.len() && forall|i: int|
                    0 <= i < ts@.len() ==> (#[trigger] r.tax_rates@[i]).0@ == ts@[i].0@
                        && r.tax_rates@[i].1 == ts@[i].1,
                None => r.tax_rates@.len() == 0,
            },
    {
        let mut start = Date::max_value();
        let mut i: usize = 0;
        while i < items.len()
            invariant
                i <= items@.len(),
                start == earliest(items@.subrange(0, i as int)),
            decreases items@.len() - i,
        {
            assert(items@.subrange(0, i + 1).drop_last() =~= items@.subrange(0, i as int));
            if items[i].period.from.num_days_from_ce() < start.num_days_from_ce() {
                start = items[i].period.from;
            }
            i = i + 1;
        }
        assert(items@.subrange(0, i as int) =~= items@);
        let taxes = self.taxes_as_of(&start);
        Invoice::new(self.next_invoice_num(), items, taxes, date)
    }
}

/// A moment in UTC: seconds since the Unix epoch and nanoseconds within the second.
#[derive(Clone, Copy, Debug, PartialEq, Eq, Structural)]
pub struct Timestamp {
    pub secs: i64,
    pub nanos: u32,
}

/// What happened to a client.
#[derive(Clone, Debug, PartialEq)]
pub enum Change {
    Added { name: String, address: String },
    Updated(Update),
    Removed,
}

/// A change to the client with the given key, recorded at a moment.
#[derive(Clone, Debug, PartialEq)]
pub struct Event(pub String, pub Timestamp, pub Change);

impl Event {
    pub fn new(key: &str, at: Timestamp, change: Change) -> (r: Event)
        ensures
            r.0@ == key@,
            r.1 == at,
            r.2 == change,
    {
        Event(key.to_string(), at, change)
    }

    pub fn new_update(key: &str, at: Timestamp, update: Update) -> (r: Event)
        ensures
            r.0@ == key@,
            r.1 == at,
            r.2 == Change::Updated(update),
    {
        Event(key.to_string(), at, Change::Updated(update))
    }
}

/// Index of the last entry with this key, or -1.
pub open spec fn find_key(s: Seq<(Seq<char>, ClientModel)>, key: Seq<char>) -> int
    decreases s.len(),
{
    if s.len() == 0 {
        -1
    } else if s.last().0 == key {
        s.len() - 1
    } else {
        find_key(s.drop_last(), key)
    }
}

proof fn lemma_find_key(s: Seq<(Seq<char>, ClientModel)>, key: Seq<char>)
    ensures
        -1 <= find_key(s, key) < s.len(),
        find_key(s, key) >= 0 ==> s[find_key(s, key)].0 == key,
    decreases s.len(),
{
    if s.len() > 0 {
        lemma_find_key(s.drop_last(), key);
    }
}

/// A new client with no services, invoices or taxes.
pub open spec fn fresh_client(key: Seq<char>, name: Seq<char>, address: Seq<char>) -> ClientModel {
    ClientModel {
        key,
        name,
        address,
        services: Seq::empty(),
        invoices: Seq::empty(),
        taxes: Seq::empty(),
    }
}

/// `cs` with `c` under `key`, replacing a client of the same key.
pub open spec fn add_model(s: Seq<(Seq<char>, ClientModel)>, key: Seq<char>, c: ClientModel) -> Seq<
    (Seq<char>, ClientModel),
> {
    let i = find_key(s, key);
    if i >= 0 {
        s.update(i, (key, c))
    } else {
        s.push((key, c))
    }
}

/// The clients after one event, or the error that stops the fold.
pub open spec fn apply_model(s: Seq<(Seq<char>, ClientModel)>, e: Event) -> Result<
    Seq<(Seq<char>, ClientModel)>,
    ClientErrorView,
> {
    let i = find_key(s, e.0@);
    match e.2 {
        Change::Added { name, address } => Ok(add_model(s, e.0@, fresh_client(e.0@, name@, address@))),
        Change::Updated(u) => if i < 0 {
            Err(ClientErrorView::NotFound(e.0@))
        } else {
            match update_model(s[i].1, u) {
                Ok(c) => Ok(s.update(i, (s[i].0, c))),
                Err(x) => Err(x),
            }
        },
        Change::Removed => if i < 0 {
            Err(ClientErrorView::NotFound(e.0@))
        } else {
            Ok(s.remove(i))
        },
    }
}

/// The clients that the events produce in order, from none; the first
/// refused event ends the fold with its error.
pub open spec fn fold_events(events: Seq<Event>) -> Result<
    Seq<(Seq<char>, ClientModel)>,
    ClientErrorView,
>
    decreases events.len(),
{
    if events.len() == 0 {
        Ok(Seq::empty())
    } else {
        match fold_events(events.drop_last()) {
            Ok(s) => apply_model(s, events.last()),
            Err(x) => Err(x),
        }
    }
}

/// The current clients, each under its key.
pub struct Clients(Vec<(String, Client)>);

impl View for Clients {
    type V = Seq<(Seq<char>, ClientModel)>;

    closed spec fn view(&self) -> Seq<(Seq<char>, ClientModel)> {
        self.0@.map_values(|p: (String, Client)| (p.0@, p.1@))
    }
}

impl Clients {
    pub closed spec fn wf(&self) -> bool {
        forall|i: int| 0 <= i < self.0@.len() ==> (#[trigger] self.0@[i]).1.wf()
    }

    pub fn new() -> (r: Clients)
        ensures
            r.wf(),
            r@ == Seq::<(Seq<char>, ClientModel)>::empty(),
    {
        let r = Clients(Vec::new());
        assert(r@ =~= Seq::<(Seq<char>, ClientModel)>::empty());
        r
    }

    fn index_of(&self, key: &String) -> (r: Option<usize>)
        ensures
            find_key(self@, key@) < 0 ==> r is None,
            find_key(self@, key@) >= 0 ==> r is Some,
            r matches Some(i) ==> i < self.0@.len() && i as int == find_key(self@, key@),
            self@.len() == self.0@.len(),
    {
        proof {
            lemma_find_key(self@, key@);
        }
        let ghost v = self@;
        let mut i = self.0.len();
        assert(v.subrange(0, i as int) =~= v);
        while i > 0 && !(self.0[i - 1].0 == *key)
            invariant
                i <= self.0@.len(),
                v == self@,
                v.len() == self.0@.len(),
                find_key(v, key@) == find_key(v.subrange(0, i as int), key@),
            decreases i,
        {
            assert(v.subrange(0, i as int).drop_last() =~= v.subrange(0, i - 1));
            i = i - 1;
        }
        if i > 0 {
            assert(v.subrange(0, i as int).last() == v[i - 1]);
            Some(i - 1)
        } else {
            None
        }
    }

    /// Puts `client` under `key`, replacing a client of that key.
    pub fn add(&mut self, key: &str, client: Client) -> (r: Result<(), ClientError>)
        requires
            old(self).wf(),
            client.wf(),
        ensures
            r is Ok,
            final(self).wf(),
            final(self)@ == add_model(old(self)@, key@, client@),
    {
        let k = key.to_string();
        match self.index_of(&k) {
            Some(i) => {
                self.0.set(i, (k, client));
            },
            None => {
                self.0.push((k, client));
            },
        }
        assert(self@ =~= add_model(old(self)@, key@, client@));
        Ok(())
    }

    /// The client under `key`.
    pub fn get(&self, key: &String) -> (r: Result<&Client, ClientError>)
        ensures
            find_key(self@, key@) < 0 ==> (r matches Err(e) && e@ == ClientErrorView::NotFound(key@)),
            find_key(self@, key@) >= 0 ==> (r matches Ok(c) && c@ == self@[find_key(self@, key@)].1),
    {
        match self.index_of(key) {
            Some(i) => {
                assert(self@[i as int] == (self.0@[i as int].0@, self.0@[i as int].1@));
                Ok(&self.0[i].1)
            },
            None => Err(ClientError::NotFound(key.clone())),
        }
    }

    /// Takes the client under `key` out of the set.
    pub fn remove(&mut self, key: &String) -> (r: Result<(), ClientError>)
        requires
            old(self).wf(),
        ensures
            final(self).wf(),
            find_key(old(self)@, key@) < 0 ==> (r matches Err(e) && e@ == ClientErrorView::NotFound(key@)
                && final(self)@ == old(self)@),
            find_key(old(self)@, key@) >= 0 ==> r is Ok && final(self)@ == old(self)@.remove(
                find_key(old(self)@, key@),
            ),
    {
        match self.index_of(key) {
            Some(i) => {
                self.0.remove(i);
                assert(self@ =~= old(self)@.remove(i as int));
                Ok(())
            },
            None => Err(ClientError::NotFound(key.clone())),
        }
    }

    /// Applies `update` to the client under `key`.
    pub fn update(&mut self, key: &String, update: Update) -> (r: Result<(), ClientError>)
        requires
            old(self).wf(),
        ensures
            final(self).wf(),
            find_key(old(self)@, key@) < 0 ==> (r matches Err(e) && e@ == ClientErrorView::NotFound(key@)
                && final(self)@ == old(self)@),
            find_key(old(self)@, key@) >= 0 ==> ({
                let i = find_key(old(self)@, key@);
                match update_model(old(self)@[i].1, update) {
                    Ok(c) => r is Ok && final(self)@ == old(self)@.update(i, (old(self)@[i].0, c)),
                    Err(x) => (r matches Err(e) && e@ == x) && final(self)@ == old(self)@,
                }
            }),
    {
        match self.index_of(key) {
            Some(i) => {
                let (k, mut client) = self.0.remove(i);
                assert(client.wf());
                let r = client.update(update);
                self.0.insert(i, (k, client));
                if r.is_ok() {
                    assert(self@ =~= old(self)@.update(i as int, (old(self)@[i as int].0, client@)));
                } else {
                    assert(self@ =~= old(self)@);
                }
                r
            },
            None => Err(ClientError::NotFound(key.clone())),
        }
    }

    /// All clients, in the order they were added.
    pub fn iter(&self) -> (r: Vec<&Client>)
        ensures
            r@.len() == self@.len(),
            forall|i: int| 0 <= i < r@.len() ==> (#[trigger] r@[i])@ == self@[i].1,
    {
        let mut out: Vec<&Client> = Vec::new();
        let mut i: usize = 0;
        while i < self.0.len()
            invariant
                i <= self.0@.len(),
                out@.len() == i,
                forall|j: int| 0 <= j < i ==> (#[trigger] out@[j])@ == self.0@[j].1@,
            decreases self.0@.len() - i,
        {
            out.push(&self.0[i].1);
            i = i + 1;
        }
        out
    }

    /// Applies one event: an added client replaces any of the same key; an
    /// update or a removal needs the client to exist.
    pub fn apply_event(&mut self, event: Event) -> (r: Result<(), ClientError>)
        requires
            old(self).wf(),
        ensures
            final(self).wf(),
            match apply_model(old(self)@, event) {
                Ok(s) => r is Ok && final(self)@ == s,
                Err(x) => r matches Err(e) && e@ == x,
            },
    {
        let Event(key, _, change) = event;
        match change {
            Change::Added { name, address } => {
                let client = Client::new(key.as_str(), name.as_str(), address.as_str());
                assert(client@ == fresh_client(key@, name@, address@)) by {
                    assert(client@.services =~= Seq::empty());
                    assert(client@.invoices =~= Seq::empty());
                    assert(client@.taxes =~= Seq::empty());
                }
                self.add(key.as_str(), client)
            },
            Change::Updated(update) => self.update(&key, update),
            Change::Removed => self.remove(&key),
        }
    }

    /// The clients that a log of events produces, folded in order.
    pub fn from_events(events: Vec<Event>) -> (r: Result<Clients, ClientError>)
        ensures
            match fold_events(events@) {
                Ok(s) => r matches Ok(c) && c@ == s && c.wf(),
                Err(x) => r matches Err(e) && e@ == x,
            },
    {
        let ghost all = events@;
        let mut pending = events;
        let mut clients = Clients::new();
        let mut done: Ghost<int> = Ghost(0);
        while pending.len() > 0
            invariant
                clients.wf(),
                all == events@,
                0 <= done@ <= all.len(),
                pending@ == all.subrange(done@, all.len() as int),
                fold_events(all.subrange(0, done@)) == Ok::<Seq<(Seq<char>, ClientModel)>, ClientErrorView>(clients@),
            decreases pending@.len(),
        {
            let e = pending.remove(0);
            let ghost eg = e;
            let ghost before = clients@;
            assert(all.subrange(0, done@ + 1).drop_last() =~= all.subrange(0, done@));
            assert(all.subrange(0, done@ + 1).last() == e);
            assert(fold_events(all.subrange(0, done@ + 1)) == apply_model(before, eg));
            match clients.apply_event(e) {
                Ok(()) => {},
                Err(x) => {
                    assert(apply_model(before, eg) is Err);
                    proof {
                        lemma_fold_stops(all, done@ + 1);
                    }
                    assert(fold_events(all) == Err::<Seq<(Seq<char>, ClientModel)>, ClientErrorView>(x@));
                    return Err(x);
                },
            }
            done = Ghost(done@ + 1);
            assert(pending@ =~= all.subrange(done@, all.len() as int));
        }
        assert(all.subrange(0, done@) =~= all);
        Ok(clients)
    }
}

/// Once a prefix of the log is refused, the whole log is refused with the same error.
proof fn lemma_fold_stops(events: Seq<Event>, k: int)
    requires
        1 <= k <= events.len(),
        fold_events(events.subrange(0, k)) is Err,
    ensures
        fold_events(events) == fold_events(events.subrange(0, k)),
    decreases events.len() - k,
{
    if k < events.len() {
        assert(events.subrange(0, k + 1).drop_last() =~= events.subrange(0, k));
        lemma_fold_stops(events, k + 1);
    } else {
        assert(events.subrange(0, k) =~= events);
    }
}

/// An invoice whose number is not the next one is refused as out of
/// sequence; one with the next number is recorded last, and the next number
/// then grows by exactly one.
pub proof fn lemma_invoice_numbering(c: ClientModel, inv: Invoice)
    ensures
        inv.number != c.invoices.len() + 1 ==> update_model(c, Update::Invoiced(inv)) == Err::<
            ClientModel,
            ClientErrorView,
        >(ClientErrorView::Invoice(inv.number, InvoiceError::OutOfSequence(c.invoices.len() as usize))),
        inv.number == c.invoices.len() + 1 ==> (update_model(c, Update::Invoiced(inv)) matches Ok(d)
            && d.invoices.len() + 1 == c.invoices.len() + 2 && d.invoices.last() == inv
            && d.invoices.drop_last() == c.invoices),
{
    if inv.number == c.invoices.len() + 1 {
        assert(c.invoices.push(inv).drop_last() =~= c.invoices);
    }
}

/// Paying an invoice that is already paid is refused; paying an unpaid one
/// records the date, after which paying it again is refused; an invoice
/// number that does not exist is refused as not found.
pub proof fn lemma_paid_once(c: ClientModel, num: usize, when: Date, again: Date)
    ensures
        !(1 <= num <= c.invoices.len()) ==> update_model(c, Update::Paid(num, when)) == Err::<
            ClientModel,
            ClientErrorView,
        >(ClientErrorView::Invoice(num, InvoiceError::NotFound)),
        1 <= num <= c.invoices.len() && c.invoices[num - 1].paid is Some ==> update_model(
            c,
            Update::Paid(num, when),
        ) == Err::<ClientModel, ClientErrorView>(
            ClientErrorView::Invoice(num, InvoiceError::AlreadyPaid),
        ),
        1 <= num <= c.invoices.len() && c.invoices[num - 1].paid is None ==> ({
            &&& update_model(c, Update::Paid(num, when)) matches Ok(d)
            &&& d.invoices[num - 1].paid == Some(when)
            &&& d.invoices.len() == c.invoices.len()
            &&& update_model(d, Update::Paid(num, again)) == Err::<ClientModel, ClientErrorView>(
                ClientErrorView::Invoice(num, InvoiceError::AlreadyPaid),
            )
        }),
{
}

} // verus!
