//! Billing periods and their proration into billing units.
use crate::date::{
    day_number, days_in_month, max_date, max_days, min_date, min_days, weekday_of, Date,
    DateBoundaries, MAX_YEAR,
};
use crate::dec::{
    aligned_sum, dec_of, half_even_signed, max_scale, over, plus, pow10, product_is_exact, rounded,
    same_value, sum_is_exact, times, Dec,
};
use vstd::prelude::*;

verus! {

/// The unit that a rate is charged per.
#[derive(Clone, Copy, Debug, PartialEq, Eq, Structural)]
pub enum Unit {
    Month,
    Week,
    Day,
    Hour,
}

/// The days from `from` to `until`, both included.
#[derive(Clone, Copy, Debug, PartialEq, Eq, Structural)]
pub struct Period {
    pub from: Date,
    pub until: Date,
}

/// Monday to Friday.
pub open spec fn is_workday(n: int) -> bool {
    weekday_of(n) < 5
}

/// The number of workdays among days `a` to `b`, both included.
pub open spec fn workdays(a: int, b: int) -> int
    decreases b - a + 1,
{
    if b < a {
        0
    } else {
        workdays(a, b - 1) + if is_workday(b) {
            1int
        } else {
            0int
        }
    }
}

proof fn lemma_workdays_bounds(a: int, b: int)
    ensures
        0 <= workdays(a, b),
        a <= b ==> workdays(a, b) <= b - a + 1,
    decreases b - a + 1,
{
    if b >= a {
        lemma_workdays_bounds(a, b - 1);
    }
}

proof fn lemma_workday_counted(a: int, b: int, n: int)
    requires
        a <= n <= b,
        is_workday(n),
    ensures
        workdays(a, b) >= 1,
    decreases b - a,
{
    lemma_workdays_bounds(a, b - 1);
    if n < b {
        lemma_workday_counted(a, b - 1, n);
    }
}

/// Three consecutive days always hold a workday.
proof fn lemma_three_days(a: int, b: int)
    requires
        a + 2 <= b,
    ensures
        workdays(a, b) >= 1,
{
    let w = weekday_of(a);
    if w < 5 {
        lemma_workday_counted(a, b, a);
    } else if w == 5 {
        assert(weekday_of(a + 2) == 0);
        lemma_workday_counted(a, b, a + 2);
    } else {
        assert(weekday_of(a + 1) == 0);
        lemma_workday_counted(a, b, a + 1);
    }
}

proof fn lemma_no_workdays(a: int, b: int)
    requires
        forall|n: int| a <= n <= b ==> !is_workday(n),
    ensures
        workdays(a, b) == 0,
    decreases b - a + 1,
{
    if b >= a {
        lemma_no_workdays(a, b - 1);
    }
}

/// Number of weeks, counted from `a` in steps of seven days, that start no later than `b`.
pub open spec fn week_steps(a: int, b: int) -> int {
    if b < a {
        0
    } else {
        (b - a) / 7 + 1
    }
}

pub open spec fn int_dec(n: int) -> Dec {
    dec_of(n, 0)
}

/// Months billed for `p`: twelve per year crossed, plus the share of
/// workdays of the months from the start of `from`'s month to the end of
/// `until`'s month, times the number of month numbers spanned.
pub open spec fn month_quantity(p: Period) -> Option<Dec> {
    if p.until.m() == 12 && p.until.y() == MAX_YEAR {
        None
    } else {
        let wd = workdays(p.from.days(), p.until.days());
        let full = workdays(
            day_number(p.from.y(), p.from.m(), 1),
            day_number(p.until.y(), p.until.m(), days_in_month(p.until.y(), p.until.m())),
        );
        if full == 0 {
            Some(int_dec(0))
        } else {
            match over(int_dec(wd), int_dec(full)) {
                None => None,
                Some(q) => match times(q, int_dec(p.until.m() - p.from.m() + 1)) {
                    None => None,
                    Some(x) => plus(int_dec((p.until.y() - p.from.y()) * 12), x),
                },
            }
        }
    }
}

/// Weeks billed for `p`: the weeks touched times the workdays, over the
/// workdays from the Monday of `from`'s week to the Sunday of `until`'s week.
pub open spec fn week_quantity(p: Period) -> Option<Dec> {
    let start = p.from.days() - weekday_of(p.from.days());
    let end = p.until.days() + 6 - weekday_of(p.until.days());
    if start < min_days() || end > max_days() {
        None
    } else {
        let full = workdays(start, end);
        if full == 0 {
            Some(int_dec(0))
        } else {
            match times(
                int_dec(week_steps(p.from.days(), p.until.days())),
                int_dec(workdays(p.from.days(), p.until.days())),
            ) {
                None => None,
                Some(x) => over(x, int_dec(full)),
            }
        }
    }
}

/// The quantity of `unit` that `p` amounts to; hours are not derived from
/// dates and come out as zero.
pub open spec fn quantity(p: Period, unit: Unit) -> Option<Dec> {
    match unit {
        Unit::Month => month_quantity(p),
        Unit::Week => week_quantity(p),
        Unit::Day => Some(int_dec(workdays(p.from.days(), p.until.days()))),
        Unit::Hour => Some(int_dec(0)),
    }
}

impl Period {
    pub fn new(from: Date, until: Date) -> (r: Period)
        ensures
            r.from == from,
            r.until == until,
    {
        Period { from, until }
    }

    /// Workdays (Monday to Friday) within the period.
    fn working_days(&self) -> (r: u64)
        ensures
            r == workdays(self.from.days(), self.until.days()),
    {
        let a = self.from.num_days_from_ce();
        let b = self.until.num_days_from_ce();
        proof {
            lemma_workdays_bounds(a as int, b as int);
        }
        if a > b {
            return 0;
        }
        let mut count: u64 = 0;
        let mut cur = self.from;
        loop
            invariant
                a <= cur.days() <= b,
                a == self.from.days(),
                b == self.until.days(),
                b <= max_days(),
                count == workdays(a as int, cur.days() - 1),
                count <= cur.days() - a,
            decreases b - cur.days(),
        {
            let c = cur.num_days_from_ce();
            if cur.weekday() < 5 {
                count = count + 1;
            }
            if c == b {
                return count;
            }
            match cur.succ() {
                Some(next) => {
                    cur = next;
                },
                None => {
                    return count;
                },
            }
        }
    }

    fn num_months(&self) -> (r: Option<Dec>)
        ensures
            r == month_quantity(*self),
            self.from.d() == 1 && self.until.y() == self.from.y() && self.until.m() == self.from.m()
                && self.until.d() == days_in_month(self.until.y(), self.until.m()) && !(
            self.until.m() == 12 && self.until.y() == MAX_YEAR) ==> (r matches Some(q) && q.m()
                == 1 && q.s() == 0),
    {
        let from_days = self.from.num_days_from_ce();
        let until_days = self.until.num_days_from_ce();
        let until_year = self.until.year();
        let until_month = self.until.month();
        let from_month = self.from.month();
        let start = match self.from.start_of_month() {
            Some(d) => d,
            None => {
                return None;
            },
        };
        let end = match self.until.end_of_month() {
            Some(d) => d,
            None => {
                return None;
            },
        };
        let start_days = start.num_days_from_ce();
        let end_days = end.num_days_from_ce();
        let full_period = Period::new(start, end);
        let wd = self.working_days();
        let full = full_period.working_days();
        let ghost p3 = self.from.d() == 1 && self.until.y() == self.from.y() && self.until.m()
            == self.from.m() && self.until.d() == days_in_month(self.until.y(), self.until.m());
        proof {
            lemma_workdays_bounds(full_period.from.days(), full_period.until.days());
            lemma_workdays_bounds(self.from.days(), self.until.days());
            if p3 {
                assert(start.days() == from_days);
                assert(end.days() == until_days);
                assert(days_in_month(self.until.y(), self.until.m()) >= 28);
                lemma_three_days(from_days as int, until_days as int);
                assert(wd == full);
                vstd::arithmetic::div_mod::lemma_fundamental_div_mod_converse(
                    wd as int,
                    full as int,
                    1,
                    0,
                );
            }
        }
        if full == 0 {
            return Some(Dec::from_int(0));
        }
        let years = (self.until.year() - self.from.year()) as i64 * 12;
        let months = self.until.month() as i64 - self.from.month() as i64 + 1;
        let q = match Dec::from_int(wd as i64).checked_div(Dec::from_int(full as i64)) {
            Some(q) => q,
            None => {
                return None;
            },
        };
        let x = match q.checked_mul(Dec::from_int(months)) {
            Some(x) => x,
            None => {
                return None;
            },
        };
        Dec::from_int(years).checked_add(x)
    }
    fn num_weeks(&self) -> (r: Option<Dec>)
        ensures
            r == week_quantity(*self),
    {
        let a = self.from.num_days_from_ce();
        let b = self.until.num_days_from_ce();
        let wa = self.from.weekday();
        let wb = self.until.weekday();
        let start = match self.from.start_of_week() {
            Some(d) => d,
            None => {
                return None;
            },
        };
        let end = match self.until.end_of_week() {
            Some(d) => d,
            None => {
                return None;
            },
        };
        let start_days = start.num_days_from_ce();
        let end_days = end.num_days_from_ce();
        let full = Period::new(start, end).working_days();
        let wd = self.working_days();
        proof {
            lemma_workdays_bounds(start_days as int, end_days as int);
            lemma_workdays_bounds(a as int, b as int);
        }
        if full == 0 {
            return Some(Dec::from_int(0));
        }
        let weeks: i64 = if b < a {
            0
        } else {
            (b as i64 - a as i64) / 7 + 1
        };
        let x = match Dec::from_int(weeks).checked_mul(Dec::from_int(wd as i64)) {
            Some(x) => x,
            None => {
                return None;
            },
        };
        x.checked_div(Dec::from_int(full as i64))
    }

    /// The quantity of `unit` that the period amounts to, prorated by
    /// workdays; `None` where the decimal arithmetic overflows or the
    /// period reaches the last supported month.
    pub fn num_units(&self, unit: &Unit) -> (r: Option<Dec>)
        ensures
            r == quantity(*self, *unit),
            *unit == Unit::Day && (forall|n: int|
                self.from.days() <= n <= self.until.days() ==> !is_workday(n)) ==> (r matches Some(q)
                && q.m() == 0),
            *unit == Unit::Month && self.from.d() == 1 && self.until.y() == self.from.y()
                && self.until.m() == self.from.m() && self.until.d() == days_in_month(
                self.until.y(),
                self.until.m(),
            ) && !(self.until.m() == 12 && self.until.y() == MAX_YEAR) ==> (r matches Some(q) && q.m()
                == 1 && q.s() == 0),
    {
        match unit {
            Unit::Month => self.num_months(),
            Unit::Week => self.num_weeks(),
            Unit::Day => {
                let a = self.from.num_days_from_ce();
                let b = self.until.num_days_from_ce();
                let wd = self.working_days();
                proof {
                    lemma_workdays_bounds(a as int, b as int);
                    if forall|n: int| a <= n <= b ==> !is_workday(n) {
                        lemma_no_workdays(a as int, b as int);
                    }
                }
                Some(Dec::from_int(wd as i64))
            },
            Unit::Hour => Some(Dec::from_int(0)),
        }
    }
}

#[derive(Clone, Copy, Debug, PartialEq, Eq, Structural)]
pub enum Currency {
    Cad,
    Usd,
    Eur,
}

/// An amount of a currency.
#[derive(Clone, Copy, Debug)]
pub struct Money(pub Currency, pub Dec);

/// The sum of two amounts, in the first one's currency.
pub open spec fn money_plus(a: Money, b: Money) -> Option<Money> {
    match plus(a.1, b.1) {
        Some(x) => Some(Money(a.0, x)),
        None => None,
    }
}

/// An amount times a quantity, rounded half to even to two decimal places.
pub open spec fn money_times(a: Money, q: Dec) -> Option<Money> {
    match times(a.1, q) {
        Some(x) => Some(Money(a.0, rounded(x, 2))),
        None => None,
    }
}

impl Money {
    pub fn new(currency: Currency, amount: Dec) -> (r: Money)
        ensures
            r == Money(currency, amount),
    {
        Money(currency, amount)
    }

    /// Adds two amounts of the same currency; `None` on overflow. Where the
    /// decimal arithmetic is exact, the sum is exact.
    pub fn add(self, other: Money) -> (r: Option<Money>)
        ensures
            r == money_plus(self, other),
            sum_is_exact(self.1, other.1) ==> (r matches Some(x) && x.0 == self.0 && x.1.m()
                == aligned_sum(self.1, other.1) && x.1.s() == max_scale(self.1, other.1)),
    {
        match self.1.checked_add(other.1) {
            Some(x) => Some(Money(self.0, x)),
            None => None,
        }
    }

    /// Multiplies by a quantity and rounds half to even to two decimal
    /// places; `None` on overflow. Where the product is exact, the result is
    /// the exact product so rounded.
    pub fn mul(self, q: Dec) -> (r: Option<Money>)
        ensures
            r == money_times(self, q),
            product_is_exact(self.1, q) ==> (r matches Some(x) && x.0 == self.0 && (if self.1.s()
                + q.s() <= 2 {
                x.1.m() == self.1.m() * q.m() && x.1.s() == self.1.s() + q.s()
            } else {
                x.1.m() == half_even_signed(
                    self.1.m() * q.m(),
                    pow10((self.1.s() + q.s() - 2) as nat),
                ) && x.1.s() == 2
            })),
    {
        match self.1.checked_mul(q) {
            Some(x) => {
                let y = x.round_dp(2);
                Some(Money(self.0, y))
            },
            None => None,
        }
    }
}

impl PartialEq for Money {
    fn eq(&self, other: &Money) -> (r: bool) {
        self.0 == other.0 && self.1 == other.1
    }
}

impl vstd::std_specs::cmp::PartialEqSpecImpl for Money {
    open spec fn obeys_eq_spec() -> bool {
        true
    }

    open spec fn eq_spec(&self, other: &Money) -> bool {
        self.0 == other.0 && same_value(self.1, other.1)
    }
}

/// A price per unit.
#[derive(Clone, Copy, Debug, PartialEq)]
pub struct Rate {
    pub amount: Money,
    pub per: Unit,
}

/// A named tax and its rate as a fraction (0.05 for 5%).
#[derive(Clone, Debug, PartialEq)]
pub struct TaxRate(pub String, pub Dec);

impl TaxRate {
    /// A tax of `percentage` percent.
    pub fn new(name: String, percentage: i64) -> (r: TaxRate)
        ensures
            r.0 == name,
            r.1.m() == percentage,
            r.1.s() == 2,
    {
        TaxRate(name, Dec::new(percentage, 2))
    }

    /// A copy with the same name and rate.
    pub fn duplicate(&self) -> (r: TaxRate)
        ensures
            r.0@ == self.0@,
            r.1 == self.1,
    {
        TaxRate(self.0.clone(), self.1)
    }
}

/// One billed line: a service, its rate, the period and what it comes to.
#[derive(Clone, Debug, PartialEq)]
pub struct InvoiceItem {
    pub name: String,
    pub rate: Rate,
    pub period: Period,
    pub quantity: Dec,
    pub amount: Money,
}

impl InvoiceItem {
    /// An item whose quantity is the period prorated in the rate's unit;
    /// `None` where the decimal arithmetic overflows.
    pub fn new(name: String, rate: Rate, period: Period) -> (r: Option<InvoiceItem>)
        ensures
            r is Some <==> (quantity(period, rate.per) matches Some(q) && money_times(
                rate.amount,
                q,
            ) is Some),
            r matches Some(it) ==> it.name == name && it.rate == rate && it.period == period && Some(
                it.quantity,
            ) == quantity(period, rate.per) && Some(it.amount) == money_times(
                rate.amount,
                it.quantity,
            ),
    {
        let quantity = match period.num_units(&rate.per) {
            Some(q) => q,
            None => {
                return None;
            },
        };
        let amount = match rate.amount.mul(quantity) {
            Some(a) => a,
            None => {
                return None;
            },
        };
        Some(InvoiceItem { name, rate, period, quantity, amount })
    }

    /// An item with a quantity given directly, as for hourly work; `None`
    /// where the decimal arithmetic overflows.
    pub fn new_hourly(name: String, rate: Rate, period: Period, quantity: Dec) -> (r: Option<
        InvoiceItem,
    >)
        ensures
            r is Some <==> money_times(rate.amount, quantity) is Some,
            r matches Some(it) ==> it.name == name && it.rate == rate && it.period == period
                && it.quantity == quantity && Some(it.amount) == money_times(rate.amount, quantity),
    {
        let amount = match rate.amount.mul(quantity) {
            Some(a) => a,
            None => {
                return None;
            },
        };
        Some(InvoiceItem { name, rate, period, quantity, amount })
    }
}

/// Subtotal, tax amounts and total of an invoice.
#[derive(Clone, Debug, PartialEq)]
pub struct InvoiceTotal {
    pub subtotal: Money,
    pub taxes: Vec<(TaxRate, Money)>,
    pub total: Money,
}

/// A numbered invoice, dated on issue, paid once.
#[derive(Clone, Debug, PartialEq)]
pub struct Invoice {
    pub date: Date,
    pub number: usize,
    pub items: Vec<InvoiceItem>,
    pub tax_rates: Vec<TaxRate>,
    pub paid: Option<Date>,
}

/// The sum of the item amounts, `None` for no items or on overflow.
pub open spec fn subtotal_of(items: Seq<InvoiceItem>) -> Option<Money>
    decreases items.len(),
{
    if items.len() == 0 {
        None
    } else if items.len() == 1 {
        Some(items[0].amount)
    } else {
        match subtotal_of(items.drop_last()) {
            Some(acc) => money_plus(acc, items.last().amount),
            None => None,
        }
    }
}

/// The tax amount of each rate on `subtotal`, `None` on overflow.
pub open spec fn taxes_of(subtotal: Money, rates: Seq<TaxRate>) -> Option<Seq<Money>>
    decreases rates.len(),
{
    if rates.len() == 0 {
        Some(Seq::empty())
    } else {
        match taxes_of(subtotal, rates.drop_last()) {
            Some(t) => match money_times(subtotal, rates.last().1) {
                Some(x) => Some(t.push(x)),
                None => None,
            },
            None => None,
        }
    }
}

/// `acc` plus the amounts of `xs` in order, `None` on overflow.
pub open spec fn sum_onto(acc: Money, xs: Seq<Money>) -> Option<Money>
    decreases xs.len(),
{
    if xs.len() == 0 {
        Some(acc)
    } else {
        match sum_onto(acc, xs.drop_last()) {
            Some(a) => money_plus(a, xs.last()),
            None => None,
        }
    }
}

/// Subtotal, tax amounts and total of an invoice.
pub open spec fn calculation(inv: Invoice) -> Option<(Money, Seq<Money>, Money)> {
    match subtotal_of(inv.items@) {
        None => None,
        Some(sub) => match taxes_of(sub, inv.tax_rates@) {
            None => None,
            Some(t) => match sum_onto(sub, t) {
                None => None,
                Some(total) => Some((sub, t, total)),
            },
        },
    }
}

/// `t` holds the subtotal, the tax amounts (with their rates) and the total
/// that `calculation` gives for `inv`.
pub open spec fn total_matches(t: InvoiceTotal, inv: Invoice) -> bool {
    &&& calculation(inv) is Some
    &&& t.subtotal == (calculation(inv)->0).0
    &&& t.total == (calculation(inv)->0).2
    &&& t.taxes@.len() == inv.tax_rates@.len()
    &&& (calculation(inv)->0).1.len() == inv.tax_rates@.len()
    &&& forall|i: int|
        0 <= i < t.taxes@.len() ==> #[trigger] t.taxes@[i].1 == (calculation(inv)->0).1[i] && (
        t.taxes@[i].0).0@ == inv.tax_rates@[i].0@ && (t.taxes@[i].0).1 == inv.tax_rates@[i].1
}

/// The earliest start among the items (the latest supported date for none).
pub open spec fn earliest(items: Seq<InvoiceItem>) -> Date
    decreases items.len(),
{
    if items.len() == 0 {
        max_date()
    } else {
        let acc = earliest(items.drop_last());
        if items.last().period.from.days() < acc.days() {
            items.last().period.from
        } else {
            acc
        }
    }
}

/// The latest end among the items (the earliest supported date for none).
pub open spec fn latest(items: Seq<InvoiceItem>) -> Date
    decreases items.len(),
{
    if items.len() == 0 {
        min_date()
    } else {
        let acc = latest(items.drop_last());
        if items.last().period.until.days() >= acc.days() {
            items.last().period.until
        } else {
            acc
        }
    }
}

impl Invoice {
    /// An unpaid invoice issued on `date`.
    pub fn new(number: usize, items: Vec<InvoiceItem>, tax_rates: Vec<TaxRate>, date: Date) -> (r:
        Invoice)
        ensures
            r == (Invoice { date, number, items, tax_rates, paid: None }),
    {
        Invoice { date, number, items, tax_rates, paid: None }
    }

    /// Subtotal, taxes on it and total; `None` for an invoice without items
    /// or where the decimal arithmetic overflows.
    pub fn calculate(&self) -> (r: Option<InvoiceTotal>)
        ensures
            match r {
                Some(t) => total_matches(t, *self),
                None => calculation(*self) is None,
            },
    {
        let n = self.items.len();
        if n == 0 {
            return None;
        }
        let mut subtotal = self.items[0].amount;
        let mut i: usize = 1;
        assert(self.items@.subrange(0, 1).drop_last() =~= Seq::<InvoiceItem>::empty());
        while i < n
            invariant
                1 <= i <= n,
                n == self.items@.len(),
                subtotal_of(self.items@.subrange(0, i as int)) == Some(subtotal),
            decreases n - i,
        {
            assert(self.items@.subrange(0, i + 1).drop_last() =~= self.items@.subrange(0, i as int));
            match subtotal.add(self.items[i].amount) {
                Some(x) => {
                    subtotal = x;
                },
                None => {
                    proof {
                        lemma_subtotal_none(self.items@, i as int + 1);
                    }
                    return None;
                },
            }
            i = i + 1;
        }
        assert(self.items@.subrange(0, n as int) =~= self.items@);
        let mut taxes: Vec<(TaxRate, Money)> = Vec::new();
        let mut amounts: Ghost<Seq<Money>> = Ghost(Seq::empty());
        let mut j: usize = 0;
        while j < self.tax_rates.len()
            invariant
                j <= self.tax_rates@.len(),
                subtotal_of(self.items@) == Some(subtotal),
                taxes_of(subtotal, self.tax_rates@.subrange(0, j as int)) == Some(amounts@),
                taxes@.len() == j,
                amounts@.len() == j,
                forall|k: int|
                    0 <= k < j ==> #[trigger] taxes@[k].1 == amounts@[k] && (taxes@[k].0).0@
                        == self.tax_rates@[k].0@ && (taxes@[k].0).1 == self.tax_rates@[k].1,
            decreases self.tax_rates@.len() - j,
        {
            let tr = &self.tax_rates[j];
            assert(self.tax_rates@.subrange(0, j + 1).drop_last() =~= self.tax_rates@.subrange(
                0,
                j as int,
            ));
            match subtotal.mul(tr.1) {
                Some(x) => {
                    taxes.push((tr.duplicate(), x));
                    amounts = Ghost(amounts@.push(x));
                },
                None => {
                    proof {
                        lemma_taxes_none(subtotal, self.tax_rates@, j as int + 1);
                    }
                    return None;
                },
            }
            j = j + 1;
        }
        assert(self.tax_rates@.subrange(0, j as int) =~= self.tax_rates@);
        let mut total = subtotal;
        let mut k: usize = 0;
        while k < taxes.len()
            invariant
                k <= taxes@.len(),
                subtotal_of(self.items@) == Some(subtotal),
                taxes_of(subtotal, self.tax_rates@) == Some(amounts@),
                taxes@.len() == amounts@.len(),
                amounts@.len() == self.tax_rates@.len(),
                forall|m: int|
                    0 <= m < taxes@.len() ==> #[trigger] taxes@[m].1 == amounts@[m] && (taxes@[m].0).0@
                        == self.tax_rates@[m].0@ && (taxes@[m].0).1 == self.tax_rates@[m].1,
                sum_onto(subtotal, amounts@.subrange(0, k as int)) == Some(total),
            decreases taxes@.len() - k,
        {
            assert(amounts@.subrange(0, k + 1).drop_last() =~= amounts@.subrange(0, k as int));
            match total.add(taxes[k].1) {
                Some(x) => {
                    total = x;
                },
                None => {
                    proof {
                        lemma_sum_none(subtotal, amounts@, k as int + 1);
                    }
                    return None;
                },
            }
            k = k + 1;
        }
        assert(amounts@.subrange(0, k as int) =~= amounts@);
        assert(sum_onto(subtotal, amounts@) == Some(total));
        assert(calculation(*self) == Some((subtotal, amounts@, total)));
        let r = InvoiceTotal { subtotal, taxes, total };
        assert forall|i: int| 0 <= i < r.taxes@.len() implies #[trigger] r.taxes@[i].1 == (
        calculation(*self)->0).1[i] && (r.taxes@[i].0).0@ == self.tax_rates@[i].0@ && (
        r.taxes@[i].0).1 == self.tax_rates@[i].1 by {
            assert(taxes@[i].1 == amounts@[i]);
        }
        assert(r.subtotal == (calculation(*self)->0).0);
        assert(r.total == (calculation(*self)->0).2);
        assert(r.taxes@.len() == self.tax_rates@.len());
        assert((calculation(*self)->0).1.len() == self.tax_rates@.len());
        assert(total_matches(r, *self));
        Some(r)
    }

    /// The period from the earliest start to the latest end of the items.
    pub fn overall_period(&self) -> (r: Period)
        ensures
            r.from == earliest(self.items@),
            r.until == latest(self.items@),
    {
        let mut min = Date::max_value();
        let mut max = Date::min_value();
        let mut i: usize = 0;
        while i < self.items.len()
            invariant
                i <= self.items@.len(),
                min == earliest(self.items@.subrange(0, i as int)),
                max == latest(self.items@.subrange(0, i as int)),
            decreases self.items@.len() - i,
        {
            let p = self.items[i].period;
            assert(self.items@.subrange(0, i + 1).drop_last() =~= self.items@.subrange(0, i as int));
            if p.from.num_days_from_ce() < min.num_days_from_ce() {
                min = p.from;
            }
            if p.until.num_days_from_ce() >= max.num_days_from_ce() {
                max = p.until;
            }
            i = i + 1;
        }
        assert(self.items@.subrange(0, i as int) =~= self.items@);
        Period::new(min, max)
    }
}

/// Once a prefix's subtotal fails, the subtotal of any longer prefix fails.
proof fn lemma_subtotal_none(items: Seq<InvoiceItem>, k: int)
    requires
        1 <= k <= items.len(),
        subtotal_of(items.subrange(0, k)) is None,
    ensures
        subtotal_of(items) is None,
    decreases items.len() - k,
{
    if k < items.len() {
        assert(items.subrange(0, k + 1).drop_last() =~= items.subrange(0, k));
        lemma_subtotal_none(items, k + 1);
    } else {
        assert(items.subrange(0, k) =~= items);
    }
}

proof fn lemma_taxes_none(sub: Money, rates: Seq<TaxRate>, k: int)
    requires
        0 <= k <= rates.len(),
        taxes_of(sub, rates.subrange(0, k)) is None,
    ensures
        taxes_of(sub, rates) is None,
    decreases rates.len() - k,
{
    if k < rates.len() {
        assert(rates.subrange(0, k + 1).drop_last() =~= rates.subrange(0, k));
        lemma_taxes_none(sub, rates, k + 1);
    } else {
        assert(rates.subrange(0, k) =~= rates);
    }
}

proof fn lemma_sum_none(acc: Money, xs: Seq<Money>, k: int)
    requires
        0 <= k <= xs.len(),
        sum_onto(acc, xs.subrange(0, k)) is None,
    ensures
        sum_onto(acc, xs) is None,
    decreases xs.len() - k,
{
    if k < xs.len() {
        assert(xs.subrange(0, k + 1).drop_last() =~= xs.subrange(0, k));
        lemma_sum_none(acc, xs, k + 1);
    } else {
        assert(xs.subrange(0, k) =~= xs);
    }
}

} // verus!
