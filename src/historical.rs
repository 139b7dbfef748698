//! Values that change over time, each taking effect on a date.
use crate::date::Date;
use vstd::prelude::*;

verus! {

/// The entries are in strictly increasing order of date.
pub open spec fn sorted<T>(s: Seq<(Date, T)>) -> bool {
    forall|i: int, j: int| 0 <= i < j < s.len() ==> s[i].0.days() < s[j].0.days()
}

/// The value of the last entry, in date order, whose date is not after day `d`.
pub open spec fn value_as_of<T>(s: Seq<(Date, T)>, d: int) -> Option<T>
    decreases s.len(),
{
    if s.len() == 0 {
        None
    } else if s.last().0.days() <= d {
        Some(s.last().1)
    } else {
        value_as_of(s.drop_last(), d)
    }
}

/// `s` with `(k, v)` put in date order, replacing an entry of the same date.
pub open spec fn insert_sorted<T>(s: Seq<(Date, T)>, k: Date, v: T) -> Seq<(Date, T)>
    decreases s.len(),
{
    if s.len() == 0 {
        seq![(k, v)]
    } else if s.last().0.days() < k.days() {
        s.push((k, v))
    } else if s.last().0.days() == k.days() {
        s.drop_last().push((k, v))
    } else {
        insert_sorted(s.drop_last(), k, v).push(s.last())
    }
}

/// Inserting at position `i`, just after the entries not later than `k`.
proof fn lemma_insert_at<T>(s: Seq<(Date, T)>, k: Date, v: T, i: int)
    requires
        sorted(s),
        0 <= i <= s.len(),
        forall|j: int| i <= j < s.len() ==> s[j].0.days() > k.days(),
        i > 0 ==> s[i - 1].0.days() <= k.days(),
    ensures
        insert_sorted(s, k, v) == (if i > 0 && s[i - 1].0.days() == k.days() {
            s.update(i - 1, (k, v))
        } else {
            s.insert(i, (k, v))
        }),
        sorted(insert_sorted(s, k, v)),
    decreases s.len(),
{
    if s.len() == 0 {
        assert(s.insert(i, (k, v)) =~= seq![(k, v)]);
    } else if i == s.len() {
        if s.last().0.days() < k.days() {
            assert(s.insert(i, (k, v)) =~= s.push((k, v)));
        } else {
            assert(s.update(i - 1, (k, v)) =~= s.drop_last().push((k, v)));
        }
    } else {
        let t = s.drop_last();
        lemma_insert_at(t, k, v, i);
        if i > 0 && s[i - 1].0.days() == k.days() {
            assert(t.update(i - 1, (k, v)).push(s.last()) =~= s.update(i - 1, (k, v)));
        } else {
            assert(t.insert(i, (k, v)).push(s.last()) =~= s.insert(i, (k, v)));
        }
    }
}

/// A history of values, at most one per effective date.
#[derive(Debug)]
pub struct Historical<T> {
    history: Vec<(Date, T)>,
}

impl<T> View for Historical<T> {
    type V = Seq<(Date, T)>;

    closed spec fn view(&self) -> Seq<(Date, T)> {
        self.history@
    }
}

impl<T> Historical<T> {
    #[verifier::type_invariant]
    spec fn inv(self) -> bool {
        sorted(self.history@)
    }

    pub fn new() -> (r: Self)
        ensures
            r@ == Seq::<(Date, T)>::empty(),
            sorted(r@),
    {
        Historical { history: Vec::new() }
    }

    /// The value in effect on `date`: the one whose effective date is the
    /// latest not after `date`.
    pub fn as_of(&self, date: &Date) -> (r: Option<&T>)
        ensures
            sorted(self@),
            match r {
                Some(v) => value_as_of(self@, date.days()) == Some(*v),
                None => value_as_of(self@, date.days()) is None,
            },
    {
        proof {
            use_type_invariant(self);
        }
        let target = date.num_days_from_ce();
        let mut i = self.history.len();
        assert(self.history@.subrange(0, i as int) =~= self.history@);
        while i > 0
            invariant
                i <= self.history.len(),
                target == date.days(),
                sorted(self.history@),
                value_as_of(self.history@, target as int) == value_as_of(
                    self.history@.subrange(0, i as int),
                    target as int,
                ),
            decreases i,
        {
            let entry = &self.history[i - 1];
            if entry.0.num_days_from_ce() <= target {
                assert(self.history@.subrange(0, i as int).last() == self.history@[i - 1]);
                assert(value_as_of(self.history@.subrange(0, i as int), target as int) == Some(
                    entry.1,
                ));
                return Some(&entry.1);
            }
            assert(self.history@.subrange(0, i as int).drop_last() =~= self.history@.subrange(
                0,
                i - 1,
            ));
            i = i - 1;
        }
        None
    }

    /// Sets `item` to take effect on `effective`, replacing a value set for
    /// that same date.
    pub fn insert(&mut self, effective: Date, item: T)
        ensures
            final(self)@ == insert_sorted(old(self)@, effective, item),
            sorted(final(self)@),
    {
        let mut taken = Historical::new();
        std::mem::swap(self, &mut taken);
        proof {
            use_type_invariant(&taken);
        }
        let Historical { history: mut h } = taken;
        assert(h@ == old(self)@);
        let k = effective.num_days_from_ce();
        let mut i = h.len();
        while i > 0 && h[i - 1].0.num_days_from_ce() > k
            invariant
                i <= h.len(),
                k == effective.days(),
                forall|j: int| i <= j < h.len() ==> h@[j].0.days() > k,
            decreases i,
        {
            i = i - 1;
        }
        proof {
            lemma_insert_at(h@, effective, item, i as int);
        }
        if i > 0 && h[i - 1].0.num_days_from_ce() == k {
            h.set(i - 1, (effective, item));
        } else {
            h.insert(i, (effective, item));
        }
        *self = Historical { history: h };
    }

    /// The value in effect on `today`.
    pub fn current(&self, today: &Date) -> (r: Option<&T>)
        ensures
            match r {
                Some(v) => value_as_of(self@, today.days()) == Some(*v),
                None => value_as_of(self@, today.days()) is None,
            },
    {
        self.as_of(today)
    }
}

/// In a fresh history given a value on `d1` and then one on a date `d2` not
/// before it, the first value is in effect from `d1` up to the day before
/// `d2`, the second from `d2` on, and none before `d1`.
pub proof fn lemma_two_values<T>(d1: Date, v1: T, d2: Date, v2: T, d: Date)
    requires
        d1.days() <= d2.days(),
    ensures
        ({
            let s = insert_sorted(insert_sorted(Seq::<(Date, T)>::empty(), d1, v1), d2, v2);
            &&& d1.days() <= d.days() < d2.days() ==> value_as_of(s, d.days()) == Some(v1)
            &&& d2.days() <= d.days() ==> value_as_of(s, d.days()) == Some(v2)
            &&& d.days() < d1.days() ==> value_as_of(s, d.days()) is None
        }),
{
    let s1 = insert_sorted(Seq::<(Date, T)>::empty(), d1, v1);
    assert(s1 =~= seq![(d1, v1)]);
    let s = insert_sorted(s1, d2, v2);
    reveal_with_fuel(value_as_of, 3);
    if d1.days() < d2.days() {
        assert(s =~= seq![(d1, v1), (d2, v2)]);
        assert(s.drop_last() =~= s1);
        assert(s1.drop_last() =~= Seq::<(Date, T)>::empty());
    } else {
        assert(s =~= seq![(d2, v2)]);
        assert(s.drop_last() =~= Seq::<(Date, T)>::empty());
    }
}

/// In a history in date order, the value as of day `d` is that of the entry
/// with the latest date not after `d`, and there is none exactly when every
/// entry is dated after `d`.
pub proof fn lemma_as_of_is_latest<T>(s: Seq<(Date, T)>, d: int)
    requires
        sorted(s),
    ensures
        value_as_of(s, d) is None <==> (forall|j: int| 0 <= j < s.len() ==> s[j].0.days() > d),
        value_as_of(s, d) is Some ==> exists|i: int|
            0 <= i < s.len() && s[i].0.days() <= d && value_as_of(s, d) == Some(s[i].1) && (forall|
                j: int,
            | 0 <= j < s.len() && s[j].0.days() <= d ==> s[j].0.days() <= s[i].0.days()),
    decreases s.len(),
{
    if s.len() > 0 {
        let t = s.drop_last();
        assert(sorted(t));
        lemma_as_of_is_latest(t, d);
        let last = s.len() - 1;
        if s.last().0.days() <= d {
            assert(forall|j: int|
                0 <= j < s.len() && s[j].0.days() <= d ==> s[j].0.days() <= s[last].0.days());
        } else {
            assert(forall|j: int| 0 <= j < t.len() ==> t[j] == s[j]);
            if value_as_of(t, d) is Some {
                let i = choose|i: int|
                    0 <= i < t.len() && t[i].0.days() <= d && value_as_of(t, d) == Some(t[i].1) && (
                    forall|j: int| 0 <= j < t.len() && t[j].0.days() <= d ==> t[j].0.days() <= t[i].0.days());
                assert(forall|j: int|
                    0 <= j < s.len() && s[j].0.days() <= d ==> s[j].0.days() <= s[i].0.days()) by {
                    assert forall|j: int| 0 <= j < s.len() && s[j].0.days() <= d implies s[j].0.days()
                        <= s[i].0.days() by {
                        if j < t.len() {
                            assert(t[j] == s[j]);
                        }
                    }
                }
            }
        }
    }
}

} // verus!
