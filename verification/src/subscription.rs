//! Subscriptions: when the next payment of a recurring bill is expected.
use chrono::Datelike;
use chrono::NaiveDate;
use chrono::TimeDelta;
use vstd::prelude::*;

use crate::ranking::ints;
use crate::text::chars_equal;
use crate::text::chars_of;

verus! {

/// A day of the proleptic Gregorian calendar, numbered as chrono's
/// `Datelike::num_days_from_ce` numbers it (January 1 of year 1 is day 1).
#[derive(Debug, Clone, Copy, PartialEq, Eq)]
pub struct CalendarDay {
    pub days_from_ce: i32,
}

/// The number of days between two payments of a subscription billed with
/// the given frequency: 7 when weekly, 365 when yearly, 30 when monthly and
/// for any other frequency.
pub open spec fn period_days(frequency: Seq<char>) -> int {
    if frequency == "weekly"@ {
        7
    } else if frequency == "yearly"@ {
        365
    } else {
        30
    }
}

/// The number of days between two payments for the given frequency.
pub fn frequency_period_days(frequency: &str) -> (days: i64)
    ensures
        days == period_days(frequency@),
{
    let f = chars_of(frequency);
    if chars_equal(&f, &chars_of("weekly")) {
        7
    } else if chars_equal(&f, &chars_of("yearly")) {
        365
    } else {
        30
    }
}

/// The number of `NaiveDate::MIN` (January 1, 262144 BCE), the first day
/// chrono's calendar holds.
pub const FIRST_CALENDAR_DAY: i32 = -95_746_129;

/// The number of `NaiveDate::MAX` (December 31, 262142 CE), the last day
/// chrono's calendar holds.
pub const LAST_CALENDAR_DAY: i32 = 95_745_399;

/// The day numbered `day` is in chrono's calendar.
pub open spec fn in_calendar(day: int) -> bool {
    FIRST_CALENDAR_DAY <= day <= LAST_CALENDAR_DAY
}

/// Calls chrono to add `days` days to the day numbered `day`
/// (`NaiveDate::from_num_days_from_ce_opt`, then `checked_add_signed` with
/// `TimeDelta::days`, then `num_days_from_ce`). It returns a day exactly when
/// both days lie between `NaiveDate::MIN` and `NaiveDate::MAX`, and that day
/// is `day + days`. `TimeDelta::days` panics beyond about 106 billion days
/// either way, which `requires` rules out.
#[verifier::external_body]
fn add_days_in_calendar(day: i32, days: i64) -> (r: Option<i32>)
    requires
        -106_751_991_167 <= days <= 106_751_991_167,
    ensures
        r.is_some() == (in_calendar(day as int) && in_calendar(day + days)),
        r matches Some(d) ==> d == day + days,
{
    match NaiveDate::from_num_days_from_ce_opt(day) {
        Some(date) => match date.checked_add_signed(TimeDelta::days(days)) {
            Some(next) => Some(next.num_days_from_ce()),
            None => None,
        },
        None => None,
    }
}

/// The day the next payment is expected, one period after the last one;
/// `None` when the last day or that day lies outside chrono's calendar.
pub fn predict_next_date(last_date: CalendarDay, frequency: &str) -> (next: Option<CalendarDay>)
    ensures
        next is Some <==> in_calendar(last_date.days_from_ce as int) && in_calendar(
            last_date.days_from_ce + period_days(frequency@),
        ),
        next matches Some(d) ==> d.days_from_ce == last_date.days_from_ce + period_days(frequency@),
{
    let period = frequency_period_days(frequency);
    match add_days_in_calendar(last_date.days_from_ce, period) {
        Some(day) => Some(CalendarDay { days_from_ce: day }),
        None => None,
    }
}

// ---------------------------------------------------------------------------
// Receipts by vendor
// ---------------------------------------------------------------------------

/// The vendors of a list of receipts (`None` for a receipt without one).
pub open spec fn vendors_view(vendors: Seq<Option<String>>) -> Seq<Option<Seq<char>>> {
    vendors.map_values(
        |o: Option<String>|
            match o {
                Some(s) => Some(s@),
                None => None,
            },
    )
}

/// The positions, in order, of the receipts from vendor `v`.
pub open spec fn vendor_positions(vendors: Seq<Option<Seq<char>>>, v: Seq<char>) -> Seq<int>
    decreases vendors.len(),
{
    if vendors.len() == 0 {
        Seq::empty()
    } else {
        let rest = vendor_positions(vendors.drop_last(), v);
        if vendors.last() == Some(v) {
            rest.push(vendors.len() - 1)
        } else {
            rest
        }
    }
}

/// The vendors that occur, each once, in the order of their first receipt.
pub open spec fn vendor_order(vendors: Seq<Option<Seq<char>>>) -> Seq<Seq<char>>
    decreases vendors.len(),
{
    if vendors.len() == 0 {
        Seq::empty()
    } else {
        let rest = vendor_order(vendors.drop_last());
        match vendors.last() {
            Some(v) => if rest.contains(v) {
                rest
            } else {
                rest.push(v)
            },
            None => rest,
        }
    }
}

/// The receipts grouped by vendor: one group per vendor, in the order of
/// the vendors' first receipts, each listing the positions of that vendor's
/// receipts in order. Receipts without a vendor are in no group.
pub open spec fn vendor_groups_spec(vendors: Seq<Option<Seq<char>>>) -> Seq<(Seq<char>, Seq<int>)> {
    vendor_order(vendors).map_values(|v: Seq<char>| (v, vendor_positions(vendors, v)))
}

/// The receipts of one vendor, by their positions in the list of receipts.
#[derive(Debug, Clone)]
pub struct VendorGroup {
    pub vendor: String,
    pub receipts: Vec<usize>,
}

/// The contents of a list of groups.
pub open spec fn groups_view(groups: Seq<VendorGroup>) -> Seq<(Seq<char>, Seq<int>)> {
    groups.map_values(|g: VendorGroup| (g.vendor@, ints(g.receipts@)))
}

proof fn lemma_vendor_positions_step(vendors: Seq<Option<Seq<char>>>, i: int, v: Seq<char>)
    requires
        0 <= i < vendors.len(),
    ensures
        vendor_positions(vendors.take(i + 1), v) == if vendors[i] == Some(v) {
            vendor_positions(vendors.take(i), v).push(i)
        } else {
            vendor_positions(vendors.take(i), v)
        },
{
    assert(vendors.take(i + 1).drop_last() =~= vendors.take(i));
}

/// Law: a vendor gets a group exactly when at least one receipt comes from it.
pub proof fn lemma_order_iff_positions(vendors: Seq<Option<Seq<char>>>, v: Seq<char>)
    ensures
        vendor_order(vendors).contains(v) <==> vendor_positions(vendors, v).len() > 0,
    decreases vendors.len(),
{
    if vendors.len() > 0 {
        let rest = vendors.drop_last();
        lemma_order_iff_positions(rest, v);
        let ro = vendor_order(rest);
        if ro.contains(v) {
            let k = choose|k: int| 0 <= k < ro.len() && ro[k] == v;
            match vendors.last() {
                Some(w) => {
                    if !ro.contains(w) {
                        assert(ro.push(w)[k] == v);
                    }
                },
                None => {},
            }
        }
        match vendors.last() {
            Some(w) => {
                if w == v && !ro.contains(w) {
                    assert(ro.push(w)[ro.len() as int] == v);
                }
                if vendor_order(vendors).contains(v) && !ro.contains(v) {
                    let k = choose|k: int|
                        0 <= k < vendor_order(vendors).len() && vendor_order(vendors)[k] == v;
                    if !ro.contains(w) && k < ro.len() {
                        assert(ro[k] == v);
                    }
                }
            },
            None => {},
        }
    }
}

/// Groups receipts by vendor; see `vendor_groups_spec`.
pub fn group_by_vendor(vendors: &Vec<Option<String>>) -> (groups: Vec<VendorGroup>)
    ensures
        groups_view(groups@) == vendor_groups_spec(vendors_view(vendors@)),
{
    let ghost vs = vendors_view(vendors@);
    let mut groups: Vec<VendorGroup> = Vec::new();
    for i in 0..vendors.len()
        invariant
            vs == vendors_view(vendors@),
            groups_view(groups@) == vendor_groups_spec(vs.take(i as int)),
    {
        let ghost before = vs.take(i as int);
        let ghost after = vs.take(i + 1);
        proof {
            assert(after.drop_last() =~= before);
            assert forall|w: Seq<char>| #[trigger] vendor_positions(after, w) == if vs[i as int]
                == Some(w) {
                vendor_positions(before, w).push(i as int)
            } else {
                vendor_positions(before, w)
            } by {
                lemma_vendor_positions_step(vs, i as int, w);
            }
        }
        match &vendors[i] {
            Some(v) => {
                assert(vs[i as int] == Some(v@));
                let mut j: usize = 0;
                let mut found = false;
                while j < groups.len()
                    invariant
                        groups_view(groups@) == vendor_groups_spec(before),
                        j <= groups@.len(),
                        found ==> j < groups@.len() && groups@[j as int].vendor@ == v@,
                        !found ==> forall|t: int| 0 <= t < j ==> groups@[t].vendor@ != v@,
                    ensures
                        groups_view(groups@) == vendor_groups_spec(before),
                        found ==> j < groups@.len() && groups@[j as int].vendor@ == v@,
                        !found ==> forall|t: int| 0 <= t < groups@.len() ==> groups@[t].vendor@ != v@,
                    decreases groups@.len() - j + (if found {
                        0int
                    } else {
                        1int
                    }),
                {
                    if groups[j].vendor == *v {
                        found = true;
                        break;
                    }
                    j = j + 1;
                }
                let ghost old_groups = groups@;
                let ghost order = vendor_order(before);
                proof {
                    assert(groups_view(old_groups).len() == order.len());
                    assert forall|t: int| 0 <= t < order.len() implies order[t] == #[trigger] old_groups[t].vendor@ by {
                        assert(groups_view(old_groups)[t] == vendor_groups_spec(before)[t]);
                    }
                }
                if found {
                    let mut g = groups.remove(j);
                    g.receipts.push(i);
                    let ghost new_g = g;
                    groups.insert(j, g);
                    proof {
                        assert(order[j as int] == v@);
                        assert(order.contains(v@));
                        assert(vendor_order(after) == order);
                        assert(ints(new_g.receipts@) =~= ints(old_groups[j as int].receipts@).push(i as int));
                        assert(groups@ =~= old_groups.update(j as int, new_g));
                        assert(groups_view(groups@) =~= vendor_groups_spec(after)) by {
                            assert forall|t: int| 0 <= t < order.len() implies #[trigger] groups_view(groups@)[t]
                                == vendor_groups_spec(after)[t] by {
                                assert(groups_view(old_groups)[t] == vendor_groups_spec(before)[t]);
                                if t != j {
                                    assert(order[t] != v@) by {
                                        assert(old_groups[t].vendor@ == order[t]);
                                        if order[t] == v@ {
                                            // vendors occur once in the order
                                            lemma_vendor_order_unique(before);
                                        }
                                    }
                                }
                            }
                        }
                    }
                } else {
                    let mut positions: Vec<usize> = Vec::new();
                    positions.push(i);
                    let g = VendorGroup { vendor: v.clone(), receipts: positions };
                    groups.push(g);
                    proof {
                        assert forall|t: int| 0 <= t < order.len() implies order[t] != v@ by {
                            assert(order[t] == old_groups[t].vendor@);
                        }
                        assert(!order.contains(v@));
                        lemma_order_iff_positions(before, v@);
                        assert(vendor_positions(before, v@) =~= Seq::<int>::empty());
                        assert(vendor_order(after) == order.push(v@));
                        assert(ints(g.receipts@) =~= seq![i as int]);
                        assert(groups_view(groups@) =~= vendor_groups_spec(after)) by {
                            assert forall|t: int| 0 <= t < order.len() implies #[trigger] groups_view(groups@)[t]
                                == vendor_groups_spec(after)[t] by {
                                assert(groups_view(old_groups)[t] == vendor_groups_spec(before)[t]);
                                assert(order[t] != v@);
                            }
                        }
                    }
                }
            },
            None => {
                proof {
                    assert(vendor_order(after) == vendor_order(before));
                    assert(groups_view(groups@) =~= vendor_groups_spec(after));
                }
            },
        }
    }
    proof {
        assert(vs.take(vendors@.len() as int) =~= vs);
    }
    groups
}

/// Law: every vendor appears in the vendor order only once.
pub proof fn lemma_vendor_order_unique(vendors: Seq<Option<Seq<char>>>)
    ensures
        vendor_order(vendors).no_duplicates(),
    decreases vendors.len(),
{
    if vendors.len() > 0 {
        lemma_vendor_order_unique(vendors.drop_last());
    }
}

/// Law: a position is listed for vendor `v` exactly when the receipt there
/// comes from `v`, and the positions are listed in increasing order.
pub proof fn lemma_vendor_positions_exact(vendors: Seq<Option<Seq<char>>>, v: Seq<char>)
    ensures
        forall|i: int|
            #[trigger] vendor_positions(vendors, v).contains(i) <==> 0 <= i < vendors.len()
                && vendors[i] == Some(v),
        forall|p: int, q: int|
            0 <= p < q < vendor_positions(vendors, v).len() ==> vendor_positions(vendors, v)[p]
                < vendor_positions(vendors, v)[q],
    decreases vendors.len(),
{
    if vendors.len() > 0 {
        let rest = vendors.drop_last();
        lemma_vendor_positions_exact(rest, v);
        let rp = vendor_positions(rest, v);
        let n = vendors.len() - 1;
        assert forall|i: int|
            vendor_positions(vendors, v).contains(i) <==> 0 <= i < vendors.len() && vendors[i]
                == Some(v) by {
            if vendors.last() == Some(v) {
                if rp.contains(i) {
                    let k = choose|k: int| 0 <= k < rp.len() && rp[k] == i;
                    assert(rp.push(n)[k] == i);
                }
                if i == n {
                    assert(rp.push(n)[rp.len() as int] == i);
                }
                if rp.push(n).contains(i) && i != n {
                    let k = choose|k: int| 0 <= k < rp.len() + 1 && rp.push(n)[k] == i;
                    assert(rp[k] == i);
                }
            }
            if 0 <= i < n {
                assert(rest[i] == vendors[i]);
            }
        }
        assert forall|p: int| 0 <= p < rp.len() implies #[trigger] rp[p] < n by {
            assert(rp.contains(rp[p]));
        }
        if vendors.last() == Some(v) {
            let full = rp.push(n);
            assert forall|p: int, q: int| 0 <= p < q < full.len() implies full[p] < full[q] by {
                assert(full[p] == rp[p]);
                if q < rp.len() {
                    assert(full[q] == rp[q]);
                }
            }
        }
    }
}

/// The positions, in order, of the receipts from `vendor`.
pub fn receipts_of_vendor(vendors: &Vec<Option<String>>, vendor: &str) -> (positions: Vec<usize>)
    ensures
        ints(positions@) == vendor_positions(vendors_view(vendors@), vendor@),
{
    let ghost vs = vendors_view(vendors@);
    let wanted = chars_of(vendor);
    let mut positions: Vec<usize> = Vec::new();
    for i in 0..vendors.len()
        invariant
            vs == vendors_view(vendors@),
            wanted@ == vendor@,
            ints(positions@) == vendor_positions(vs.take(i as int), vendor@),
    {
        proof {
            lemma_vendor_positions_step(vs, i as int, vendor@);
        }
        match &vendors[i] {
            Some(v) => {
                assert(vs[i as int] == Some(v@));
                if chars_equal(&chars_of(v.as_str()), &wanted) {
                    let ghost old_positions = positions@;
                    positions.push(i);
                    assert(ints(positions@) =~= ints(old_positions).push(i as int));
                }
            },
            None => {},
        }
    }
    proof {
        assert(vs.take(vendors@.len() as int) =~= vs);
    }
    positions
}

} // verus!
