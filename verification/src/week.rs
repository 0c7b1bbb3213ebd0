//! Week accounting: target, carry, fulfillment. Pure signed integer
//! arithmetic over injected data; nothing is ever clamped.

use crate::date::{
    can_advance, lemma_next_monday, lemma_next_prev_inverse, lemma_week1_monday_increasing,
    monday_num, next_yw, valid_week, walk_ok, yw_lt, WeekId,
};
use crate::calendar::{iso_week1_monday, iso_weeks_in, lemma_weeks_in_year};
use std::collections::BTreeMap;
use vstd::prelude::*;

verus! {

/// 40h, used when a week has no target override.
pub const DEFAULT_WEEK_TARGET_MINUTES: i64 = 2400;

/// A source of per-week completed-stint totals. Implementations report
/// completed stints only: an open stint's live minutes and an orphaned
/// `end` contribute nothing.
pub trait WeekData {
    /// The earliest `(ISO year, week)` with any punch or note data.
    spec fn data_earliest(&self) -> Option<(int, int)>;

    /// Completed-stint minutes recorded in a week (0 for no data).
    spec fn data_worked(&self, week: (int, int)) -> int;

    /// The earliest ISO week with any punch or note data, or `None` when
    /// there is no data at all.
    fn earliest_data_week(&self) -> (r: Option<WeekId>)
        ensures
            match r {
                Some(w) => self.data_earliest() == Some(w.yw()),
                None => self.data_earliest() is None,
            },
    ;

    /// Total completed-stint minutes recorded in `week`; `0` for a week with
    /// no data.
    fn worked_minutes(&self, week: WeekId) -> (r: i64)
        ensures
            r as int == self.data_worked(week.yw()),
    ;
}

/// A source of sparse per-week target overrides.
pub trait WeekTargets {
    /// The override of a week, if it has one (`Some(0)` is a week off).
    spec fn data_target(&self, week: (int, int)) -> Option<int>;

    /// `Some(minutes)` when the week has an override -- including a legal
    /// `0` -- and `None` when it has none.
    fn target_override(&self, week: WeekId) -> (r: Option<i64>)
        ensures
            match r {
                Some(m) => self.data_target(week.yw()) == Some(m as int),
                None => self.data_target(week.yw()) is None,
            },
    ;
}

/// One week's fully-computed accounting. All minute fields are signed.
#[derive(Debug, Clone, Copy, PartialEq, Eq)]
pub struct WeekAccounting {
    /// Which week this row describes.
    pub week: WeekId,
    /// The override if one is set (including `0`), else the 40h default.
    pub target: i64,
    /// The previous week's `carry_out`; `0` for the first week of the walk.
    pub carry_in: i64,
    /// Completed-stint minutes for this week.
    pub worked: i64,
    /// `worked + carry_in`.
    pub fulfillment: i64,
    /// `target - fulfillment`. Negative means ahead of target.
    pub owed: i64,
    /// `fulfillment - target`; becomes the next week's `carry_in`.
    pub carry_out: i64,
}

/// A week's target: its override, else the default.
pub open spec fn target_or_default(t: Option<int>) -> int {
    match t {
        Some(m) => m,
        None => DEFAULT_WEEK_TARGET_MINUTES as int,
    }
}

/// The week the walk starts at: the earliest data week, unless `through`
/// is earlier (or there is no data).
pub open spec fn walk_start(earliest: Option<(int, int)>, through: (int, int)) -> (int, int) {
    match earliest {
        Some(e) => if yw_lt(through, e) {
            through
        } else {
            e
        },
        None => through,
    }
}

/// The week `k` weeks after `start`.
pub open spec fn week_at(start: (int, int), k: nat) -> (int, int)
    decreases k,
{
    if k == 0 {
        start
    } else {
        next_yw(week_at(start, (k - 1) as nat))
    }
}

/// How many weeks `b` lies after `a`.
pub open spec fn weeks_between(a: (int, int), b: (int, int)) -> int {
    (monday_num(b) - monday_num(a)) / 7
}

/// The carry into the `k`-th week of the walk that begins at `start`.
pub open spec fn carry_in_at<D: WeekData, T: WeekTargets>(
    data: &D,
    targets: &T,
    start: (int, int),
    k: nat,
) -> int
    decreases k,
{
    if k == 0 {
        0
    } else {
        let w = week_at(start, (k - 1) as nat);
        carry_in_at(data, targets, start, (k - 1) as nat) + data.data_worked(w)
            - target_or_default(targets.data_target(w))
    }
}

pub open spec fn fits_i64(x: int) -> bool {
    i64::MIN <= x <= i64::MAX
}

/// Every figure of the walk from `start` through `through` fits an `i64`.
pub open spec fn series_fits<D: WeekData, T: WeekTargets>(
    data: &D,
    targets: &T,
    start: (int, int),
    through: (int, int),
) -> bool {
    forall|k: nat|
        k <= weeks_between(start, through) ==> {
            let w = week_at(start, k);
            let target = target_or_default(targets.data_target(w));
            let fulfillment = #[trigger] carry_in_at(data, targets, start, k) + data.data_worked(w);
            &&& fits_i64(target)
            &&& fits_i64(data.data_worked(w))
            &&& fits_i64(fulfillment)
            &&& fits_i64(target - fulfillment)
            &&& fits_i64(fulfillment - target)
        }
}

/// The row of week `w` given the carry into it.
pub open spec fn row_of<D: WeekData, T: WeekTargets>(
    data: &D,
    targets: &T,
    w: (int, int),
    carry_in: int,
    row: WeekAccounting,
) -> bool {
    let target = target_or_default(targets.data_target(w));
    let worked = data.data_worked(w);
    &&& row.week.yw() == w
    &&& row.target == target
    &&& row.carry_in == carry_in
    &&& row.worked == worked
    &&& row.fulfillment == worked + carry_in
    &&& row.owed == target - (worked + carry_in)
    &&& row.carry_out == (worked + carry_in) - target
}

/// Walking `k` weeks moves the Monday forward by `7k` days and stays on
/// real weeks.
pub proof fn lemma_week_at(start: (int, int), k: nat)
    requires
        1 <= start.1 <= iso_weeks_in(start.0),
    ensures
        monday_num(week_at(start, k)) == monday_num(start) + 7 * k,
        1 <= week_at(start, k).1 <= iso_weeks_in(week_at(start, k).0),
    decreases k,
{
    if k > 0 {
        lemma_week_at(start, (k - 1) as nat);
        lemma_next_monday(week_at(start, (k - 1) as nat));
        lemma_next_prev_inverse(week_at(start, (k - 1) as nat));
    }
}

/// Mondays of real weeks are day numbers of the form 7k + 1.
#[verifier::spinoff_prover]
pub proof fn lemma_monday_mod(a: (int, int))
    ensures
        monday_num(a) % 7 == 1,
{
    crate::calendar::lemma_week1_monday(a.0);
}

/// A chronologically earlier real week has an earlier Monday.
pub proof fn lemma_monday_lt(a: (int, int), b: (int, int))
    requires
        1 <= a.1 <= iso_weeks_in(a.0),
        1 <= b.1 <= iso_weeks_in(b.0),
        yw_lt(a, b),
    ensures
        monday_num(a) + 7 <= monday_num(b),
{
    if a.0 < b.0 {
        lemma_weeks_in_year(a.0);
        assert(monday_num(a) + 7 <= iso_week1_monday(a.0 + 1));
        if a.0 + 1 < b.0 {
            lemma_week1_monday_increasing(a.0 + 1, b.0);
        }
    }
}

/// Chronological order of real weeks is the order of their Mondays.
#[verifier::spinoff_prover]
pub proof fn lemma_monday_order(a: (int, int), b: (int, int))
    requires
        1 <= a.1 <= iso_weeks_in(a.0),
        1 <= b.1 <= iso_weeks_in(b.0),
    ensures
        yw_lt(a, b) ==> monday_num(a) + 7 <= monday_num(b),
        a == b <==> monday_num(a) == monday_num(b),
        (monday_num(b) - monday_num(a)) % 7 == 0,
{
    lemma_monday_mod(a);
    lemma_monday_mod(b);
    let ma = monday_num(a);
    let mb = monday_num(b);
    let qa = ma / 7;
    let qb = mb / 7;
    assert(ma == 7 * qa + 1);
    assert(mb == 7 * qb + 1);
    assert(mb - ma == 7 * (qb - qa));
    assert((mb - ma) % 7 == 0);
    if yw_lt(a, b) {
        lemma_monday_lt(a, b);
    } else if yw_lt(b, a) {
        lemma_monday_lt(b, a);
    } else {
        assert(a == b);
    }
}

/// The week's target: its override if it has one (including `0`), else
/// the 40h default.
fn resolve_target<T: WeekTargets>(week: WeekId, targets: &T) -> (r: i64)
    ensures
        r as int == target_or_default(targets.data_target(week.yw())),
{
    match targets.target_override(week) {
        Some(m) => m,
        None => DEFAULT_WEEK_TARGET_MINUTES,
    }
}

/// One week's row from its target, worked minutes and incoming carry.
fn account_week(week: WeekId, target: i64, worked: i64, carry_in: i64) -> (r: WeekAccounting)
    requires
        fits_i64(worked + carry_in),
        fits_i64(target - (worked + carry_in)),
        fits_i64((worked + carry_in) - target),
    ensures
        r.week == week,
        r.target == target,
        r.carry_in == carry_in,
        r.worked == worked,
        r.fulfillment == worked + carry_in,
        r.owed == target - (worked + carry_in),
        r.carry_out == (worked + carry_in) - target,
{
    let fulfillment = worked + carry_in;
    let owed = target - fulfillment;
    let carry_out = fulfillment - target;
    WeekAccounting { week, target, carry_in, worked, fulfillment, owed, carry_out }
}

/// The full carry chain: every week from the walk's start through
/// `through`, chronologically, inclusive at both ends; never empty. The
/// walk visits every ISO week in the range, including weeks with no data,
/// which go through the same arithmetic with `worked = 0`.
#[verifier::rlimit(50)]
pub fn week_series<D: WeekData, T: WeekTargets>(through: WeekId, data: &D, targets: &T) -> (r: Vec<
    WeekAccounting,
>)
    requires
        walk_ok(walk_start(data.data_earliest(), through.yw()), through.yw()),
        series_fits(data, targets, walk_start(data.data_earliest(), through.yw()), through.yw()),
    ensures
        r@.len() >= 1,
        r@[0].week.yw() == walk_start(data.data_earliest(), through.yw()),
        r@[0].carry_in == 0,
        r@.last().week == through,
        forall|i: int|
            0 <= i < r@.len() ==> row_of(data, targets, (#[trigger] r@[i]).week.yw(), r@[i].carry_in as int, r@[i]),
        forall|i: int|
            0 <= i < r@.len() - 1 ==> (#[trigger] r@[i + 1]).week.yw() == next_yw(r@[i].week.yw())
                && r@[i + 1].carry_in == r@[i].carry_out,
        r@.len() == weeks_between(walk_start(data.data_earliest(), through.yw()), through.yw()) + 1,
        forall|i: int|
            0 <= i < r@.len() ==> (#[trigger] r@[i]).week.yw() == week_at(
                walk_start(data.data_earliest(), through.yw()),
                i as nat,
            ) && r@[i].carry_in == carry_in_at(
                data,
                targets,
                walk_start(data.data_earliest(), through.yw()),
                i as nat,
            ),
{
    let start = match data.earliest_data_week() {
        Some(earliest) => if through.before(&earliest) {
            through
        } else {
            earliest
        },
        None => through,
    };
    let ghost s = start.yw();
    assert(s == walk_start(data.data_earliest(), through.yw()));
    through.valid();
    start.valid();
    proof {
        lemma_monday_order(s, through.yw());
    }
    let ghost total: int = weeks_between(s, through.yw());
    proof {
        lemma_week_at(s, 0);
        assert(0 <= total);
    }
    let mut current = start;
    let ghost mut k: nat = 0;
    let target0 = resolve_target(current, targets);
    let worked0 = data.worked_minutes(current);
    proof {
        assert(carry_in_at(data, targets, s, 0) == 0);
    }
    let row0 = account_week(current, target0, worked0, 0);
    let mut out: Vec<WeekAccounting> = Vec::new();
    out.push(row0);
    while !(current == through)
        invariant
            s == walk_start(data.data_earliest(), through.yw()),
            valid_week(s.0, s.1),
            valid_week(through.yw().0, through.yw().1),
            total == weeks_between(s, through.yw()),
            total >= 0,
            series_fits(data, targets, s, through.yw()),
            current.yw() == week_at(s, k),
            k <= total,
            monday_num(current.yw()) == monday_num(s) + 7 * k,
            !yw_lt(through.yw(), current.yw()),
            walk_ok(current.yw(), through.yw()),
            out@.len() == k + 1,
            out@.last().week == current,
            forall|i: int|
                0 <= i < out@.len() ==> row_of(data, targets, (#[trigger] out@[i]).week.yw(), out@[i].carry_in as int, out@[i]),
            forall|i: int|
                0 <= i < out@.len() ==> (#[trigger] out@[i]).week.yw() == week_at(s, i as nat)
                    && out@[i].carry_in == carry_in_at(data, targets, s, i as nat),
        decreases total - k,
    {
        current.valid();
        through.valid();
        proof {
            WeekId::lemma_eq(current, through);
            lemma_week_at(s, k);
            lemma_monday_order(current.yw(), through.yw());
            lemma_next_prev_inverse(current.yw());
            lemma_next_monday(current.yw());
            lemma_weeks_in_year(current.yw().0);
        }
        let carry_in = out[out.len() - 1].carry_out;
        current = current.next();
        proof {
            k = k + 1;
            lemma_week_at(s, k);
            assert(carry_in as int == carry_in_at(data, targets, s, k));
        }
        let target = resolve_target(current, targets);
        let worked = data.worked_minutes(current);
        let row = account_week(current, target, worked, carry_in);
        out.push(row);
    }
    proof {
        WeekId::lemma_eq(current, through);
        lemma_monday_order(current.yw(), through.yw());
        assert forall|i: int| 0 <= i < out@.len() - 1 implies (#[trigger] out@[i + 1]).week.yw()
            == next_yw(out@[i].week.yw()) && out@[i + 1].carry_in == out@[i].carry_out by {
            assert(week_at(s, (i + 1) as nat) == next_yw(week_at(s, i as nat)));
        };
    }
    out
}

/// One week's accounting, computed by walking the full chain up to it.
pub fn week_accounting<D: WeekData, T: WeekTargets>(week: WeekId, data: &D, targets: &T) -> (r:
    WeekAccounting)
    requires
        walk_ok(walk_start(data.data_earliest(), week.yw()), week.yw()),
        series_fits(data, targets, walk_start(data.data_earliest(), week.yw()), week.yw()),
    ensures
        r.week == week,
        row_of(
            data,
            targets,
            week.yw(),
            carry_in_at(
                data,
                targets,
                walk_start(data.data_earliest(), week.yw()),
                weeks_between(walk_start(data.data_earliest(), week.yw()), week.yw()) as nat,
            ),
            r,
        ),
{
    let mut series = week_series(week, data, targets);
    let n = series.len();
    let last = series[n - 1];
    last
}

/// Walking from `start` for as many weeks as `w` lies after it lands on
/// `w`.
proof fn lemma_week_at_reaches(start: (int, int), w: (int, int))
    requires
        1 <= start.1 <= iso_weeks_in(start.0),
        1 <= w.1 <= iso_weeks_in(w.0),
        !yw_lt(w, start),
    ensures
        weeks_between(start, w) >= 0,
        week_at(start, weeks_between(start, w) as nat) == w,
{
    lemma_monday_order(start, w);
    lemma_monday_order(w, start);
    let k = weeks_between(start, w);
    assert(monday_num(w) - monday_num(start) == 7 * k);
    lemma_week_at(start, k as nat);
    lemma_monday_order(week_at(start, k as nat), w);
}

/// Any shortfall or surplus carries into the next week: once the walk has
/// begun (the week is not before the earliest week with data), the carry
/// into the following week is this week's `fulfillment - target`, the
/// figure `week_accounting` reports as its `carry_out`.
pub proof fn law_carry_out_becomes_next_carry_in<D: WeekData, T: WeekTargets>(
    data: &D,
    targets: &T,
    w: (int, int),
)
    requires
        1 <= w.1 <= iso_weeks_in(w.0),
        data.data_earliest() matches Some(e) && 1 <= e.1 <= iso_weeks_in(e.0) && !yw_lt(w, e),
    ensures
        ({
            let start = walk_start(data.data_earliest(), w);
            let next_start = walk_start(data.data_earliest(), next_yw(w));
            let carry_in = carry_in_at(data, targets, start, weeks_between(start, w) as nat);
            let fulfillment = data.data_worked(w) + carry_in;
            &&& next_start == start
            &&& weeks_between(start, next_yw(w)) == weeks_between(start, w) + 1
            &&& carry_in_at(data, targets, next_start, weeks_between(next_start, next_yw(w)) as nat)
                == fulfillment - target_or_default(targets.data_target(w))
        }),
{
    let e = data.data_earliest()->0;
    lemma_next_prev_inverse(w);
    lemma_next_monday(w);
    assert(walk_start(data.data_earliest(), w) == e);
    assert(!yw_lt(next_yw(w), e));
    assert(walk_start(data.data_earliest(), next_yw(w)) == e);
    lemma_week_at_reaches(e, w);
    let k = weeks_between(e, w);
    assert(weeks_between(e, next_yw(w)) == k + 1);
    assert(((k + 1) as nat - 1) as nat == k as nat);
}

/// Week `k` of a chain of consecutive weeks from `start` is the walk's
/// week `k`.
proof fn lemma_chain_is_walk(weeks: Seq<WeekId>, start: (int, int), k: int)
    requires
        weeks.len() > 0,
        weeks[0].yw() == start,
        forall|i: int| 0 <= i < weeks.len() - 1 ==> (#[trigger] weeks[i + 1]).yw() == next_yw(weeks[i].yw()),
        0 <= k < weeks.len(),
    ensures
        weeks[k].yw() == week_at(start, k as nat),
    decreases k,
{
    if k > 0 {
        lemma_chain_is_walk(weeks, start, k - 1);
        assert(weeks[(k - 1) + 1].yw() == next_yw(weeks[k - 1].yw()));
        assert(((k as nat) - 1) as nat == (k - 1) as nat);
    }
}

/// The carry walk visits exactly the weeks of the range from its start to
/// `through`, idle weeks included: any chain of consecutive weeks from
/// `start` ending at `through` (what `week_range(start, through).to_vec()`
/// yields) has `weeks_between(start, through) + 1` weeks, the length of
/// `week_series`' result, and its `i`-th week is the walk's `i`-th week.
pub proof fn law_series_walks_the_week_range(weeks: Seq<WeekId>, start: (int, int), through: (int, int))
    requires
        1 <= start.1 <= iso_weeks_in(start.0),
        weeks.len() > 0,
        weeks[0].yw() == start,
        weeks.last().yw() == through,
        forall|i: int| 0 <= i < weeks.len() - 1 ==> (#[trigger] weeks[i + 1]).yw() == next_yw(weeks[i].yw()),
    ensures
        weeks.len() == weeks_between(start, through) + 1,
        forall|i: int| 0 <= i < weeks.len() ==> (#[trigger] weeks[i]).yw() == week_at(start, i as nat),
{
    assert forall|i: int| 0 <= i < weeks.len() implies (#[trigger] weeks[i]).yw() == week_at(start, i as nat) by {
        lemma_chain_is_walk(weeks, start, i);
    };
    let n = weeks.len() - 1;
    lemma_chain_is_walk(weeks, start, n);
    lemma_week_at(start, n as nat);
    assert(monday_num(through) - monday_num(start) == 7 * n);
}

/// The daily pace hint: the week's target divided by 5, floored to the
/// minute (floor, not truncation toward zero).
pub fn daily_target_minutes(week_target_minutes: i64) -> (r: i64)
    ensures
        r as int == week_target_minutes as int / 5,
{
    if week_target_minutes >= 0 {
        week_target_minutes / 5
    } else {
        let y = -(week_target_minutes + 1);
        -(y / 5 + 1)
    }
}

// ---------------------------------------------------------------------------
// WeekLedger
// ---------------------------------------------------------------------------

/// The map a list of `(week, minutes)` entries describes (a later entry
/// for the same week wins).
pub open spec fn entries_map(v: Seq<(WeekId, i64)>) -> Map<(int, int), int>
    decreases v.len(),
{
    if v.len() == 0 {
        Map::empty()
    } else {
        entries_map(v.drop_last()).insert(v.last().0.yw(), v.last().1 as int)
    }
}

/// The earliest week of a set, if it has one.
pub open spec fn earliest_of(s: Set<(int, int)>) -> Option<(int, int)> {
    if exists|w: (int, int)| s.contains(w) && forall|x: (int, int)| #[trigger] s.contains(x) ==> !yw_lt(x, w) {
        Some(choose|w: (int, int)| s.contains(w) && forall|x: (int, int)| #[trigger] s.contains(x) ==> !yw_lt(x, w))
    } else {
        None
    }
}

/// A week as a map key: `(ISO year, week)`.
pub open spec fn key_week(k: (i32, u32)) -> (int, int) {
    (k.0 as int, k.1 as int)
}

/// The map key of `(ISO year, week)`.
pub open spec fn key_of(w: (int, int)) -> (i32, u32) {
    (w.0 as i32, w.1 as u32)
}

/// `w` is a week some key stands for.
pub open spec fn has_key(w: (int, int)) -> bool {
    i32::MIN <= w.0 <= i32::MAX && 0 <= w.1 <= u32::MAX
}

/// The per-week figures a map keyed by weeks holds.
pub open spec fn keyed_map(m: Map<(i32, u32), i64>) -> Map<(int, int), int> {
    Map::new(|w: (int, int)| has_key(w) && m.contains_key(key_of(w)), |w: (int, int)| m[key_of(w)] as int)
}

/// The weeks a set of keys names.
pub open spec fn keyed_set(s: Set<(i32, u32)>) -> Set<(int, int)> {
    Set::new(|w: (int, int)| has_key(w) && s.contains(key_of(w)))
}

/// `BTreeMap::insert` on a week-keyed map of minutes.
fn put_minutes(m: &mut BTreeMap<(i32, u32), i64>, k: (i32, u32), v: i64)
    ensures
        final(m)@ == old(m)@.insert(k, v),
{
    broadcast use vstd::laws_cmp::group_laws_cmp;

    m.insert(k, v);
}

fn week_key(w: &WeekId) -> (r: (i32, u32))
    ensures
        key_week(r) == w.yw(),
        has_key(w.yw()),
        key_of(w.yw()) == r,
{
    (w.iso_year(), w.week())
}

proof fn lemma_keyed_map_insert(m: Map<(i32, u32), i64>, k: (i32, u32), v: i64)
    ensures
        keyed_map(m.insert(k, v)) =~= keyed_map(m).insert(key_week(k), v as int),
{
    assert(has_key(key_week(k)));
    assert(key_of(key_week(k)) == k);
}

proof fn lemma_keyed_set_insert(s: Set<(i32, u32)>, k: (i32, u32))
    ensures
        keyed_set(s.insert(k)) =~= keyed_set(s).insert(key_week(k)),
{
    assert(has_key(key_week(k)));
    assert(key_of(key_week(k)) == k);
}

/// In-memory `WeekData` + `WeekTargets`: sparse per-week worked minutes,
/// the set of weeks holding any data, and sparse target overrides, each
/// keyed by the week's `(ISO year, week)`.
#[derive(Debug)]
pub struct WeekLedger {
    /// Sparse: an absent week has worked 0 minutes.
    worked: BTreeMap<(i32, u32), i64>,
    /// Weeks with any punch or note data -- not derived from `worked`: a
    /// week can have data and zero worked minutes and must still anchor the
    /// walk.
    data_weeks: BTreeMap<(i32, u32), WeekId>,
    /// Sparse: an absent week uses the default target.
    targets: BTreeMap<(i32, u32), i64>,
}

impl WeekLedger {
    /// Each data week is stored under its own key.
    #[verifier::type_invariant]
    spec fn inv(self) -> bool {
        forall|k: (i32, u32)| #[trigger] self.data_weeks@.contains_key(k) ==> self.data_weeks@[k].yw() == key_week(k)
    }

    /// Worked minutes per week.
    pub closed spec fn worked_map(self) -> Map<(int, int), int> {
        keyed_map(self.worked@)
    }

    /// Weeks holding any data.
    pub closed spec fn data_set(self) -> Set<(int, int)> {
        keyed_set(self.data_weeks@.dom())
    }

    /// Target overrides per week.
    pub closed spec fn targets_map(self) -> Map<(int, int), int> {
        keyed_map(self.targets@)
    }

    pub fn new() -> (r: WeekLedger)
        ensures
            r.worked_map() == Map::<(int, int), int>::empty(),
            r.data_set() == Set::<(int, int)>::empty(),
            r.targets_map() == Map::<(int, int), int>::empty(),
    {
        let r = WeekLedger { worked: BTreeMap::new(), data_weeks: BTreeMap::new(), targets: BTreeMap::new() };
        assert(r.worked_map() =~= Map::<(int, int), int>::empty());
        assert(r.data_set() =~= Set::<(int, int)>::empty());
        assert(r.targets_map() =~= Map::<(int, int), int>::empty());
        r
    }

    /// Record a week's worked minutes (replacing any earlier figure) and
    /// mark it a data week.
    pub fn with_worked(self, week: WeekId, minutes: i64) -> (r: WeekLedger)
        ensures
            r.worked_map() == self.worked_map().insert(week.yw(), minutes as int),
            r.data_set() == self.data_set().insert(week.yw()),
            r.targets_map() == self.targets_map(),
    {
        proof {
            use_type_invariant(&self);
        }
        let WeekLedger { mut worked, data_weeks, targets } = self;
        let k = week_key(&week);
        proof {
            lemma_keyed_map_insert(worked@, k, minutes);
        }
        put_minutes(&mut worked, k, minutes);
        let marked = (WeekLedger { worked, data_weeks, targets }).with_data_week(week);
        marked
    }

    /// Mark a week as having data without adding worked minutes.
    pub fn with_data_week(self, week: WeekId) -> (r: WeekLedger)
        ensures
            r.worked_map() == self.worked_map(),
            r.data_set() == self.data_set().insert(week.yw()),
            r.targets_map() == self.targets_map(),
    {
        broadcast use vstd::laws_cmp::group_laws_cmp;

        proof {
            use_type_invariant(&self);
        }
        let WeekLedger { worked, mut data_weeks, targets } = self;
        let k = week_key(&week);
        proof {
            lemma_keyed_set_insert(data_weeks@.dom(), k);
        }
        data_weeks.insert(k, week);
        assert(data_weeks@.dom() =~= self.data_weeks@.dom().insert(k));
        WeekLedger { worked, data_weeks, targets }
    }

    /// Record a target override (replacing any earlier one); `0` is legal.
    pub fn with_target(self, week: WeekId, minutes: i64) -> (r: WeekLedger)
        ensures
            r.worked_map() == self.worked_map(),
            r.data_set() == self.data_set(),
            r.targets_map() == self.targets_map().insert(week.yw(), minutes as int),
    {
        proof {
            use_type_invariant(&self);
        }
        let WeekLedger { worked, data_weeks, mut targets } = self;
        let k = week_key(&week);
        proof {
            lemma_keyed_map_insert(targets@, k, minutes);
        }
        put_minutes(&mut targets, k, minutes);
        WeekLedger { worked, data_weeks, targets }
    }
}

/// A week of a set no week of which comes before it.
pub open spec fn is_earliest(s: Set<(int, int)>, w: (int, int)) -> bool {
    s.contains(w) && forall|x: (int, int)| #[trigger] s.contains(x) ==> !yw_lt(x, w)
}

proof fn lemma_earliest_unique(s: Set<(int, int)>, a: (int, int), b: (int, int))
    requires
        is_earliest(s, a),
        is_earliest(s, b),
    ensures
        a == b,
{
    assert(!yw_lt(a, b) && !yw_lt(b, a));
}

/// A finite set of weeks has an earliest one exactly when it is not
/// empty, and `earliest_of` names it.
proof fn lemma_finite_earliest(s: Set<(int, int)>)
    requires
        s.finite(),
    ensures
        s.len() == 0 ==> earliest_of(s) is None,
        s.len() > 0 ==> (earliest_of(s) matches Some(e) && is_earliest(s, e)),
    decreases s.len(),
{
    if s.len() > 0 {
        let x = s.choose();
        let rest = s.remove(x);
        lemma_finite_earliest(rest);
        let m = if rest.len() == 0 {
            x
        } else {
            let e = earliest_of(rest)->0;
            if yw_lt(x, e) {
                x
            } else {
                e
            }
        };
        if rest.len() == 0 {
            assert forall|y: (int, int)| #[trigger] s.contains(y) implies y == x by {
                if y != x {
                    assert(rest.contains(y));
                }
            };
        }
        assert(is_earliest(s, m)) by {
            assert forall|y: (int, int)| #[trigger] s.contains(y) implies !yw_lt(y, m) by {
                if y != x {
                    assert(rest.contains(y));
                }
            };
        };
    } else {
        assert forall|y: (int, int)| !s.contains(y) by {
            if s.contains(y) {
                assert(s.remove(y).len() < s.len());
            }
        };
    }
}

proof fn lemma_data_set_finite(l: WeekLedger)
    ensures
        l.data_set().finite(),
{
    let dom = l.data_weeks@.dom();
    assert(dom.finite());
    dom.lemma_map_finite(|k: (i32, u32)| key_week(k));
    let img = dom.map(|k: (i32, u32)| key_week(k));
    assert forall|w: (int, int)| #[trigger] l.data_set().contains(w) implies img.contains(w) by {
        assert(dom.contains(key_of(w)));
        assert(key_week(key_of(w)) == w);
    };
    vstd::set_lib::lemma_set_subset_finite(img, l.data_set());
}

/// Marking a week as holding data moves the earliest data week to it
/// exactly when it is earlier than the earliest so far (or there was none):
/// the first week of every carry walk follows the data.
pub proof fn law_earliest_data_week_after_marking(l: WeekLedger, w: WeekId)
    ensures
        earliest_of(l.data_set().insert(w.yw())) == Some(
            match earliest_of(l.data_set()) {
                Some(e) => if yw_lt(w.yw(), e) {
                    w.yw()
                } else {
                    e
                },
                None => w.yw(),
            },
        ),
{
    let s = l.data_set();
    lemma_data_set_finite(l);
    let u = s.insert(w.yw());
    lemma_finite_earliest(s);
    lemma_finite_earliest(u);
    let after = earliest_of(u)->0;
    let m = match earliest_of(s) {
        Some(e) => if yw_lt(w.yw(), e) {
            w.yw()
        } else {
            e
        },
        None => w.yw(),
    };
    if s.len() == 0 {
        assert(s =~= Set::<(int, int)>::empty()) by {
            assert forall|y: (int, int)| !s.contains(y) by {
                if s.contains(y) {
                    assert(s.remove(y).len() < s.len());
                }
            };
        };
    }
    assert(is_earliest(u, m));
    lemma_earliest_unique(u, after, m);
}

impl Clone for WeekLedger {
    /// A ledger with the same worked minutes, data weeks and overrides.
    fn clone(&self) -> (r: WeekLedger)
        ensures
            r.worked_map() == self.worked_map(),
            r.data_set() == self.data_set(),
            r.targets_map() == self.targets_map(),
    {
        proof {
            use_type_invariant(self);
        }
        WeekLedger {
            worked: self.worked.clone(),
            data_weeks: self.data_weeks.clone(),
            targets: self.targets.clone(),
        }
    }
}

impl Default for WeekLedger {
    /// The empty ledger, as `new` gives.
    fn default() -> (r: WeekLedger)
        ensures
            r.worked_map() == Map::<(int, int), int>::empty(),
            r.data_set() == Set::<(int, int)>::empty(),
            r.targets_map() == Map::<(int, int), int>::empty(),
    {
        WeekLedger::new()
    }
}

/// Key order: `(ISO year, week)` compared as the tuple compares.
pub open spec fn key_lt(a: (i32, u32), b: (i32, u32)) -> bool {
    a.0 < b.0 || (a.0 == b.0 && a.1 < b.1)
}

impl WeekData for WeekLedger {
    open spec fn data_earliest(&self) -> Option<(int, int)> {
        earliest_of(self.data_set())
    }

    open spec fn data_worked(&self, week: (int, int)) -> int {
        if self.worked_map().contains_key(week) {
            self.worked_map()[week]
        } else {
            0
        }
    }

    fn earliest_data_week(&self) -> (r: Option<WeekId>) {
        broadcast use vstd::laws_cmp::group_laws_cmp;
        broadcast use vstd::std_specs::btree::group_btree_axioms;

        proof {
            use_type_invariant(self);
        }
        let mut best: Option<(i32, u32)> = None;
        for k in it: self.data_weeks.keys()
            invariant
                it.seq().unref().to_set() == self.data_weeks@.dom(),
                best is None ==> it.index() == 0,
                best matches Some(b) ==> self.data_weeks@.contains_key(b) && forall|j: int|
                    0 <= j < it.index() ==> !key_lt(*it.seq()[j], b),
                it.index() == it.seq().len() ==> (best is None ==> self.data_weeks@.dom().is_empty()),
                it.index() == it.seq().len() ==> (best matches Some(b) ==> forall|x: (i32, u32)|
                    self.data_weeks@.contains_key(x) ==> !key_lt(x, b)),
        {
            let k: (i32, u32) = *k;
            match best {
                None => {
                    best = Some(k);
                },
                Some(b) => {
                    if k.0 < b.0 || (k.0 == b.0 && k.1 < b.1) {
                        best = Some(k);
                    }
                },
            }
        }
        match best {
            None => {
                proof {
                    assert(self.data_set() =~= Set::<(int, int)>::empty());
                    lemma_data_set_finite(*self);
                    lemma_finite_earliest(self.data_set());
                }
                None
            },
            Some(b) => {
                let w = *self.data_weeks.get(&b).unwrap();
                proof {
                    assert(w.yw() == key_week(b));
                    assert(key_of(key_week(b)) == b);
                    assert(is_earliest(self.data_set(), w.yw())) by {
                        assert forall|x: (int, int)| #[trigger] self.data_set().contains(x) implies !yw_lt(x, w.yw()) by {
                            assert(self.data_weeks@.contains_key(key_of(x)));
                            assert(!key_lt(key_of(x), b));
                        };
                    };
                    lemma_data_set_finite(*self);
                    lemma_finite_earliest(self.data_set());
                    lemma_earliest_unique(self.data_set(), earliest_of(self.data_set())->0, w.yw());
                }
                Some(w)
            },
        }
    }

    fn worked_minutes(&self, week: WeekId) -> (r: i64) {
        broadcast use vstd::laws_cmp::group_laws_cmp;

        let k = week_key(&week);
        match self.worked.get(&k) {
            Some(m) => *m,
            None => 0,
        }
    }
}

impl WeekTargets for WeekLedger {
    open spec fn data_target(&self, week: (int, int)) -> Option<int> {
        if self.targets_map().contains_key(week) {
            Some(self.targets_map()[week])
        } else {
            None
        }
    }

    fn target_override(&self, week: WeekId) -> (r: Option<i64>) {
        broadcast use vstd::laws_cmp::group_laws_cmp;

        let k = week_key(&week);
        match self.targets.get(&k) {
            Some(m) => Some(*m),
            None => None,
        }
    }
}

} // verus!
