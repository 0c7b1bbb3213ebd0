//! Stint pairing: turns one calendar date's punches into completed
//! stints, open stints and anomalies by nearest-match (LIFO) pairing,
//! one tied-instant group at a time. The current instant is injected.

use crate::storage::{kind_rank, valid_instant, Punch, PunchKind};
use vstd::multiset::Multiset;
use vstd::prelude::*;

verus! {

/// A completed (start, end) pair.
#[derive(Debug, Clone, Copy, PartialEq, Eq)]
pub struct Stint {
    pub start: Punch,
    pub end: Punch,
    /// Whole minutes from `start.at_utc` to `end.at_utc`; 0 for a
    /// same-instant pair.
    pub minutes: i64,
}

/// A trailing unmatched `start`.
#[derive(Debug, Clone, Copy, PartialEq, Eq)]
pub struct OpenStint {
    pub start: Punch,
    /// Whole minutes from `start.at_utc` to the supplied `now`, clamped at
    /// 0. A live figure that never enters any day/week/carry total.
    pub minutes_so_far: i64,
}

/// An `end` that had no unmatched `start` to pair with.
#[derive(Debug, Clone, Copy, PartialEq, Eq)]
pub struct OrphanedEnd {
    /// The offending punch itself; never coalesced with another orphan.
    pub punch: Punch,
}

/// A renderable anomaly.
#[derive(Debug, Clone, Copy, PartialEq, Eq)]
pub enum Anomaly {
    /// More than one trailing unmatched start; `count` is the number of
    /// open stints (always >= 2).
    MultipleOpenStints { count: usize },
    /// One per orphaned end, in ascending instant order.
    OrphanedEnd { punch: Punch },
}

// ---------------------------------------------------------------------------
// Ordering of one date's punches: (instant, kind, id)
// ---------------------------------------------------------------------------

/// `a` sorts strictly before `b` by (instant, start-before-end, id).
pub open spec fn key_lt(a: Punch, b: Punch) -> bool {
    a.at_utc < b.at_utc || (a.at_utc == b.at_utc && (kind_rank(a.kind) < kind_rank(b.kind) || (
    kind_rank(a.kind) == kind_rank(b.kind) && a.id < b.id)))
}

fn punch_before(a: &Punch, b: &Punch) -> (r: bool)
    ensures
        r == key_lt(*a, *b),
{
    let ra: u8 = match a.kind {
        PunchKind::Start => 0,
        PunchKind::End => 1,
    };
    let rb: u8 = match b.kind {
        PunchKind::Start => 0,
        PunchKind::End => 1,
    };
    a.at_utc < b.at_utc || (a.at_utc == b.at_utc && (ra < rb || (ra == rb && a.id < b.id)))
}

/// Where a stable insertion puts `p` into `s`: after every element that
/// does not sort strictly after it.
pub open spec fn insert_pos(s: Seq<Punch>, p: Punch) -> int
    decreases s.len(),
{
    if s.len() == 0 {
        0
    } else if key_lt(p, s.last()) {
        insert_pos(s.drop_last(), p)
    } else {
        s.len() as int
    }
}

/// The stable sort of `s` by (instant, kind, id): insertion of each
/// element in order.
pub open spec fn sorted_punches(s: Seq<Punch>) -> Seq<Punch>
    decreases s.len(),
{
    if s.len() == 0 {
        Seq::empty()
    } else {
        let rest = sorted_punches(s.drop_last());
        rest.insert(insert_pos(rest, s.last()), s.last())
    }
}

proof fn lemma_insert_pos_bounds(s: Seq<Punch>, p: Punch)
    ensures
        0 <= insert_pos(s, p) <= s.len(),
    decreases s.len(),
{
    if s.len() > 0 {
        lemma_insert_pos_bounds(s.drop_last(), p);
    }
}

proof fn lemma_sorted_len(s: Seq<Punch>)
    ensures
        sorted_punches(s).len() == s.len(),
    decreases s.len(),
{
    if s.len() > 0 {
        lemma_sorted_len(s.drop_last());
        lemma_insert_pos_bounds(sorted_punches(s.drop_last()), s.last());
    }
}

/// Stable sort of a date's punches by (instant, kind, id).
fn sort_punches(punches: &[Punch]) -> (r: Vec<Punch>)
    ensures
        r@ == sorted_punches(punches@),
{
    let mut out: Vec<Punch> = Vec::new();
    let mut i: usize = 0;
    while i < punches.len()
        invariant
            i <= punches@.len(),
            out@ == sorted_punches(punches@.take(i as int)),
        decreases punches@.len() - i,
    {
        let p = punches[i];
        let mut pos: usize = out.len();
        proof {
            assert(out@.take(pos as int) =~= out@);
        }
        while pos > 0 && punch_before(&p, &out[pos - 1])
            invariant
                pos <= out@.len(),
                insert_pos(out@, p) == insert_pos(out@.take(pos as int), p),
            decreases pos,
        {
            proof {
                assert(out@.take(pos as int).drop_last() =~= out@.take(pos - 1));
            }
            pos = pos - 1;
        }
        proof {
            if pos == 0 {
                assert(out@.take(0) =~= Seq::<Punch>::empty());
            } else {
                assert(out@.take(pos as int).last() == out@[pos - 1]);
            }
            assert(insert_pos(out@, p) == pos);
            assert(punches@.take(i + 1).drop_last() =~= punches@.take(i as int));
            assert(punches@.take(i + 1).last() == p);
            lemma_insert_pos_bounds(out@, p);
        }
        out.insert(pos, p);
        i = i + 1;
    }
    assert(punches@.take(punches@.len() as int) =~= punches@);
    out
}

/// Every punch's instant is one a `DateTime<Utc>` can hold.
pub open spec fn all_valid(s: Seq<Punch>) -> bool {
    forall|i: int| 0 <= i < s.len() ==> valid_instant((#[trigger] s[i]).at_utc as int)
}

/// Every orphan's instant is valid.
pub open spec fn orphans_valid(s: Seq<OrphanedEnd>) -> bool {
    forall|i: int| 0 <= i < s.len() ==> valid_instant((#[trigger] s[i]).punch.at_utc as int)
}

/// Every completed stint's two instants are valid.
pub open spec fn stints_valid(s: Seq<Stint>) -> bool {
    forall|i: int|
        0 <= i < s.len() ==> valid_instant((#[trigger] s[i]).start.at_utc as int) && valid_instant(
            s[i].end.at_utc as int,
        )
}

/// Every open stint's start instant is valid.
pub open spec fn opens_valid(s: Seq<OpenStint>) -> bool {
    forall|i: int| 0 <= i < s.len() ==> valid_instant((#[trigger] s[i]).start.at_utc as int)
}

proof fn lemma_sorted_valid(s: Seq<Punch>)
    requires
        all_valid(s),
    ensures
        all_valid(sorted_punches(s)),
    decreases s.len(),
{
    if s.len() > 0 {
        let d = s.drop_last();
        assert(all_valid(d)) by {
            assert forall|i: int| 0 <= i < d.len() implies valid_instant((#[trigger] d[i]).at_utc as int) by {
                assert(d[i] == s[i]);
            };
        };
        lemma_sorted_valid(d);
        let rest = sorted_punches(d);
        lemma_insert_pos_bounds(rest, s.last());
        let r = rest.insert(insert_pos(rest, s.last()), s.last());
        assert forall|i: int| 0 <= i < r.len() implies valid_instant((#[trigger] r[i]).at_utc as int) by {
            let k = insert_pos(rest, s.last());
            if i < k {
                assert(r[i] == rest[i]);
            } else if i > k {
                assert(r[i] == rest[i - 1]);
            }
        };
    }
}

// ---------------------------------------------------------------------------
// Pairing
// ---------------------------------------------------------------------------

/// Whole minutes of `d` seconds, truncated toward zero.
pub open spec fn whole_minutes(d: int) -> int {
    if d >= 0 {
        d / 60
    } else {
        -((-d) / 60)
    }
}

/// The stint from `start` to `end`.
pub open spec fn pair(start: Punch, end: Punch) -> Stint {
    Stint { start, end, minutes: whole_minutes(end.at_utc - start.at_utc) as i64 }
}

/// Pairing state: (stack of open starts, completed stints, orphaned ends).
pub type PairState = (Seq<Punch>, Seq<Stint>, Seq<OrphanedEnd>);

/// Step 1 of a tied-instant group: each `End`, in order, closes a start
/// carried in from an earlier instant; the ones that find none are kept
/// aside (third component) in order.
pub open spec fn close_ends(g: Seq<Punch>, stack: Seq<Punch>, completed: Seq<Stint>) -> (
    Seq<Punch>,
    Seq<Stint>,
    Seq<Punch>,
)
    decreases g.len(),
{
    if g.len() == 0 {
        (stack, completed, Seq::empty())
    } else {
        let (st, c, u) = close_ends(g.drop_last(), stack, completed);
        let p = g.last();
        if p.kind == PunchKind::End {
            if st.len() > 0 {
                (st.drop_last(), c.push(pair(st.last(), p)), u)
            } else {
                (st, c, u.push(p))
            }
        } else {
            (st, c, u)
        }
    }
}

/// Step 2: the group's own `Start`s are pushed, in order.
pub open spec fn push_starts(g: Seq<Punch>, stack: Seq<Punch>) -> Seq<Punch>
    decreases g.len(),
{
    if g.len() == 0 {
        stack
    } else {
        let st = push_starts(g.drop_last(), stack);
        if g.last().kind == PunchKind::Start {
            st.push(g.last())
        } else {
            st
        }
    }
}

/// Step 3: the ends set aside pop against the stack again (same-instant
/// pairs), or become orphans.
pub open spec fn close_unclosed(u: Seq<Punch>, st: PairState) -> PairState
    decreases u.len(),
{
    if u.len() == 0 {
        st
    } else {
        let (s, c, o) = close_unclosed(u.drop_last(), st);
        let p = u.last();
        if s.len() > 0 {
            (s.drop_last(), c.push(pair(s.last(), p)), o)
        } else {
            (s, c, o.push(OrphanedEnd { punch: p }))
        }
    }
}

/// One tied-instant group closed against the state carried in.
pub open spec fn close_group_spec(g: Seq<Punch>, st: PairState) -> PairState {
    let (s1, c1, u) = close_ends(g, st.0, st.1);
    close_unclosed(u, (push_starts(g, s1), c1, st.2))
}

/// Start index of the run of punches at instant `t` that ends at `j`.
pub open spec fn run_from(s: Seq<Punch>, t: i64, j: int) -> int
    decreases j,
{
    if j <= 0 {
        0
    } else if s[j - 1].at_utc == t {
        run_from(s, t, j - 1)
    } else {
        j
    }
}

/// Start of the last tied-instant group of `s`.
pub open spec fn last_group_start(s: Seq<Punch>) -> int {
    run_from(s, s.last().at_utc, s.len() as int)
}

/// The pairing of an already-ordered sequence, group by group.
pub open spec fn pair_groups(s: Seq<Punch>) -> PairState
    decreases s.len(),
{
    if s.len() == 0 {
        (Seq::empty(), Seq::empty(), Seq::empty())
    } else {
        let r = last_group_start(s);
        if 0 <= r < s.len() {
            close_group_spec(s.skip(r), pair_groups(s.take(r)))
        } else {
            (Seq::empty(), Seq::empty(), Seq::empty())
        }
    }
}

proof fn lemma_run_from(s: Seq<Punch>, t: i64, i: int, k: int)
    requires
        0 <= i <= k <= s.len(),
        forall|j: int| i <= j < k ==> (#[trigger] s[j]).at_utc == t,
        i == 0 || s[i - 1].at_utc != t,
    ensures
        run_from(s, t, k) == i,
    decreases k - i,
{
    if k > i {
        lemma_run_from(s, t, i, k - 1);
    }
}

fn stint_of(start: Punch, end: Punch) -> (r: Stint)
    requires
        valid_instant(start.at_utc as int),
        valid_instant(end.at_utc as int),
    ensures
        r == pair(start, end),
{
    let d = end.at_utc - start.at_utc;
    let minutes = if d >= 0 {
        d / 60
    } else {
        -((-d) / 60)
    };
    Stint { start, end, minutes }
}

/// Closes the tied-instant group `s[from..to]` against the state carried
/// in from strictly earlier groups.
fn close_group(
    s: &Vec<Punch>,
    from: usize,
    to: usize,
    stack: &mut Vec<Punch>,
    completed: &mut Vec<Stint>,
    orphaned_ends: &mut Vec<OrphanedEnd>,
)
    requires
        from <= to <= s@.len(),
        all_valid(s@),
        all_valid(old(stack)@),
        orphans_valid(old(orphaned_ends)@),
        stints_valid(old(completed)@),
    ensures
        all_valid(final(stack)@),
        orphans_valid(final(orphaned_ends)@),
        stints_valid(final(completed)@),
        (final(stack)@, final(completed)@, final(orphaned_ends)@) == close_group_spec(
            s@.subrange(from as int, to as int),
            (old(stack)@, old(completed)@, old(orphaned_ends)@),
        ),
{
    let ghost g = s@.subrange(from as int, to as int);
    let ghost stack0 = stack@;
    let ghost completed0 = completed@;
    let mut unclosed: Vec<Punch> = Vec::new();
    let mut k: usize = from;
    while k < to
        invariant
            from <= k <= to <= s@.len(),
            g == s@.subrange(from as int, to as int),
            all_valid(s@),
            all_valid(stack@),
            all_valid(unclosed@),
            stints_valid(completed@),
            (stack@, completed@, unclosed@) == close_ends(g.take(k - from), stack0, completed0),
        decreases to - k,
    {
        let p = s[k];
        proof {
            assert(g.take(k + 1 - from).drop_last() =~= g.take(k - from));
            assert(g.take(k + 1 - from).last() == p);
        }
        if p.kind == PunchKind::End {
            match stack.pop() {
                Some(start) => {
                    completed.push(stint_of(start, p));
                },
                None => {
                    unclosed.push(p);
                },
            }
        }
        k = k + 1;
    }
    proof {
        assert(g.take(to - from) =~= g);
    }
    let ghost stack1 = stack@;
    let mut k: usize = from;
    while k < to
        invariant
            from <= k <= to <= s@.len(),
            g == s@.subrange(from as int, to as int),
            all_valid(s@),
            all_valid(stack@),
            stints_valid(completed@),
            stack@ == push_starts(g.take(k - from), stack1),
        decreases to - k,
    {
        let p = s[k];
        proof {
            assert(g.take(k + 1 - from).drop_last() =~= g.take(k - from));
            assert(g.take(k + 1 - from).last() == p);
        }
        if p.kind == PunchKind::Start {
            stack.push(p);
        }
        k = k + 1;
    }
    proof {
        assert(g.take(to - from) =~= g);
    }
    let ghost st2 = (stack@, completed@, orphaned_ends@);
    let mut k: usize = 0;
    while k < unclosed.len()
        invariant
            k <= unclosed@.len(),
            all_valid(unclosed@),
            all_valid(stack@),
            orphans_valid(orphaned_ends@),
            stints_valid(completed@),
            (stack@, completed@, orphaned_ends@) == close_unclosed(unclosed@.take(k as int), st2),
        decreases unclosed@.len() - k,
    {
        let p = unclosed[k];
        proof {
            assert(unclosed@.take(k + 1).drop_last() =~= unclosed@.take(k as int));
            assert(unclosed@.take(k + 1).last() == p);
        }
        match stack.pop() {
            Some(start) => {
                completed.push(stint_of(start, p));
            },
            None => {
                orphaned_ends.push(OrphanedEnd { punch: p });
            },
        }
        k = k + 1;
    }
    proof {
        assert(unclosed@.take(unclosed@.len() as int) =~= unclosed@);
    }
}

/// Everything pairing produces for one calendar date.
#[derive(Debug, Clone, PartialEq, Eq)]
pub struct DayStints {
    /// Completed stints in emission order -- the only source of worked
    /// minutes.
    pub completed: Vec<Stint>,
    /// Trailing unmatched starts, ascending. One is the ordinary open
    /// stint; two or more is an anomaly.
    pub open: Vec<OpenStint>,
    /// One entry per orphaned end, ascending by instant.
    pub orphaned_ends: Vec<OrphanedEnd>,
}

/// The one definition of "has an anomaly": more than one open stint, or
/// at least one orphaned end.
pub open spec fn anomaly_rule(open_count: int, orphan_count: int) -> bool {
    open_count > 1 || orphan_count > 0
}

/// Live minutes of an open start at `now`, clamped at zero.
pub open spec fn live_minutes(start: Punch, now: i64) -> int {
    let m = whole_minutes(now - start.at_utc);
    if m < 0 {
        0
    } else {
        m
    }
}

/// The open stints left on a final stack.
pub open spec fn open_stints(stack: Seq<Punch>, now: i64) -> Seq<OpenStint> {
    Seq::new(
        stack.len(),
        |i: int| OpenStint { start: stack[i], minutes_so_far: live_minutes(stack[i], now) as i64 },
    )
}

/// What `classify` produces: pairing of the stably sorted punches; what is
/// left on the stack is open.
pub open spec fn classified(punches: Seq<Punch>, now: i64) -> (Seq<Stint>, Seq<OpenStint>, Seq<
    OrphanedEnd,
>) {
    let st = pair_groups(sorted_punches(punches));
    (st.1, open_stints(st.0, now), st.2)
}

impl DayStints {
    fn compute_has_anomaly(open: &Vec<OpenStint>, orphaned_ends: &Vec<OrphanedEnd>) -> (r: bool)
        ensures
            r == anomaly_rule(open@.len() as int, orphaned_ends@.len() as int),
    {
        open.len() > 1 || orphaned_ends.len() > 0
    }

    /// Cheap has-any-anomaly signal: more than one open stint, or at least
    /// one orphaned end.
    pub fn has_anomaly(&self) -> (r: bool)
        ensures
            r == anomaly_rule(self.open@.len() as int, self.orphaned_ends@.len() as int),
    {
        Self::compute_has_anomaly(&self.open, &self.orphaned_ends)
    }

    /// Anomalies for rendering: `MultipleOpenStints` first (when more than
    /// one stint is open), then one `OrphanedEnd` per orphan, in order.
    pub fn anomalies(&self) -> (r: Vec<Anomaly>)
        ensures
            r@ == anomaly_list(self.open@.len() as int, self.orphaned_ends@),
    {
        let mut out: Vec<Anomaly> = Vec::new();
        if self.open.len() > 1 {
            out.push(Anomaly::MultipleOpenStints { count: self.open.len() });
        }
        let ghost head = out@;
        let mut i: usize = 0;
        while i < self.orphaned_ends.len()
            invariant
                i <= self.orphaned_ends@.len(),
                out@ == head + Seq::new(
                    i as nat,
                    |j: int| Anomaly::OrphanedEnd { punch: self.orphaned_ends@[j].punch },
                ),
            decreases self.orphaned_ends@.len() - i,
        {
            out.push(Anomaly::OrphanedEnd { punch: self.orphaned_ends[i].punch });
            i = i + 1;
            assert(out@ =~= head + Seq::new(
                i as nat,
                |j: int| Anomaly::OrphanedEnd { punch: self.orphaned_ends@[j].punch },
            ));
        }
        out
    }

    /// Sum of completed stint minutes: the day total. Excludes open-stint
    /// live time and orphaned ends.
    pub fn completed_minutes(&self) -> (r: i64)
        requires
            sum_fits(self.completed@),
        ensures
            r as int == total_minutes(self.completed@),
    {
        let mut total: i64 = 0;
        let mut i: usize = 0;
        while i < self.completed.len()
            invariant
                i <= self.completed@.len(),
                sum_fits(self.completed@),
                total as int == total_minutes(self.completed@.take(i as int)),
            decreases self.completed@.len() - i,
        {
            proof {
                assert(self.completed@.take(i + 1).drop_last() =~= self.completed@.take(i as int));
                assert(fits(total_minutes(self.completed@.take(i + 1))));
            }
            total = total + self.completed[i].minutes;
            i = i + 1;
        }
        assert(self.completed@.take(self.completed@.len() as int) =~= self.completed@);
        total
    }

    /// True when at least one stint is open (distinct from `has_anomaly`).
    pub fn is_ongoing(&self) -> (r: bool)
        ensures
            r == (self.open@.len() > 0),
    {
        self.open.len() > 0
    }
}

/// The anomaly list for `open_count` open stints and these orphans.
pub open spec fn anomaly_list(open_count: int, orphans: Seq<OrphanedEnd>) -> Seq<Anomaly> {
    (if open_count > 1 {
        seq![Anomaly::MultipleOpenStints { count: open_count as usize }]
    } else {
        Seq::empty()
    }) + Seq::new(orphans.len(), |j: int| Anomaly::OrphanedEnd { punch: orphans[j].punch })
}

/// Sum of the stints' minutes.
pub open spec fn total_minutes(s: Seq<Stint>) -> int
    decreases s.len(),
{
    if s.len() == 0 {
        0
    } else {
        total_minutes(s.drop_last()) + s.last().minutes
    }
}

/// Every running total of the stints' minutes fits an `i64`.
pub open spec fn sum_fits(s: Seq<Stint>) -> bool {
    forall|k: int| 0 <= k <= s.len() ==> fits(#[trigger] total_minutes(s.take(k)))
}

pub open spec fn fits(x: int) -> bool {
    i64::MIN <= x <= i64::MAX
}

/// Pair one calendar date's punches into stints. `punches`: all punches of
/// a single date, in any order (ordering is derived here). `now`: the
/// injected current instant, used only for open stints' live minutes.
pub fn classify(punches: &[Punch], now: i64) -> (r: DayStints)
    requires
        all_valid(punches@),
        valid_instant(now as int),
    ensures
        (r.completed@, r.open@, r.orphaned_ends@) == classified(punches@, now),
        opens_valid(r.open@),
        orphans_valid(r.orphaned_ends@),
        stints_valid(r.completed@),
{
    let sorted = sort_punches(punches);
    proof {
        lemma_sorted_valid(punches@);
    }
    let n = sorted.len();
    let mut stack: Vec<Punch> = Vec::new();
    let mut completed: Vec<Stint> = Vec::new();
    let mut orphaned_ends: Vec<OrphanedEnd> = Vec::new();
    let mut i: usize = 0;
    while i < n
        invariant
            n == sorted@.len(),
            i <= n,
            all_valid(sorted@),
            all_valid(stack@),
            orphans_valid(orphaned_ends@),
            stints_valid(completed@),
            i == 0 || i == n || sorted@[i - 1].at_utc != sorted@[i as int].at_utc,
            (stack@, completed@, orphaned_ends@) == pair_groups(sorted@.take(i as int)),
        decreases n - i,
    {
        let at = sorted[i].at_utc;
        let mut j: usize = i + 1;
        while j < n && sorted[j].at_utc == at
            invariant
                i < j <= n,
                n == sorted@.len(),
                forall|k: int| i <= k < j ==> (#[trigger] sorted@[k]).at_utc == at,
            decreases n - j,
        {
            j = j + 1;
        }
        let ghost before = (stack@, completed@, orphaned_ends@);
        close_group(&sorted, i, j, &mut stack, &mut completed, &mut orphaned_ends);
        proof {
            let t = sorted@.take(j as int);
            assert(t.last() == sorted@[j - 1]);
            assert forall|k: int| i <= k < j implies (#[trigger] t[k]).at_utc == at by {
                assert(t[k] == sorted@[k]);
            };
            if i > 0 {
                assert(t[i - 1] == sorted@[i - 1]);
            }
            lemma_run_from(t, at, i as int, j as int);
            assert(last_group_start(t) == i);
            assert(t.skip(i as int) =~= sorted@.subrange(i as int, j as int));
            assert(t.take(i as int) =~= sorted@.take(i as int));
        }
        i = j;
    }
    proof {
        assert(sorted@.take(n as int) =~= sorted@);
    }
    let mut open: Vec<OpenStint> = Vec::new();
    let mut k: usize = 0;
    while k < stack.len()
        invariant
            k <= stack@.len(),
            all_valid(stack@),
            valid_instant(now as int),
            open@ =~= open_stints(stack@, now).take(k as int),
            opens_valid(open@),
        decreases stack@.len() - k,
    {
        let start = stack[k];
        proof {
            assert(valid_instant(stack@[k as int].at_utc as int));
        }
        let d = now - start.at_utc;
        let m = if d >= 0 {
            d / 60
        } else {
            -((-d) / 60)
        };
        let minutes_so_far = if m < 0 {
            0
        } else {
            m
        };
        open.push(OpenStint { start, minutes_so_far });
        k = k + 1;
    }
    DayStints { completed, open, orphaned_ends }
}

/// The first punch with the least (instant, kind, id) key -- what
/// `min_by_key` picks.
pub open spec fn first_min(s: Seq<Punch>) -> Option<Punch>
    decreases s.len(),
{
    if s.len() == 0 {
        None
    } else {
        match first_min(s.drop_last()) {
            None => Some(s.last()),
            Some(m) => if key_lt(s.last(), m) {
                Some(s.last())
            } else {
                Some(m)
            },
        }
    }
}

/// The three conditions for joining a stint across midnight: the earlier
/// date has exactly one open stint, the later date exactly one orphaned
/// end, and that orphan is the later date's chronologically first punch.
pub open spec fn splice_ok(earlier_open_count: int, later_orphans: Seq<OrphanedEnd>, later_punches: Seq<Punch>) -> bool {
    &&& earlier_open_count == 1
    &&& later_orphans.len() == 1
    &&& first_min(later_punches) matches Some(m)
    &&& m.id == later_orphans[0].punch.id
}

/// What `classify_at` produces for a date given its neighbours.
pub open spec fn classified_at(
    prev: Seq<Punch>,
    day: Seq<Punch>,
    next: Seq<Punch>,
    now: i64,
) -> (Seq<Stint>, Seq<OpenStint>, Seq<OrphanedEnd>) {
    let p = classified(prev, now);
    let d = classified(day, now);
    let n = classified(next, now);
    let orphans = if splice_ok(p.1.len() as int, d.2, day) {
        d.2.remove(0)
    } else {
        d.2
    };
    if splice_ok(d.1.len() as int, n.2, next) {
        (d.0.push(pair(d.1[0].start, n.2[0].punch)), d.1.remove(0), orphans)
    } else {
        (d.0, d.1, orphans)
    }
}

/// Whether a stint may be joined across midnight at this boundary.
pub(crate) fn splice_candidate(
    earlier_open_count: usize,
    later: &DayStints,
    later_punches: &[Punch],
) -> (r: bool)
    ensures
        r == splice_ok(earlier_open_count as int, later.orphaned_ends@, later_punches@),
{
    if earlier_open_count != 1 || later.orphaned_ends.len() != 1 {
        return false;
    }
    if later_punches.len() == 0 {
        proof {
            assert(first_min(later_punches@) is None);
        }
        return false;
    }
    let mut best = later_punches[0];
    let mut i: usize = 1;
    proof {
        let t = later_punches@.take(1);
        assert(t.drop_last() =~= Seq::<Punch>::empty());
        assert(first_min(t.drop_last()) is None);
        assert(t.last() == best);
    }
    while i < later_punches.len()
        invariant
            1 <= i <= later_punches@.len(),
            first_min(later_punches@.take(i as int)) == Some(best),
        decreases later_punches@.len() - i,
    {
        let q = later_punches[i];
        proof {
            assert(later_punches@.take(i + 1).drop_last() =~= later_punches@.take(i as int));
            assert(later_punches@.take(i + 1).last() == q);
        }
        if punch_before(&q, &best) {
            best = q;
        }
        i = i + 1;
    }
    proof {
        assert(later_punches@.take(later_punches@.len() as int) =~= later_punches@);
    }
    best.id == later.orphaned_ends[0].punch.id
}

/// Classifies one date's punches like `classify`, then resolves an
/// unambiguous midnight-spanning stint against the immediately adjacent
/// dates' punches (`&[]` for a neighbour with no data). With both
/// neighbours empty it is exactly `classify`.
pub fn classify_at(
    prev_punches: &[Punch],
    punches: &[Punch],
    next_punches: &[Punch],
    now: i64,
) -> (r: DayStints)
    requires
        all_valid(prev_punches@),
        all_valid(punches@),
        all_valid(next_punches@),
        valid_instant(now as int),
    ensures
        (r.completed@, r.open@, r.orphaned_ends@) == classified_at(
            prev_punches@,
            punches@,
            next_punches@,
            now,
        ),
        opens_valid(r.open@),
        orphans_valid(r.orphaned_ends@),
        stints_valid(r.completed@),
{
    let prev = classify(prev_punches, now);
    let mut day = classify(punches, now);
    let next = classify(next_punches, now);
    proof {
        lemma_sorted_valid(punches@);
    }
    if splice_candidate(prev.open.len(), &day, punches) {
        day.orphaned_ends.remove(0);
    }
    if splice_candidate(day.open.len(), &next, next_punches) {
        let open = day.open.remove(0);
        let end = next.orphaned_ends[0].punch;
        day.completed.push(stint_of(open.start, end));
    }
    day
}

// ---------------------------------------------------------------------------
// Laws
// ---------------------------------------------------------------------------

/// A date has an anomaly exactly when its anomaly list is non-empty: the
/// cheap signal and the full list never disagree.
pub proof fn law_has_anomaly_iff_anomalies(open_count: int, orphans: Seq<OrphanedEnd>)
    requires
        open_count >= 0,
    ensures
        anomaly_rule(open_count, orphans.len() as int) <==> anomaly_list(open_count, orphans).len() > 0,
{
}

/// With no punches on either neighbouring date, `classify_at` is exactly
/// `classify`: no splice can fire.
pub proof fn law_classify_at_without_neighbours(day: Seq<Punch>, now: i64)
    ensures
        classified_at(Seq::empty(), day, Seq::empty(), now) == classified(day, now),
{
    let e = Seq::<Punch>::empty();
    assert(sorted_punches(e) =~= e);
    assert(pair_groups(e) == (e, Seq::<Stint>::empty(), Seq::<OrphanedEnd>::empty()));
    assert(open_stints(e, now) =~= Seq::<OpenStint>::empty());
}

/// A stint joined across midnight is counted once, for the earlier date:
/// the earlier date `a` gains one completed stint, made of its open start
/// and the later date's orphaned end, exactly when the later date `b`
/// drops that orphaned end; and `b`'s own completed stints never depend
/// on what `a` holds.
pub proof fn law_midnight_join_counted_once(
    before_a: Seq<Punch>,
    a: Seq<Punch>,
    b: Seq<Punch>,
    after_b: Seq<Punch>,
    other_a: Seq<Punch>,
    now: i64,
)
    ensures
        ({
            let seen_a = classified_at(before_a, a, b, now);
            let seen_b = classified_at(a, b, after_b, now);
            let own_a = classified(a, now);
            let own_b = classified(b, now);
            &&& (seen_a.0.len() == own_a.0.len() + 1) <==> (seen_b.2.len() + 1 == own_b.2.len())
            &&& seen_a.0.len() == own_a.0.len() + 1 ==> seen_a.0 == own_a.0.push(
                pair(own_a.1[0].start, own_b.2[0].punch),
            ) && seen_b.2 == own_b.2.remove(0)
            &&& seen_a.0.len() != own_a.0.len() + 1 ==> seen_a.0 == own_a.0 && seen_b.2 == own_b.2
        }),
        classified_at(other_a, b, after_b, now).0 == classified_at(a, b, after_b, now).0,
{
}

/// How many punches of kind `k` a sequence holds.
pub open spec fn count_kind(s: Seq<Punch>, k: PunchKind) -> int
    decreases s.len(),
{
    if s.len() == 0 {
        0
    } else {
        count_kind(s.drop_last(), k) + (if s.last().kind == k {
            1int
        } else {
            0int
        })
    }
}

proof fn lemma_count_add(a: Seq<Punch>, b: Seq<Punch>, k: PunchKind)
    ensures
        count_kind(a + b, k) == count_kind(a, k) + count_kind(b, k),
    decreases b.len(),
{
    if b.len() == 0 {
        assert(a + b =~= a);
    } else {
        assert((a + b).drop_last() =~= a + b.drop_last());
        lemma_count_add(a, b.drop_last(), k);
    }
}

proof fn lemma_count_insert(s: Seq<Punch>, i: int, p: Punch, k: PunchKind)
    requires
        0 <= i <= s.len(),
    ensures
        count_kind(s.insert(i, p), k) == count_kind(s, k) + (if p.kind == k {
            1int
        } else {
            0int
        }),
{
    let a = s.take(i);
    let b = s.skip(i);
    let one = seq![p];
    assert(one.drop_last() =~= Seq::<Punch>::empty());
    assert(count_kind(Seq::<Punch>::empty(), k) == 0);
    assert(one.last() == p);
    assert(count_kind(one, k) == (if p.kind == k {
        1int
    } else {
        0int
    }));
    lemma_count_add(a + one, b, k);
    lemma_count_add(a, one, k);
    lemma_count_add(a, b, k);
    assert(s.insert(i, p) =~= a + one + b);
    assert(s =~= a + b);
}

proof fn lemma_count_sorted(s: Seq<Punch>, k: PunchKind)
    ensures
        count_kind(sorted_punches(s), k) == count_kind(s, k),
    decreases s.len(),
{
    if s.len() > 0 {
        lemma_count_sorted(s.drop_last(), k);
        let rest = sorted_punches(s.drop_last());
        lemma_sorted_len(s.drop_last());
        lemma_insert_pos_bounds(rest, s.last());
        lemma_count_insert(rest, insert_pos(rest, s.last()), s.last(), k);
    }
}

proof fn lemma_close_ends_counts(g: Seq<Punch>, stack: Seq<Punch>, completed: Seq<Stint>)
    ensures
        ({
            let (st, c, u) = close_ends(g, stack, completed);
            &&& st.len() + c.len() == stack.len() + completed.len()
            &&& c.len() - completed.len() + u.len() == count_kind(g, PunchKind::End)
        }),
    decreases g.len(),
{
    if g.len() > 0 {
        lemma_close_ends_counts(g.drop_last(), stack, completed);
    }
}

proof fn lemma_push_starts_len(g: Seq<Punch>, stack: Seq<Punch>)
    ensures
        push_starts(g, stack).len() == stack.len() + count_kind(g, PunchKind::Start),
    decreases g.len(),
{
    if g.len() > 0 {
        lemma_push_starts_len(g.drop_last(), stack);
    }
}

proof fn lemma_close_unclosed_counts(u: Seq<Punch>, st: PairState)
    ensures
        ({
            let (s, c, o) = close_unclosed(u, st);
            &&& s.len() + c.len() == st.0.len() + st.1.len()
            &&& c.len() - st.1.len() + o.len() - st.2.len() == u.len()
        }),
    decreases u.len(),
{
    if u.len() > 0 {
        lemma_close_unclosed_counts(u.drop_last(), st);
    }
}

proof fn lemma_group_counts(g: Seq<Punch>, st: PairState)
    ensures
        ({
            let (s, c, o) = close_group_spec(g, st);
            &&& s.len() + c.len() == st.0.len() + st.1.len() + count_kind(g, PunchKind::Start)
            &&& c.len() + o.len() == st.1.len() + st.2.len() + count_kind(g, PunchKind::End)
        }),
{
    lemma_close_ends_counts(g, st.0, st.1);
    let (s1, c1, u) = close_ends(g, st.0, st.1);
    lemma_push_starts_len(g, s1);
    lemma_close_unclosed_counts(u, (push_starts(g, s1), c1, st.2));
}

proof fn lemma_run_from_bounds(s: Seq<Punch>, t: i64, j: int)
    requires
        0 <= j <= s.len(),
    ensures
        0 <= run_from(s, t, j) <= j,
        j > 0 && s[j - 1].at_utc == t ==> run_from(s, t, j) < j,
    decreases j,
{
    if j > 0 {
        lemma_run_from_bounds(s, t, j - 1);
    }
}

proof fn lemma_pair_groups_counts(s: Seq<Punch>)
    ensures
        ({
            let (st, c, o) = pair_groups(s);
            &&& st.len() + c.len() == count_kind(s, PunchKind::Start)
            &&& c.len() + o.len() == count_kind(s, PunchKind::End)
        }),
    decreases s.len(),
{
    if s.len() > 0 {
        let r = last_group_start(s);
        lemma_run_from_bounds(s, s.last().at_utc, s.len() as int);
        assert(0 <= r < s.len());
        lemma_pair_groups_counts(s.take(r));
        lemma_group_counts(s.skip(r), pair_groups(s.take(r)));
        assert(s =~= s.take(r) + s.skip(r));
        lemma_count_add(s.take(r), s.skip(r), PunchKind::Start);
        lemma_count_add(s.take(r), s.skip(r), PunchKind::End);
    }
}

/// Pairing loses and invents nothing: every start of the date ends up in
/// exactly one completed or open stint, and every end in exactly one
/// completed stint or orphan.
pub proof fn law_pairing_accounts_for_every_punch(punches: Seq<Punch>, now: i64)
    ensures
        ({
            let (completed, open, orphans) = classified(punches, now);
            &&& completed.len() + open.len() == count_kind(punches, PunchKind::Start)
            &&& completed.len() + orphans.len() == count_kind(punches, PunchKind::End)
        }),
{
    lemma_pair_groups_counts(sorted_punches(punches));
    lemma_count_sorted(punches, PunchKind::Start);
    lemma_count_sorted(punches, PunchKind::End);
}

/// The punches of a sequence, as a bag.
pub open spec fn punch_bag(s: Seq<Punch>) -> Multiset<Punch>
    decreases s.len(),
{
    if s.len() == 0 {
        Multiset::empty()
    } else {
        punch_bag(s.drop_last()).insert(s.last())
    }
}

/// The punches of kind `k` of a sequence, as a bag.
pub open spec fn kind_bag(s: Seq<Punch>, k: PunchKind) -> Multiset<Punch>
    decreases s.len(),
{
    if s.len() == 0 {
        Multiset::empty()
    } else if s.last().kind == k {
        kind_bag(s.drop_last(), k).insert(s.last())
    } else {
        kind_bag(s.drop_last(), k)
    }
}

/// Both punches of every stint, as a bag.
pub open spec fn stint_bag(c: Seq<Stint>) -> Multiset<Punch>
    decreases c.len(),
{
    if c.len() == 0 {
        Multiset::empty()
    } else {
        stint_bag(c.drop_last()).insert(c.last().start).insert(c.last().end)
    }
}

/// The start of every open stint, as a bag.
pub open spec fn open_bag(o: Seq<OpenStint>) -> Multiset<Punch>
    decreases o.len(),
{
    if o.len() == 0 {
        Multiset::empty()
    } else {
        open_bag(o.drop_last()).insert(o.last().start)
    }
}

/// The punch of every orphaned end, as a bag.
pub open spec fn orphan_bag(o: Seq<OrphanedEnd>) -> Multiset<Punch>
    decreases o.len(),
{
    if o.len() == 0 {
        Multiset::empty()
    } else {
        orphan_bag(o.drop_last()).insert(o.last().punch)
    }
}

/// Every punch a pairing state holds.
pub open spec fn state_bag(st: PairState) -> Multiset<Punch> {
    punch_bag(st.0).add(stint_bag(st.1)).add(orphan_bag(st.2))
}

/// The stack holds starts, each stint a start then an end, each orphan an
/// end.
pub open spec fn state_kinds(st: PairState) -> bool {
    &&& forall|i: int| 0 <= i < st.0.len() ==> (#[trigger] st.0[i]).kind == PunchKind::Start
    &&& forall|i: int|
        0 <= i < st.1.len() ==> (#[trigger] st.1[i]).start.kind == PunchKind::Start && st.1[i].end.kind
            == PunchKind::End
    &&& forall|i: int| 0 <= i < st.2.len() ==> (#[trigger] st.2[i]).punch.kind == PunchKind::End
}

proof fn lemma_close_ends_bag(g: Seq<Punch>, stack: Seq<Punch>, completed: Seq<Stint>)
    requires
        state_kinds((stack, completed, Seq::empty())),
    ensures
        ({
            let (st, c, u) = close_ends(g, stack, completed);
            &&& punch_bag(st).add(stint_bag(c)).add(punch_bag(u)) =~= punch_bag(stack).add(
                stint_bag(completed),
            ).add(kind_bag(g, PunchKind::End))
            &&& state_kinds((st, c, Seq::empty()))
            &&& forall|i: int| 0 <= i < u.len() ==> (#[trigger] u[i]).kind == PunchKind::End
        }),
    decreases g.len(),
{
    broadcast use vstd::multiset::group_multiset_axioms;

    if g.len() == 0 {
        assert(close_ends(g, stack, completed) == (stack, completed, Seq::<Punch>::empty()));
        assert(punch_bag(Seq::<Punch>::empty()) == Multiset::<Punch>::empty());
        assert(kind_bag(g, PunchKind::End) == Multiset::<Punch>::empty());
        assert(punch_bag(stack).add(stint_bag(completed)).add(punch_bag(Seq::<Punch>::empty())) =~= punch_bag(stack).add(
            stint_bag(completed),
        ).add(kind_bag(g, PunchKind::End)));
    }
    if g.len() > 0 {
        lemma_close_ends_bag(g.drop_last(), stack, completed);
        let (st, c, u) = close_ends(g.drop_last(), stack, completed);
        let p = g.last();
        if p.kind != PunchKind::End {
            assert(close_ends(g, stack, completed) == (st, c, u));
            assert(kind_bag(g, PunchKind::End) == kind_bag(g.drop_last(), PunchKind::End));
            assert(punch_bag(st).add(stint_bag(c)).add(punch_bag(u)) =~= punch_bag(stack).add(
                stint_bag(completed),
            ).add(kind_bag(g, PunchKind::End)));
        }
        if p.kind == PunchKind::End {
            if st.len() > 0 {
                let st2 = st.drop_last();
                let c2 = c.push(pair(st.last(), p));
                assert(c2.drop_last() =~= c);
                assert(st.last() == st[st.len() - 1]);
                assert(close_ends(g, stack, completed) == (st2, c2, u));
                assert(punch_bag(st) =~= punch_bag(st2).insert(st.last()));
                assert(stint_bag(c2) =~= stint_bag(c).insert(st.last()).insert(p));
                assert(kind_bag(g, PunchKind::End) =~= kind_bag(g.drop_last(), PunchKind::End).insert(p));
                assert forall|v: Punch| #[trigger] punch_bag(st2).add(stint_bag(c2)).add(punch_bag(u)).count(v)
                    == punch_bag(stack).add(stint_bag(completed)).add(kind_bag(g, PunchKind::End)).count(v) by {
                    assert(punch_bag(st).add(stint_bag(c)).add(punch_bag(u)).count(v) == punch_bag(stack).add(
                        stint_bag(completed),
                    ).add(kind_bag(g.drop_last(), PunchKind::End)).count(v));
                };
                assert(punch_bag(st2).add(stint_bag(c2)).add(punch_bag(u)) =~= punch_bag(stack).add(
                    stint_bag(completed),
                ).add(kind_bag(g, PunchKind::End)));
                assert(state_kinds((st2, c2, Seq::<OrphanedEnd>::empty()))) by {
                    assert forall|i: int| 0 <= i < st2.len() implies (#[trigger] st2[i]).kind == PunchKind::Start by {
                        assert(st2[i] == st[i]);
                    };
                    assert forall|i: int| 0 <= i < c2.len() implies (#[trigger] c2[i]).start.kind == PunchKind::Start
                        && c2[i].end.kind == PunchKind::End by {
                        if i < c.len() {
                            assert(c2[i] == c[i]);
                        }
                    };
                };
            } else {
                let u2 = u.push(p);
                assert(u2.drop_last() =~= u);
                assert(close_ends(g, stack, completed) == (st, c, u2));
                assert(punch_bag(u2) =~= punch_bag(u).insert(p));
                assert(kind_bag(g, PunchKind::End) =~= kind_bag(g.drop_last(), PunchKind::End).insert(p));
                assert forall|v: Punch| #[trigger] punch_bag(st).add(stint_bag(c)).add(punch_bag(u2)).count(v)
                    == punch_bag(stack).add(stint_bag(completed)).add(kind_bag(g, PunchKind::End)).count(v) by {
                    assert(punch_bag(st).add(stint_bag(c)).add(punch_bag(u)).count(v) == punch_bag(stack).add(
                        stint_bag(completed),
                    ).add(kind_bag(g.drop_last(), PunchKind::End)).count(v));
                };
                assert(punch_bag(st).add(stint_bag(c)).add(punch_bag(u2)) =~= punch_bag(stack).add(
                    stint_bag(completed),
                ).add(kind_bag(g, PunchKind::End)));
                assert forall|i: int| 0 <= i < u2.len() implies (#[trigger] u2[i]).kind == PunchKind::End by {
                    if i < u.len() {
                        assert(u2[i] == u[i]);
                    }
                };
            }
        }
    }
}

proof fn lemma_push_starts_bag(g: Seq<Punch>, stack: Seq<Punch>)
    requires
        forall|i: int| 0 <= i < stack.len() ==> (#[trigger] stack[i]).kind == PunchKind::Start,
    ensures
        punch_bag(push_starts(g, stack)) =~= punch_bag(stack).add(kind_bag(g, PunchKind::Start)),
        forall|i: int|
            0 <= i < push_starts(g, stack).len() ==> (#[trigger] push_starts(g, stack)[i]).kind
                == PunchKind::Start,
    decreases g.len(),
{
    if g.len() > 0 {
        lemma_push_starts_bag(g.drop_last(), stack);
        let st = push_starts(g.drop_last(), stack);
        if g.last().kind == PunchKind::Start {
            let st2 = st.push(g.last());
            assert(st2.drop_last() =~= st);
            assert forall|i: int| 0 <= i < st2.len() implies (#[trigger] st2[i]).kind == PunchKind::Start by {
                if i < st.len() {
                    assert(st2[i] == st[i]);
                }
            };
        }
    }
}

proof fn lemma_close_unclosed_bag(u: Seq<Punch>, st: PairState)
    requires
        state_kinds(st),
        forall|i: int| 0 <= i < u.len() ==> (#[trigger] u[i]).kind == PunchKind::End,
    ensures
        state_bag(close_unclosed(u, st)) =~= state_bag(st).add(punch_bag(u)),
        state_kinds(close_unclosed(u, st)),
    decreases u.len(),
{
    if u.len() > 0 {
        let ud = u.drop_last();
        assert forall|i: int| 0 <= i < ud.len() implies (#[trigger] ud[i]).kind == PunchKind::End by {
            assert(ud[i] == u[i]);
        };
        lemma_close_unclosed_bag(ud, st);
        let (s, c, o) = close_unclosed(ud, st);
        let p = u.last();
        assert(p.kind == PunchKind::End);
        if s.len() > 0 {
            let s2 = s.drop_last();
            let c2 = c.push(pair(s.last(), p));
            assert(c2.drop_last() =~= c);
            assert(s.last() == s[s.len() - 1]);
            assert forall|i: int| 0 <= i < s2.len() implies (#[trigger] s2[i]).kind == PunchKind::Start by {
                assert(s2[i] == s[i]);
            };
            assert forall|i: int| 0 <= i < c2.len() implies (#[trigger] c2[i]).start.kind == PunchKind::Start
                && c2[i].end.kind == PunchKind::End by {
                if i < c.len() {
                    assert(c2[i] == c[i]);
                }
            };
        } else {
            let o2 = o.push(OrphanedEnd { punch: p });
            assert(o2.drop_last() =~= o);
            assert forall|i: int| 0 <= i < o2.len() implies (#[trigger] o2[i]).punch.kind == PunchKind::End by {
                if i < o.len() {
                    assert(o2[i] == o[i]);
                }
            };
        }
    }
}

proof fn lemma_kind_split(g: Seq<Punch>)
    ensures
        punch_bag(g) =~= kind_bag(g, PunchKind::Start).add(kind_bag(g, PunchKind::End)),
    decreases g.len(),
{
    if g.len() > 0 {
        lemma_kind_split(g.drop_last());
    }
}

proof fn lemma_punch_bag_add(a: Seq<Punch>, b: Seq<Punch>)
    ensures
        punch_bag(a + b) =~= punch_bag(a).add(punch_bag(b)),
    decreases b.len(),
{
    if b.len() == 0 {
        assert(a + b =~= a);
    } else {
        assert((a + b).drop_last() =~= a + b.drop_last());
        lemma_punch_bag_add(a, b.drop_last());
    }
}

proof fn lemma_group_bag(g: Seq<Punch>, st: PairState)
    requires
        state_kinds(st),
    ensures
        state_bag(close_group_spec(g, st)) =~= state_bag(st).add(punch_bag(g)),
        state_kinds(close_group_spec(g, st)),
{
    assert(state_kinds((st.0, st.1, Seq::<OrphanedEnd>::empty())));
    lemma_close_ends_bag(g, st.0, st.1);
    let (s1, c1, u) = close_ends(g, st.0, st.1);
    lemma_push_starts_bag(g, s1);
    let mid = (push_starts(g, s1), c1, st.2);
    assert(state_kinds(mid));
    lemma_close_unclosed_bag(u, mid);
    lemma_kind_split(g);
    let res = close_group_spec(g, st);
    assert(res == close_unclosed(u, mid));
    assert forall|v: Punch| #[trigger] state_bag(res).count(v) == state_bag(st).add(punch_bag(g)).count(v) by {
        assert(state_bag(res).count(v) == state_bag(mid).add(punch_bag(u)).count(v));
        assert(punch_bag(push_starts(g, s1)).count(v) == punch_bag(s1).add(kind_bag(g, PunchKind::Start)).count(v));
        assert(punch_bag(s1).add(stint_bag(c1)).add(punch_bag(u)).count(v) == punch_bag(st.0).add(
            stint_bag(st.1),
        ).add(kind_bag(g, PunchKind::End)).count(v));
        assert(punch_bag(g).count(v) == kind_bag(g, PunchKind::Start).add(kind_bag(g, PunchKind::End)).count(v));
    };
    assert(state_bag(res) =~= state_bag(st).add(punch_bag(g)));
}

proof fn lemma_pair_groups_bag(s: Seq<Punch>)
    ensures
        state_bag(pair_groups(s)) =~= punch_bag(s),
        state_kinds(pair_groups(s)),
    decreases s.len(),
{
    if s.len() > 0 {
        let r = last_group_start(s);
        lemma_run_from_bounds(s, s.last().at_utc, s.len() as int);
        lemma_pair_groups_bag(s.take(r));
        lemma_group_bag(s.skip(r), pair_groups(s.take(r)));
        assert(s =~= s.take(r) + s.skip(r));
        lemma_punch_bag_add(s.take(r), s.skip(r));
    } else {
        let e = Seq::<Punch>::empty();
        assert(pair_groups(s) == (e, Seq::<Stint>::empty(), Seq::<OrphanedEnd>::empty()));
    }
}

proof fn lemma_punch_bag_insert(s: Seq<Punch>, i: int, p: Punch)
    requires
        0 <= i <= s.len(),
    ensures
        punch_bag(s.insert(i, p)) =~= punch_bag(s).insert(p),
{
    let a = s.take(i);
    let b = s.skip(i);
    let one = seq![p];
    assert(one.drop_last() =~= Seq::<Punch>::empty());
    lemma_punch_bag_add(a + one, b);
    lemma_punch_bag_add(a, one);
    lemma_punch_bag_add(a, b);
    assert(s.insert(i, p) =~= a + one + b);
    assert(s =~= a + b);
    assert(punch_bag(one.drop_last()) == Multiset::<Punch>::empty());
    assert forall|v: Punch| #[trigger] punch_bag(s.insert(i, p)).count(v) == punch_bag(s).insert(p).count(v) by {
        assert(punch_bag(a + one + b).count(v) == punch_bag(a + one).add(punch_bag(b)).count(v));
        assert(punch_bag(a + one).count(v) == punch_bag(a).add(punch_bag(one)).count(v));
        assert(punch_bag(a + b).count(v) == punch_bag(a).add(punch_bag(b)).count(v));
    };
}

proof fn lemma_sorted_bag(s: Seq<Punch>)
    ensures
        punch_bag(sorted_punches(s)) =~= punch_bag(s),
    decreases s.len(),
{
    if s.len() > 0 {
        lemma_sorted_bag(s.drop_last());
        let rest = sorted_punches(s.drop_last());
        lemma_sorted_len(s.drop_last());
        lemma_insert_pos_bounds(rest, s.last());
        lemma_punch_bag_insert(rest, insert_pos(rest, s.last()), s.last());
    }
}

proof fn lemma_open_bag(stack: Seq<Punch>, now: i64)
    ensures
        open_bag(open_stints(stack, now)) =~= punch_bag(stack),
    decreases stack.len(),
{
    if stack.len() > 0 {
        lemma_open_bag(stack.drop_last(), now);
        assert(open_stints(stack, now).drop_last() =~= open_stints(stack.drop_last(), now));
    }
}

/// Pairing keeps every punch of the date exactly once and puts each in its
/// place: together, the completed stints' starts and ends, the open
/// stints' starts and the orphaned ends are the date's punches (as a bag,
/// duplicates counted); every stint is a start then an end, every open
/// stint starts with a start, every orphan is an end.
pub proof fn law_pairing_keeps_every_punch(punches: Seq<Punch>, now: i64)
    ensures
        ({
            let (completed, open, orphans) = classified(punches, now);
            &&& stint_bag(completed).add(open_bag(open)).add(orphan_bag(orphans)) =~= punch_bag(
                punches,
            )
            &&& forall|i: int|
                0 <= i < completed.len() ==> (#[trigger] completed[i]).start.kind == PunchKind::Start
                    && completed[i].end.kind == PunchKind::End
            &&& forall|i: int| 0 <= i < open.len() ==> (#[trigger] open[i]).start.kind == PunchKind::Start
            &&& forall|i: int| 0 <= i < orphans.len() ==> (#[trigger] orphans[i]).punch.kind
                == PunchKind::End
        }),
{
    let sorted = sorted_punches(punches);
    lemma_pair_groups_bag(sorted);
    lemma_sorted_bag(punches);
    let st = pair_groups(sorted);
    lemma_open_bag(st.0, now);
    let open = open_stints(st.0, now);
    assert forall|i: int| 0 <= i < open.len() implies (#[trigger] open[i]).start.kind == PunchKind::Start by {
        assert(open[i].start == st.0[i]);
    };
}

/// Instants never decrease along `s`.
pub open spec fn at_sorted(s: Seq<Punch>) -> bool {
    forall|i: int, j: int| 0 <= i < j < s.len() ==> s[i].at_utc <= s[j].at_utc
}

/// A pairing state after the instant `t`: the stack and the orphans are
/// in instant order and not after `t`, and every stint ends no earlier
/// than it starts.
pub open spec fn state_order(st: PairState, t: int) -> bool {
    &&& forall|i: int| 0 <= i < st.0.len() ==> (#[trigger] st.0[i]).at_utc <= t
    &&& at_sorted(st.0)
    &&& forall|i: int|
        0 <= i < st.1.len() ==> (#[trigger] st.1[i]).start.at_utc <= st.1[i].end.at_utc && st.1[i]
            == pair(st.1[i].start, st.1[i].end)
    &&& forall|i: int| 0 <= i < st.2.len() ==> (#[trigger] st.2[i]).punch.at_utc <= t
    &&& forall|i: int, j: int| 0 <= i < j < st.2.len() ==> st.2[i].punch.at_utc <= st.2[j].punch.at_utc
}

proof fn lemma_insert_pos_at(s: Seq<Punch>, p: Punch)
    requires
        at_sorted(s),
    ensures
        0 <= insert_pos(s, p) <= s.len(),
        forall|i: int| 0 <= i < insert_pos(s, p) ==> s[i].at_utc <= p.at_utc,
        forall|i: int| insert_pos(s, p) <= i < s.len() ==> p.at_utc <= s[i].at_utc,
    decreases s.len(),
{
    if s.len() > 0 {
        let d = s.drop_last();
        assert(at_sorted(d)) by {
            assert forall|i: int, j: int| 0 <= i < j < d.len() implies d[i].at_utc <= d[j].at_utc by {
                assert(d[i] == s[i] && d[j] == s[j]);
            };
        };
        lemma_insert_pos_at(d, p);
        let k = insert_pos(s, p);
        if key_lt(p, s.last()) {
            assert forall|i: int| 0 <= i < k implies s[i].at_utc <= p.at_utc by {
                assert(s[i] == d[i]);
            };
            assert forall|i: int| k <= i < s.len() implies p.at_utc <= s[i].at_utc by {
                if i < s.len() - 1 {
                    assert(s[i] == d[i]);
                }
            };
        } else {
            assert forall|i: int| 0 <= i < k implies s[i].at_utc <= p.at_utc by {
                if i < s.len() - 1 {
                    assert(s[i].at_utc <= s[s.len() - 1].at_utc);
                }
            };
        }
    }
}

proof fn lemma_sorted_at(s: Seq<Punch>)
    ensures
        at_sorted(sorted_punches(s)),
    decreases s.len(),
{
    if s.len() > 0 {
        lemma_sorted_at(s.drop_last());
        let rest = sorted_punches(s.drop_last());
        let p = s.last();
        lemma_insert_pos_at(rest, p);
        let k = insert_pos(rest, p);
        let r = rest.insert(k, p);
        assert forall|i: int, j: int| 0 <= i < j < r.len() implies r[i].at_utc <= r[j].at_utc by {
            if j < k {
                assert(r[i] == rest[i] && r[j] == rest[j]);
            } else if j == k {
                assert(r[i] == rest[i]);
            } else if i < k {
                assert(r[i] == rest[i] && r[j] == rest[j - 1]);
            } else if i == k {
                assert(r[j] == rest[j - 1]);
            } else {
                assert(r[i] == rest[i - 1] && r[j] == rest[j - 1]);
            }
        };
    }
}

proof fn lemma_run_from_all(s: Seq<Punch>, t: i64, j: int)
    requires
        0 <= j <= s.len(),
    ensures
        forall|k: int| run_from(s, t, j) <= k < j ==> (#[trigger] s[k]).at_utc == t,
    decreases j,
{
    if j > 0 && s[j - 1].at_utc == t {
        lemma_run_from_all(s, t, j - 1);
    }
}

proof fn lemma_close_ends_order(g: Seq<Punch>, stack: Seq<Punch>, completed: Seq<Stint>, t: int)
    requires
        state_order((stack, completed, Seq::empty()), t),
        forall|i: int| 0 <= i < g.len() ==> (#[trigger] g[i]).at_utc == t,
    ensures
        ({
            let (st, c, u) = close_ends(g, stack, completed);
            &&& state_order((st, c, Seq::empty()), t)
            &&& forall|i: int| 0 <= i < u.len() ==> (#[trigger] u[i]).at_utc == t
            &&& forall|i: int| 0 <= i < st.len() ==> st[i] == stack[i]
            &&& st.len() <= stack.len()
        }),
    decreases g.len(),
{
    if g.len() > 0 {
        let gd = g.drop_last();
        assert forall|i: int| 0 <= i < gd.len() implies (#[trigger] gd[i]).at_utc == t by {
            assert(gd[i] == g[i]);
        };
        lemma_close_ends_order(gd, stack, completed, t);
        let (st, c, u) = close_ends(gd, stack, completed);
        let p = g.last();
        assert(p.at_utc == t);
        if p.kind == PunchKind::End {
            if st.len() > 0 {
                let st2 = st.drop_last();
                let c2 = c.push(pair(st.last(), p));
                assert(st.last() == st[st.len() - 1]);
                assert forall|i: int| 0 <= i < c2.len() implies (#[trigger] c2[i]).start.at_utc <= c2[i].end.at_utc && c2[i] == pair(c2[i].start, c2[i].end) by {
                    if i < c.len() {
                        assert(c2[i] == c[i]);
                    }
                };
                assert forall|i: int| 0 <= i < st2.len() implies (#[trigger] st2[i]).at_utc <= t && st2[i] == stack[i] by {
                    assert(st2[i] == st[i]);
                };
                assert(at_sorted(st2)) by {
                    assert forall|i: int, j: int| 0 <= i < j < st2.len() implies st2[i].at_utc <= st2[j].at_utc by {
                        assert(st2[i] == st[i] && st2[j] == st[j]);
                    };
                };
            } else {
                let u2 = u.push(p);
                assert forall|i: int| 0 <= i < u2.len() implies (#[trigger] u2[i]).at_utc == t by {
                    if i < u.len() {
                        assert(u2[i] == u[i]);
                    }
                };
            }
        }
    }
}

proof fn lemma_push_starts_order(g: Seq<Punch>, stack: Seq<Punch>, t: int)
    requires
        forall|i: int| 0 <= i < stack.len() ==> (#[trigger] stack[i]).at_utc <= t,
        at_sorted(stack),
        forall|i: int| 0 <= i < g.len() ==> (#[trigger] g[i]).at_utc == t,
    ensures
        forall|i: int| 0 <= i < push_starts(g, stack).len() ==> (#[trigger] push_starts(g, stack)[i]).at_utc <= t,
        at_sorted(push_starts(g, stack)),
    decreases g.len(),
{
    if g.len() > 0 {
        let gd = g.drop_last();
        assert forall|i: int| 0 <= i < gd.len() implies (#[trigger] gd[i]).at_utc == t by {
            assert(gd[i] == g[i]);
        };
        lemma_push_starts_order(gd, stack, t);
        let st = push_starts(gd, stack);
        if g.last().kind == PunchKind::Start {
            let st2 = st.push(g.last());
            assert(g.last().at_utc == t);
            assert forall|i: int| 0 <= i < st2.len() implies (#[trigger] st2[i]).at_utc <= t by {
                if i < st.len() {
                    assert(st2[i] == st[i]);
                }
            };
            assert forall|i: int, j: int| 0 <= i < j < st2.len() implies st2[i].at_utc <= st2[j].at_utc by {
                assert(st2[i] == st[i]);
                if j < st.len() {
                    assert(st2[j] == st[j]);
                }
            };
        }
    }
}

proof fn lemma_close_unclosed_order(u: Seq<Punch>, st: PairState, t: int)
    requires
        state_order(st, t),
        forall|i: int| 0 <= i < u.len() ==> (#[trigger] u[i]).at_utc == t,
    ensures
        state_order(close_unclosed(u, st), t),
    decreases u.len(),
{
    if u.len() > 0 {
        let ud = u.drop_last();
        assert forall|i: int| 0 <= i < ud.len() implies (#[trigger] ud[i]).at_utc == t by {
            assert(ud[i] == u[i]);
        };
        lemma_close_unclosed_order(ud, st, t);
        let (s0, c, o) = close_unclosed(ud, st);
        let p = u.last();
        assert(p.at_utc == t);
        if s0.len() > 0 {
            let s2 = s0.drop_last();
            let c2 = c.push(pair(s0.last(), p));
            assert(s0.last() == s0[s0.len() - 1]);
            assert forall|i: int| 0 <= i < c2.len() implies (#[trigger] c2[i]).start.at_utc <= c2[i].end.at_utc && c2[i] == pair(c2[i].start, c2[i].end) by {
                if i < c.len() {
                    assert(c2[i] == c[i]);
                }
            };
            assert forall|i: int| 0 <= i < s2.len() implies (#[trigger] s2[i]).at_utc <= t by {
                assert(s2[i] == s0[i]);
            };
            assert(at_sorted(s2)) by {
                assert forall|i: int, j: int| 0 <= i < j < s2.len() implies s2[i].at_utc <= s2[j].at_utc by {
                    assert(s2[i] == s0[i] && s2[j] == s0[j]);
                };
            };
        } else {
            let o2 = o.push(OrphanedEnd { punch: p });
            assert forall|i: int| 0 <= i < o2.len() implies (#[trigger] o2[i]).punch.at_utc <= t by {
                if i < o.len() {
                    assert(o2[i] == o[i]);
                }
            };
            assert forall|i: int, j: int| 0 <= i < j < o2.len() implies o2[i].punch.at_utc <= o2[j].punch.at_utc by {
                assert(o2[i] == o[i]);
                if j < o.len() {
                    assert(o2[j] == o[j]);
                }
            };
        }
    }
}

proof fn lemma_state_order_later(st: PairState, t0: int, t: int)
    requires
        state_order(st, t0),
        t0 <= t,
    ensures
        state_order(st, t),
{
}

proof fn lemma_group_order(g: Seq<Punch>, st: PairState, t: int)
    requires
        state_order(st, t),
        forall|i: int| 0 <= i < g.len() ==> (#[trigger] g[i]).at_utc == t,
    ensures
        state_order(close_group_spec(g, st), t),
{
    assert(state_order((st.0, st.1, Seq::<OrphanedEnd>::empty()), t));
    lemma_close_ends_order(g, st.0, st.1, t);
    let (s1, c1, u) = close_ends(g, st.0, st.1);
    lemma_push_starts_order(g, s1, t);
    let mid = (push_starts(g, s1), c1, st.2);
    assert(state_order(mid, t));
    lemma_close_unclosed_order(u, mid, t);
}

proof fn lemma_pair_groups_order(s: Seq<Punch>)
    requires
        at_sorted(s),
    ensures
        s.len() > 0 ==> state_order(pair_groups(s), s.last().at_utc as int),
        s.len() == 0 ==> pair_groups(s) == (Seq::<Punch>::empty(), Seq::<Stint>::empty(), Seq::<
            OrphanedEnd,
        >::empty()),
    decreases s.len(),
{
    if s.len() > 0 {
        let t = s.last().at_utc;
        let r = last_group_start(s);
        lemma_run_from_bounds(s, t, s.len() as int);
        lemma_run_from_all(s, t, s.len() as int);
        let a = s.take(r);
        let g = s.skip(r);
        assert(at_sorted(a)) by {
            assert forall|i: int, j: int| 0 <= i < j < a.len() implies a[i].at_utc <= a[j].at_utc by {
                assert(a[i] == s[i] && a[j] == s[j]);
            };
        };
        lemma_pair_groups_order(a);
        assert forall|i: int| 0 <= i < g.len() implies (#[trigger] g[i]).at_utc == t by {
            assert(g[i] == s[r + i]);
        };
        if a.len() > 0 {
            assert(a.last() == s[r - 1]);
            assert(s[r - 1].at_utc <= s[s.len() - 1].at_utc);
            lemma_state_order_later(pair_groups(a), a.last().at_utc as int, t as int);
        }
        lemma_group_order(g, pair_groups(a), t as int);
    }
}

/// Pairing follows time: every completed stint ends no earlier than it
/// starts (so its minutes are never negative), and the open stints and
/// the orphaned ends each come in instant order.
pub proof fn law_pairing_follows_time(punches: Seq<Punch>, now: i64)
    ensures
        ({
            let (completed, open, orphans) = classified(punches, now);
            &&& forall|i: int|
                0 <= i < completed.len() ==> (#[trigger] completed[i]).start.at_utc
                    <= completed[i].end.at_utc && completed[i].minutes >= 0
            &&& forall|i: int, j: int|
                0 <= i < j < open.len() ==> open[i].start.at_utc <= open[j].start.at_utc
            &&& forall|i: int, j: int|
                0 <= i < j < orphans.len() ==> orphans[i].punch.at_utc <= orphans[j].punch.at_utc
        }),
{
    let sorted = sorted_punches(punches);
    lemma_sorted_at(punches);
    lemma_pair_groups_order(sorted);
    let st = pair_groups(sorted);
    let open = open_stints(st.0, now);
    assert forall|i: int, j: int| 0 <= i < j < open.len() implies open[i].start.at_utc <= open[j].start.at_utc by {
        assert(open[i].start == st.0[i] && open[j].start == st.0[j]);
    };
    assert forall|i: int| 0 <= i < st.1.len() implies (#[trigger] st.1[i]).minutes >= 0 by {
        let x = st.1[i];
        assert(x.start.at_utc <= x.end.at_utc);
        let d: int = x.end.at_utc - x.start.at_utc;
        assert(0 <= d / 60 <= i64::MAX) by (nonlinear_arith)
            requires
                0 <= d <= 18446744073709551615,
        ;
        assert(x == pair(x.start, x.end));
    };
}

/// No two punches share an id.
pub open spec fn distinct_ids(s: Seq<Punch>) -> bool {
    forall|i: int, j: int| 0 <= i < j < s.len() ==> s[i].id != s[j].id
}

/// Strictly increasing by (instant, kind, id).
pub open spec fn strictly_sorted(s: Seq<Punch>) -> bool {
    forall|i: int, j: int| 0 <= i < j < s.len() ==> key_lt(s[i], s[j])
}

proof fn lemma_insert_pos_split(s: Seq<Punch>, p: Punch)
    requires
        strictly_sorted(s),
        forall|i: int| 0 <= i < s.len() ==> s[i].id != p.id,
    ensures
        0 <= insert_pos(s, p) <= s.len(),
        forall|i: int| 0 <= i < insert_pos(s, p) ==> key_lt(s[i], p),
        forall|i: int| insert_pos(s, p) <= i < s.len() ==> key_lt(p, s[i]),
    decreases s.len(),
{
    if s.len() > 0 {
        let d = s.drop_last();
        lemma_insert_pos_split(d, p);
        let k = insert_pos(s, p);
        if key_lt(p, s.last()) {
            assert forall|i: int| 0 <= i < k implies key_lt(s[i], p) by {
                assert(s[i] == d[i]);
            };
            assert forall|i: int| k <= i < s.len() implies key_lt(p, s[i]) by {
                if i < s.len() - 1 {
                    assert(s[i] == d[i]);
                }
            };
        } else {
            assert forall|i: int| 0 <= i < k implies key_lt(s[i], p) by {
                if i < s.len() - 1 {
                    assert(key_lt(s[i], s[s.len() - 1]));
                }
            };
        }
    }
}

proof fn lemma_sorted_strict(s: Seq<Punch>)
    requires
        distinct_ids(s),
    ensures
        strictly_sorted(sorted_punches(s)),
        sorted_punches(s).len() == s.len(),
        forall|x: Punch| sorted_punches(s).contains(x) <==> s.contains(x),
    decreases s.len(),
{
    if s.len() > 0 {
        let d = s.drop_last();
        let p = s.last();
        assert(distinct_ids(d));
        lemma_sorted_strict(d);
        let rest = sorted_punches(d);
        assert forall|i: int| 0 <= i < rest.len() implies rest[i].id != p.id by {
            assert(rest.contains(rest[i]));
            assert(d.contains(rest[i]));
            let j = choose|j: int| 0 <= j < d.len() && d[j] == rest[i];
            assert(s[j] == d[j]);
        };
        lemma_insert_pos_split(rest, p);
        let k = insert_pos(rest, p);
        let r = rest.insert(k, p);
        assert forall|i: int, j: int| 0 <= i < j < r.len() implies key_lt(r[i], r[j]) by {
            if j < k {
                assert(r[i] == rest[i] && r[j] == rest[j]);
            } else if j == k {
                assert(r[i] == rest[i]);
            } else if i < k {
                assert(r[i] == rest[i] && r[j] == rest[j - 1]);
            } else if i == k {
                assert(r[j] == rest[j - 1]);
            } else {
                assert(r[i] == rest[i - 1] && r[j] == rest[j - 1]);
            }
        };
        assert forall|x: Punch| r.contains(x) <==> s.contains(x) by {
            if r.contains(x) {
                let i = choose|i: int| 0 <= i < r.len() && r[i] == x;
                if i == k {
                    assert(s[s.len() - 1] == x);
                } else {
                    if i < k {
                        assert(r[i] == rest[i]);
                        assert(rest.contains(x));
                    } else {
                        assert(r[i] == rest[i - 1]);
                        assert(rest.contains(x));
                    }
                    assert(d.contains(x));
                    let m = choose|m: int| 0 <= m < d.len() && d[m] == x;
                    assert(s[m] == x);
                    assert(s.contains(x));
                }
            }
            if s.contains(x) {
                let i = choose|i: int| 0 <= i < s.len() && s[i] == x;
                if i == s.len() - 1 {
                    assert(r[k] == x);
                    assert(r.contains(x));
                } else {
                    assert(d[i] == x);
                    assert(d.contains(x));
                    let j = choose|j: int| 0 <= j < rest.len() && rest[j] == x;
                    if j < k {
                        assert(r[j] == x);
                    } else {
                        assert(r[j + 1] == x);
                    }
                    assert(r.contains(x));
                }
            }
        };
    }
}

proof fn lemma_sorted_unique(a: Seq<Punch>, b: Seq<Punch>)
    requires
        strictly_sorted(a),
        strictly_sorted(b),
        forall|x: Punch| a.contains(x) <==> b.contains(x),
    ensures
        a == b,
    decreases a.len(),
{
    if a.len() == 0 {
        if b.len() > 0 {
            assert(b.contains(b[0]));
        }
        assert(a =~= b);
    } else {
        if b.len() == 0 {
            assert(a.contains(a[0]));
        }
        let la = a.last();
        let lb = b.last();
        assert(a.contains(la));
        assert(b.contains(lb));
        let j = choose|j: int| 0 <= j < b.len() && b[j] == la;
        let k = choose|k: int| 0 <= k < a.len() && a[k] == lb;
        if j < b.len() - 1 {
            assert(key_lt(b[j], lb));
            if k < a.len() - 1 {
                assert(key_lt(a[k], la));
            }
        }
        assert(la == lb);
        let da = a.drop_last();
        let db = b.drop_last();
        assert forall|x: Punch| da.contains(x) <==> db.contains(x) by {
            if da.contains(x) {
                let i = choose|i: int| 0 <= i < da.len() && da[i] == x;
                assert(a[i] == x);
                assert(key_lt(a[i], la));
                assert(a.contains(x));
                let m = choose|m: int| 0 <= m < b.len() && b[m] == x;
                assert(m != b.len() - 1);
                assert(db[m] == x);
            }
            if db.contains(x) {
                let i = choose|i: int| 0 <= i < db.len() && db[i] == x;
                assert(b[i] == x);
                assert(key_lt(b[i], lb));
                assert(b.contains(x));
                let m = choose|m: int| 0 <= m < a.len() && a[m] == x;
                assert(m != a.len() - 1);
                assert(da[m] == x);
            }
        };
        lemma_sorted_unique(da, db);
        assert(a =~= da.push(la));
        assert(b =~= db.push(lb));
    }
}

/// A date's pairing depends on which punches it holds, never on the order
/// they are given in: two orders of the same punches (ids being distinct,
/// as row ids are) classify alike.
pub proof fn law_entry_order_is_irrelevant(a: Seq<Punch>, b: Seq<Punch>, now: i64)
    requires
        distinct_ids(a),
        distinct_ids(b),
        forall|x: Punch| a.contains(x) <==> b.contains(x),
    ensures
        classified(a, now) == classified(b, now),
{
    lemma_sorted_strict(a);
    lemma_sorted_strict(b);
    assert forall|x: Punch| sorted_punches(a).contains(x) <==> sorted_punches(b).contains(x) by {
        assert(a.contains(x) <==> b.contains(x));
    };
    lemma_sorted_unique(sorted_punches(a), sorted_punches(b));
}

} // verus!
