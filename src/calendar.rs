use vstd::prelude::*;

verus! {

/// One calendar day of activity.
#[allow(non_snake_case)]
#[derive(Clone, Debug, PartialEq, Default)]
pub struct GhDay {
    /// Number of activity events recorded on this day.
    pub contributionCount: i32,
    /// Day of the week, 0 for Sunday through 6 for Saturday.
    pub weekday: usize,
    /// The date in ISO form (`YYYY-MM-DD`).
    pub date: String,
}

/// The days of one week, in the order the source delivered them. A week at
/// the edge of a window may hold fewer than seven days.
#[allow(non_snake_case)]
#[derive(Clone, Debug, PartialEq, Default)]
pub struct GhWeek {
    pub contributionDays: Vec<GhDay>,
}

/// The activity of one window: its total and its weeks, oldest first.
#[allow(non_snake_case)]
#[derive(Clone, Debug, PartialEq, Default)]
pub struct ContributionCalendar {
    pub totalContributions: usize,
    pub weeks: Vec<GhWeek>,
}

/// The record the activity source returns for one window.
#[allow(non_snake_case)]
#[derive(Clone, Debug, PartialEq, Default)]
pub struct ContributionsCollection {
    pub contributionCalendar: ContributionCalendar,
}

/// The counts of the days of `w`, in stored order.
pub open spec fn week_counts(w: GhWeek) -> Seq<int> {
    w.contributionDays@.map_values(|d: GhDay| d.contributionCount as int)
}

/// The counts of all days of `ws`, week after week, in stored order.
pub open spec fn weeks_counts(ws: Seq<GhWeek>) -> Seq<int>
    decreases ws.len(),
{
    if ws.len() == 0 {
        Seq::empty()
    } else {
        weeks_counts(ws.drop_last()) + week_counts(ws.last())
    }
}

/// The sum of the integers of `s`.
pub open spec fn sum(s: Seq<int>) -> int
    decreases s.len(),
{
    if s.len() == 0 {
        0
    } else {
        sum(s.drop_last()) + s.last()
    }
}

pub open spec fn all_non_negative(s: Seq<int>) -> bool {
    forall|i: int| 0 <= i < s.len() ==> s[i] >= 0
}

impl ContributionCalendar {
    /// The counts of every day of this calendar, in traversal order.
    pub open spec fn day_counts(&self) -> Seq<int> {
        weeks_counts(self.weeks@)
    }

    /// The calendar is consistent when no count is negative and the total
    /// is the sum of the counts of all its days.
    pub open spec fn consistent(&self) -> bool {
        all_non_negative(self.day_counts()) && self.totalContributions as int == sum(
            self.day_counts(),
        )
    }
}

pub proof fn lemma_weeks_counts_concat(a: Seq<GhWeek>, b: Seq<GhWeek>)
    ensures
        weeks_counts(a + b) == weeks_counts(a) + weeks_counts(b),
    decreases b.len(),
{
    if b.len() == 0 {
        assert(a + b =~= a);
        assert(weeks_counts(b) =~= Seq::<int>::empty());
        assert(weeks_counts(a) + weeks_counts(b) =~= weeks_counts(a));
    } else {
        assert((a + b).drop_last() =~= a + b.drop_last());
        lemma_weeks_counts_concat(a, b.drop_last());
        assert(weeks_counts(a + b) =~= weeks_counts(a) + weeks_counts(b));
    }
}

pub proof fn lemma_weeks_counts_take(ws: Seq<GhWeek>, j: int)
    requires
        0 <= j < ws.len(),
    ensures
        weeks_counts(ws.take(j + 1)) == weeks_counts(ws.take(j)) + week_counts(ws[j]),
{
    assert(ws.take(j + 1).drop_last() =~= ws.take(j));
}

pub proof fn lemma_sum_concat(a: Seq<int>, b: Seq<int>)
    ensures
        sum(a + b) == sum(a) + sum(b),
    decreases b.len(),
{
    if b.len() == 0 {
        assert(a + b =~= a);
    } else {
        assert((a + b).drop_last() =~= a + b.drop_last());
        lemma_sum_concat(a, b.drop_last());
    }
}

pub proof fn lemma_sum_non_negative(s: Seq<int>)
    requires
        all_non_negative(s),
    ensures
        sum(s) >= 0,
    decreases s.len(),
{
    if s.len() > 0 {
        lemma_sum_non_negative(s.drop_last());
    }
}

impl ContributionCalendar {
    /// Whether the recorded total equals the sum of the day counts, with no
    /// count negative.
    pub fn is_consistent(&self) -> (r: bool)
        ensures
            r == self.consistent(),
    {
        let ghost ws = self.weeks@;
        let ghost all = self.day_counts();
        let total = self.totalContributions;
        let mut running: usize = 0;
        let mut j: usize = 0;
        while j < self.weeks.len()
            invariant
                ws == self.weeks@,
                all == weeks_counts(ws),
                total == self.totalContributions,
                0 <= j <= ws.len(),
                all_non_negative(weeks_counts(ws.take(j as int))),
                running as int == sum(weeks_counts(ws.take(j as int))),
                running <= total,
            decreases ws.len() - j,
        {
            let days = &self.weeks[j].contributionDays;
            let ghost before = weeks_counts(ws.take(j as int));
            let ghost wc = week_counts(ws[j as int]);
            let mut k: usize = 0;
            while k < days.len()
                invariant
                    ws == self.weeks@,
                    all == weeks_counts(ws),
                    total == self.totalContributions,
                    0 <= j < ws.len(),
                    days@ == ws[j as int].contributionDays@,
                    wc == week_counts(ws[j as int]),
                    before == weeks_counts(ws.take(j as int)),
                    0 <= k <= days.len(),
                    all_non_negative(before + wc.take(k as int)),
                    running as int == sum(before + wc.take(k as int)),
                    running <= total,
                decreases days.len() - k,
            {
                let c = days[k].contributionCount;
                proof {
                    assert((before + wc.take(k as int + 1)).drop_last() =~= before + wc.take(
                        k as int,
                    ));
                    assert(wc[k as int] == c as int);
                }
                if c < 0 {
                    proof {
                        self.lemma_prefix_of_day_counts(j as int, k as int + 1);
                        let p = before + wc.take(k as int + 1);
                        assert(all[p.len() - 1] == p[p.len() - 1]);
                    }
                    return false;
                }
                if c as usize > total - running {
                    proof {
                        self.lemma_prefix_of_day_counts(j as int, k as int + 1);
                        let p = before + wc.take(k as int + 1);
                        let rest = all.skip(p.len() as int);
                        assert(all =~= p + rest);
                        lemma_sum_concat(p, rest);
                        if all_non_negative(all) {
                            assert(all_non_negative(rest)) by {
                                assert forall|i: int| 0 <= i < rest.len() implies rest[i] >= 0 by {
                                    assert(rest[i] == all[i + p.len()]);
                                }
                            }
                            lemma_sum_non_negative(rest);
                        }
                    }
                    return false;
                }
                proof {
                    let shorter = before + wc.take(k as int);
                    let longer = before + wc.take(k as int + 1);
                    assert forall|i: int| 0 <= i < longer.len() implies longer[i] >= 0 by {
                        if i < shorter.len() {
                            assert(longer[i] == longer.drop_last()[i]);
                        }
                    }
                }
                running = running + c as usize;
                k = k + 1;
            }
            proof {
                assert(wc.take(days.len() as int) =~= wc);
                lemma_weeks_counts_take(ws, j as int);
            }
            j = j + 1;
        }
        proof {
            assert(ws.take(ws.len() as int) =~= ws);
        }
        running == total
    }

    /// The calendar of `weeks`, with its total computed from their days.
    /// Fails when a count is negative or the total does not fit a `usize`.
    pub fn from_weeks(weeks: Vec<GhWeek>) -> (r: Option<ContributionCalendar>)
        ensures
            r.is_some() <==> all_non_negative(weeks_counts(weeks@)) && sum(weeks_counts(weeks@))
                <= usize::MAX,
            r matches Some(c) ==> c.weeks@ == weeks@ && c.consistent(),
    {
        let ghost ws = weeks@;
        let ghost all = weeks_counts(ws);
        let mut running: usize = 0;
        let mut j: usize = 0;
        while j < weeks.len()
            invariant
                ws == weeks@,
                all == weeks_counts(ws),
                0 <= j <= ws.len(),
                all_non_negative(weeks_counts(ws.take(j as int))),
                running as int == sum(weeks_counts(ws.take(j as int))),
            decreases ws.len() - j,
        {
            let days = &weeks[j].contributionDays;
            let ghost before = weeks_counts(ws.take(j as int));
            let ghost wc = week_counts(ws[j as int]);
            let mut k: usize = 0;
            while k < days.len()
                invariant
                    ws == weeks@,
                    all == weeks_counts(ws),
                    0 <= j < ws.len(),
                    days@ == ws[j as int].contributionDays@,
                    wc == week_counts(ws[j as int]),
                    before == weeks_counts(ws.take(j as int)),
                    0 <= k <= days.len(),
                    all_non_negative(before + wc.take(k as int)),
                    running as int == sum(before + wc.take(k as int)),
                decreases days.len() - k,
            {
                let c = days[k].contributionCount;
                let ghost cal = ContributionCalendar { totalContributions: 0, weeks };
                proof {
                    assert((before + wc.take(k as int + 1)).drop_last() =~= before + wc.take(
                        k as int,
                    ));
                    assert(wc[k as int] == c as int);
                    cal.lemma_prefix_of_day_counts(j as int, k as int + 1);
                }
                if c < 0 {
                    proof {
                        let p = before + wc.take(k as int + 1);
                        assert(all[p.len() - 1] == p[p.len() - 1]);
                    }
                    return None;
                }
                if c as usize > usize::MAX - running {
                    proof {
                        let p = before + wc.take(k as int + 1);
                        let rest = all.skip(p.len() as int);
                        assert(all =~= p + rest);
                        lemma_sum_concat(p, rest);
                        if all_non_negative(all) {
                            assert(all_non_negative(rest)) by {
                                assert forall|i: int| 0 <= i < rest.len() implies rest[i] >= 0 by {
                                    assert(rest[i] == all[i + p.len()]);
                                }
                            }
                            lemma_sum_non_negative(rest);
                        }
                    }
                    return None;
                }
                proof {
                    let shorter = before + wc.take(k as int);
                    let longer = before + wc.take(k as int + 1);
                    assert forall|i: int| 0 <= i < longer.len() implies longer[i] >= 0 by {
                        if i < shorter.len() {
                            assert(longer[i] == longer.drop_last()[i]);
                        }
                    }
                }
                running = running + c as usize;
                k = k + 1;
            }
            proof {
                assert(wc.take(days.len() as int) =~= wc);
                lemma_weeks_counts_take(ws, j as int);
            }
            j = j + 1;
        }
        proof {
            assert(ws.take(ws.len() as int) =~= ws);
        }
        Some(ContributionCalendar { totalContributions: running, weeks })
    }

    /// The counts of the weeks before `j` and the first `k` days of week `j`
    /// form a prefix of the calendar's counts.
    pub proof fn lemma_prefix_of_day_counts(&self, j: int, k: int)
        requires
            0 <= j < self.weeks@.len(),
            0 <= k <= week_counts(self.weeks@[j]).len(),
        ensures
            ({
                let p = weeks_counts(self.weeks@.take(j)) + week_counts(self.weeks@[j]).take(k);
                p.len() <= self.day_counts().len() && p =~= self.day_counts().take(p.len() as int)
            }),
    {
        let ws = self.weeks@;
        lemma_weeks_counts_take(ws, j);
        lemma_weeks_counts_concat(ws.take(j + 1), ws.skip(j + 1));
        assert(ws.take(j + 1) + ws.skip(j + 1) =~= ws);
    }
}

} // verus!
