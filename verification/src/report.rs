//! The grouped presentation view of the summary table.
//!
//! `read_averages` folds the table's rows, in row order, into a nested
//! site → weekday → hour structure for presentation: one group per site
//! name in first-seen order, one day group per weekday in first-seen
//! order, and the hour cells in row order.

use vstd::prelude::*;
use crate::aggregate::{AverageTable, HourlyAverage};

verus! {

/// One hour's summary inside a day group.
#[derive(Debug, PartialEq)]
pub struct HourCell {
    pub hour: u8,
    pub average_hundredths: u64,
    pub sample_count: u64,
}

impl View for HourCell {
    type V = (u8, u64, u64);

    open spec fn view(&self) -> Self::V {
        (self.hour, self.average_hundredths, self.sample_count)
    }
}

/// One weekday's hour cells inside a site group.
#[derive(Debug, PartialEq)]
pub struct DayGroup {
    /// 0 = Sunday … 6 = Saturday.
    pub day_of_week: u8,
    pub hours: Vec<HourCell>,
}

impl View for DayGroup {
    type V = (u8, Seq<(u8, u64, u64)>);

    open spec fn view(&self) -> Self::V {
        (self.day_of_week, self.hours@.map_values(|h: HourCell| h@))
    }
}

/// One site's day groups, keyed by the site's display name.
#[derive(Debug, PartialEq)]
pub struct SiteGroup {
    pub site_name: String,
    pub days: Vec<DayGroup>,
}

impl View for SiteGroup {
    type V = (Seq<char>, Seq<(u8, Seq<(u8, u64, u64)>)>);

    open spec fn view(&self) -> Self::V {
        (self.site_name@, self.days@.map_values(|d: DayGroup| d@))
    }
}

/// The hour cell a summary row contributes.
pub open spec fn cell_of(row: HourlyAverage) -> (u8, u64, u64) {
    (row.hour, row.average_hundredths, row.sample_count)
}

/// First index of the weekday in the day list, or its length.
pub open spec fn day_index(days: Seq<(u8, Seq<(u8, u64, u64)>)>, dow: u8) -> int
    decreases days.len(),
{
    if days.len() == 0 {
        0
    } else if days[0].0 == dow {
        0
    } else {
        1 + day_index(days.drop_first(), dow)
    }
}

/// First index of the site name in the group list, or its length.
pub open spec fn group_index(
    groups: Seq<(Seq<char>, Seq<(u8, Seq<(u8, u64, u64)>)>)>,
    name: Seq<char>,
) -> int
    decreases groups.len(),
{
    if groups.len() == 0 {
        0
    } else if groups[0].0 == name {
        0
    } else {
        1 + group_index(groups.drop_first(), name)
    }
}

/// Adds one row's cell to its weekday's group, appending a new day group
/// when the weekday is new.
pub open spec fn insert_day(days: Seq<(u8, Seq<(u8, u64, u64)>)>, row: HourlyAverage) -> Seq<
    (u8, Seq<(u8, u64, u64)>),
> {
    let di = day_index(days, row.day_of_week);
    if di < days.len() {
        days.update(di, (days[di].0, days[di].1.push(cell_of(row))))
    } else {
        days.push((row.day_of_week, seq![cell_of(row)]))
    }
}

/// Adds one row to its site's group, appending a new site group when the
/// site name is new.
pub open spec fn insert_group(
    groups: Seq<(Seq<char>, Seq<(u8, Seq<(u8, u64, u64)>)>)>,
    row: HourlyAverage,
) -> Seq<(Seq<char>, Seq<(u8, Seq<(u8, u64, u64)>)>)> {
    let gi = group_index(groups, row.site_name@);
    if gi < groups.len() {
        groups.update(gi, (groups[gi].0, insert_day(groups[gi].1, row)))
    } else {
        groups.push((row.site_name@, insert_day(Seq::empty(), row)))
    }
}

/// Whether a row passes the optional site-URL scope.
pub open spec fn row_in_scope(row: HourlyAverage, site: Option<Seq<char>>) -> bool {
    match site {
        Some(u) => row.site_url@ == u,
        None => true,
    }
}

/// The grouped view of the rows in scope, folded in row order.
pub open spec fn grouped_of(rows: Seq<HourlyAverage>, site: Option<Seq<char>>) -> Seq<
    (Seq<char>, Seq<(u8, Seq<(u8, u64, u64)>)>),
>
    decreases rows.len(),
{
    if rows.len() == 0 {
        Seq::empty()
    } else {
        let prefix = grouped_of(rows.drop_last(), site);
        if row_in_scope(rows.last(), site) {
            insert_group(prefix, rows.last())
        } else {
            prefix
        }
    }
}

pub proof fn lemma_day_index_unique(days: Seq<(u8, Seq<(u8, u64, u64)>)>, dow: u8, i: int)
    requires
        0 <= i <= days.len(),
        forall|k: int| 0 <= k < i ==> (#[trigger] days[k]).0 != dow,
        i < days.len() ==> days[i].0 == dow,
    ensures
        day_index(days, dow) == i,
    decreases days.len(),
{
    if days.len() == 0 {
    } else if days[0].0 == dow {
        assert(i == 0);
    } else {
        let rest = days.drop_first();
        assert forall|k: int| 0 <= k < i - 1 implies (#[trigger] rest[k]).0 != dow by {
            assert(rest[k] == days[k + 1]);
        }
        if i - 1 < rest.len() {
            assert(rest[i - 1] == days[i]);
        }
        lemma_day_index_unique(rest, dow, i - 1);
    }
}

pub proof fn lemma_group_index_unique(
    groups: Seq<(Seq<char>, Seq<(u8, Seq<(u8, u64, u64)>)>)>,
    name: Seq<char>,
    i: int,
)
    requires
        0 <= i <= groups.len(),
        forall|k: int| 0 <= k < i ==> (#[trigger] groups[k]).0 != name,
        i < groups.len() ==> groups[i].0 == name,
    ensures
        group_index(groups, name) == i,
    decreases groups.len(),
{
    if groups.len() == 0 {
    } else if groups[0].0 == name {
        assert(i == 0);
    } else {
        let rest = groups.drop_first();
        assert forall|k: int| 0 <= k < i - 1 implies (#[trigger] rest[k]).0 != name by {
            assert(rest[k] == groups[k + 1]);
        }
        if i - 1 < rest.len() {
            assert(rest[i - 1] == groups[i]);
        }
        lemma_group_index_unique(rest, name, i - 1);
    }
}

impl AverageTable {
    /// The grouped mapping for presentation: site name to weekday to hour
    /// summaries, built by one pass over the table, optionally scoped to
    /// one site URL.
    pub fn read_averages(&self, site_url: Option<&String>) -> (r: Vec<SiteGroup>)
        ensures
            r@.map_values(|g: SiteGroup| g@) == grouped_of(self@, crate::store::opt_site_view(site_url)),
    {
        let ghost sv = crate::store::opt_site_view(site_url);
        let mut groups: Vec<SiteGroup> = Vec::new();
        let mut i: usize = 0;
        while i < self.len()
            invariant
                i <= self@.len(),
                sv == crate::store::opt_site_view(site_url),
                groups@.map_values(|g: SiteGroup| g@) == grouped_of(self@.take(i as int), sv),
            decreases self@.len() - i,
        {
            proof {
                assert(self@.take(i + 1).drop_last() =~= self@.take(i as int));
                assert(self@.take(i + 1).last() == self@[i as int]);
            }
            let row = self.get(i);
            let in_scope = match site_url {
                Some(u) => *u == row.site_url,
                None => true,
            };
            if in_scope {
                let ghost before = groups@.map_values(|g: SiteGroup| g@);
                // Find the row's site group.
                let mut gi: usize = 0;
                let mut gfound = false;
                while gi < groups.len() && !gfound
                    invariant
                        gi <= groups@.len(),
                        before == groups@.map_values(|g: SiteGroup| g@),
                        before.len() == groups@.len(),
                        !gfound ==> forall|k: int|
                            0 <= k < gi ==> (#[trigger] before[k]).0 != row.site_name@,
                        gfound ==> gi < groups@.len() && before[gi as int].0 == row.site_name@
                            && forall|k: int|
                            0 <= k < gi ==> (#[trigger] before[k]).0 != row.site_name@,
                        *row == self@[i as int],
                        i < self@.len(),
                    decreases groups@.len() - gi + (if gfound { 0int } else { 1int }),
                {
                    proof {
                        assert(before[gi as int] == groups@[gi as int]@);
                    }
                    if groups[gi].site_name == row.site_name {
                        gfound = true;
                    } else {
                        gi = gi + 1;
                    }
                }
                proof {
                    if gfound {
                        lemma_group_index_unique(before, self@[i as int].site_name@, gi as int);
                    } else {
                        lemma_group_index_unique(
                            before,
                            self@[i as int].site_name@,
                            before.len() as int,
                        );
                    }
                }
                if !gfound {
                    groups.push(SiteGroup { site_name: row.site_name.clone(), days: Vec::new() });
                }
                let mut g: SiteGroup = groups.remove(gi);
                let ghost days_before = g.days@.map_values(|d: DayGroup| d@);
                // Find the row's weekday group inside the site group.
                let mut di: usize = 0;
                let mut dfound = false;
                while di < g.days.len() && !dfound
                    invariant
                        di <= g.days@.len(),
                        days_before == g.days@.map_values(|d: DayGroup| d@),
                        days_before.len() == g.days@.len(),
                        !dfound ==> forall|k: int|
                            0 <= k < di ==> (#[trigger] days_before[k]).0
                                != self@[i as int].day_of_week,
                        dfound ==> di < g.days@.len() && days_before[di as int].0
                            == self@[i as int].day_of_week && forall|k: int|
                            0 <= k < di ==> (#[trigger] days_before[k]).0
                                != self@[i as int].day_of_week,
                        *row == self@[i as int],
                        i < self@.len(),
                    decreases g.days@.len() - di + (if dfound { 0int } else { 1int }),
                {
                    proof {
                        assert(days_before[di as int] == g.days@[di as int]@);
                    }
                    if g.days[di].day_of_week == row.day_of_week {
                        dfound = true;
                    } else {
                        di = di + 1;
                    }
                }
                proof {
                    if dfound {
                        lemma_day_index_unique(days_before, self@[i as int].day_of_week, di as int);
                    } else {
                        lemma_day_index_unique(
                            days_before,
                            self@[i as int].day_of_week,
                            days_before.len() as int,
                        );
                    }
                }
                if !dfound {
                    g.days.push(DayGroup { day_of_week: row.day_of_week, hours: Vec::new() });
                }
                let mut d: DayGroup = g.days.remove(di);
                d.hours.push(
                    HourCell {
                        hour: row.hour,
                        average_hundredths: row.average_hundredths,
                        sample_count: row.sample_count,
                    },
                );
                g.days.insert(di, d);
                groups.insert(gi, g);
                proof {
                    assert(groups@.map_values(|g2: SiteGroup| g2@) =~~= insert_group(
                        before,
                        self@[i as int],
                    ));
                }
            }
            i = i + 1;
        }
        proof {
            assert(self@.take(self@.len() as int) =~= self@);
        }
        groups
    }
}

/// The display name of a weekday index.
pub fn weekday_name(d: u8) -> (r: &'static str)
    requires
        d < 7,
    ensures
        d == 0 ==> r@ == "Sunday"@,
        d == 1 ==> r@ == "Monday"@,
        d == 2 ==> r@ == "Tuesday"@,
        d == 3 ==> r@ == "Wednesday"@,
        d == 4 ==> r@ == "Thursday"@,
        d == 5 ==> r@ == "Friday"@,
        d == 6 ==> r@ == "Saturday"@,
{
    if d == 0 {
        "Sunday"
    } else if d == 1 {
        "Monday"
    } else if d == 2 {
        "Tuesday"
    } else if d == 3 {
        "Wednesday"
    } else if d == 4 {
        "Thursday"
    } else if d == 5 {
        "Friday"
    } else {
        "Saturday"
    }
}

} // verus!
