//! The report aggregator: the recent-entries view (today's entries with a
//! running total, then up to ten older ones) and the per-day summary
//! (stopped entries grouped by description with summed durations).

use crate::dates::{date_minus_days, date_valid, days_earlier, Date};
use crate::render::{
    date_ymd_spec, duration_spec, format_date_ymd, format_duration, format_total_header,
    total_header_spec,
};
use crate::time_entry::{entry_display_wf, render_spec, TimeEntry};
use vstd::prelude::*;
use vstd::string::StringExecFns;

verus! {

/// The seconds an entry contributes to a total: the stored duration once
/// stopped; `now − start` while running. The negative running-duration
/// encoding is never trusted as a literal value.
pub open spec fn entry_term(e: TimeEntry, now: i64) -> int {
    if e.stop is Some {
        e.duration as int
    } else {
        now - e.start.epoch
    }
}

/// What aggregation needs of an entry: display well-formedness, and a
/// running entry started no later than the current instant.
pub open spec fn entry_wf(e: TimeEntry, now: i64) -> bool {
    &&& entry_display_wf(e)
    &&& (e.stop is None ==> e.start.epoch <= now)
}

pub open spec fn entries_wf(s: Seq<TimeEntry>, now: i64) -> bool {
    forall|i: int| 0 <= i < s.len() ==> entry_wf(s[i], now)
}

/// The current instant, within the calendar library's bounded range.
pub open spec fn now_ok(now: i64) -> bool {
    -20_000_000_000_000_000 <= now <= 20_000_000_000_000_000
}

/// A running entry's contribution is computed as `now − start`, and no
/// well-formed entry ever contributes a negative amount.
pub proof fn lemma_entry_term_nonnegative(e: TimeEntry, now: i64)
    requires
        entry_wf(e, now),
    ensures
        entry_term(e, now) >= 0,
        e.stop is None ==> entry_term(e, now) == now - e.start.epoch,
{
}

/// Sum of the contributions of the entries that started on `day`.
pub open spec fn total_for_day(s: Seq<TimeEntry>, day: Date, now: i64) -> int
    decreases s.len(),
{
    if s.len() == 0 {
        0
    } else {
        total_for_day(s.drop_last(), day, now) + (if s.last().start.date == day {
            entry_term(s.last(), now)
        } else {
            0
        })
    }
}

pub proof fn lemma_total_for_day_nonneg(s: Seq<TimeEntry>, day: Date, now: i64)
    requires
        entries_wf(s, now),
    ensures
        total_for_day(s, day, now) >= 0,
    decreases s.len(),
{
    if s.len() > 0 {
        assert(forall|i: int| 0 <= i < s.len() - 1 ==> s.drop_last()[i] == s[i]);
        lemma_total_for_day_nonneg(s.drop_last(), day, now);
        lemma_entry_term_nonnegative(s.last(), now);
    }
}

/// Sum of the contributions of all entries in the batch.
pub open spec fn total_all(s: Seq<TimeEntry>, now: i64) -> int
    decreases s.len(),
{
    if s.len() == 0 {
        0
    } else {
        total_all(s.drop_last(), now) + entry_term(s.last(), now)
    }
}

/// What an unsigned 64-bit accumulator holds of a mathematical sum.
pub open spec fn clamp_u64(n: int) -> int {
    if n > u64::MAX {
        u64::MAX as int
    } else if n < 0 {
        0
    } else {
        n
    }
}

/// The entries that started on the current local date, input order kept.
pub open spec fn today_entries(s: Seq<TimeEntry>, today: Date) -> Seq<TimeEntry> {
    s.filter(|e: TimeEntry| e.start.date == today)
}

/// The rest, capped at the first ten after partitioning; today's bucket is
/// never truncated.
pub open spec fn older_entries(s: Seq<TimeEntry>, today: Date) -> Seq<TimeEntry> {
    let o = s.filter(|e: TimeEntry| e.start.date != today);
    if o.len() > 10 {
        o.take(10)
    } else {
        o
    }
}

pub open spec fn lines_of(s: Seq<TimeEntry>, today: Date) -> Seq<Seq<char>> {
    s.map_values(|e: TimeEntry| render_spec(e, today))
}

/// Every line of the recent view, in order: a today header carrying the
/// running total when today's bucket is non-empty, today's entries, an
/// older header when that bucket is non-empty, then the older entries.
pub open spec fn recent_view_spec(s: Seq<TimeEntry>, today: Date, now: i64) -> Seq<Seq<char>> {
    let t = today_entries(s, today);
    let o = older_entries(s, today);
    (if t.len() > 0 {
        seq![" -- Today -- "@ + total_header_spec(clamp_u64(total_for_day(s, today, now)))]
    } else {
        Seq::<Seq<char>>::empty()
    }) + lines_of(t, today) + (if o.len() > 0 {
        seq![" -- Older -- "@]
    } else {
        Seq::<Seq<char>>::empty()
    }) + lines_of(o, today)
}

/// Builds the recent-entries view. The input is the remote batch in its
/// original order, newest first; `today` is the current local date and
/// `now` the current instant in epoch seconds.
pub fn recent_view(entries: &Vec<TimeEntry>, today: &Date, now: i64) -> (r: Vec<String>)
    requires
        entries_wf(entries@, now),
        now_ok(now),
        date_valid(*today),
        today.year > i32::MIN,
    ensures
        r.deep_view() == recent_view_spec(entries@, *today, now),
{
    let n = entries.len();
    let mut total: u64 = 0;
    let mut today_lines: Vec<String> = Vec::new();
    let mut i: usize = 0;
    while i < n
        invariant
            0 <= i <= n,
            n == entries@.len(),
            entries_wf(entries@, now),
            now_ok(now),
            date_valid(*today),
            today.year > i32::MIN,
            total as int == clamp_u64(total_for_day(entries@.take(i as int), *today, now)),
            today_lines.deep_view() == lines_of(today_entries(entries@.take(i as int), *today), *today),
        decreases n - i,
    {
        let e = &entries[i];
        proof {
            assert(entries@.take(i as int + 1).drop_last() =~= entries@.take(i as int));
            assert(entries@.take(i as int + 1).last() == entries@[i as int]);
            assert(entry_wf(entries@[i as int], now));
            lemma_entry_term_nonnegative(entries@[i as int], now);
            reveal(Seq::filter);
        }
        if e.start.date == *today {
            let term: u64 = if e.stop.is_some() {
                e.duration as u64
            } else {
                (now - e.start.epoch) as u64
            };
            proof {
                assert(term as int == entry_term(entries@[i as int], now));
                assert(forall|j: int|
                    0 <= j < i ==> entries@.take(i as int)[j] == entries@[j]);
                lemma_total_for_day_nonneg(entries@.take(i as int), *today, now);
            }
            total = total.saturating_add(term);
            let line = e.render(today);
            let ghost before = today_lines.deep_view();
            today_lines.push(line);
            proof {
                let prev = today_entries(entries@.take(i as int), *today);
                assert(today_entries(entries@.take(i as int + 1), *today) =~= prev.push(
                    entries@[i as int],
                ));
                assert(lines_of(prev.push(entries@[i as int]), *today) =~= lines_of(
                    prev,
                    *today,
                ).push(render_spec(entries@[i as int], *today)));
                assert(today_lines.deep_view() =~~= before.push(line@));
            }
        } else {
            proof {
                assert(today_entries(entries@.take(i as int + 1), *today) =~= today_entries(
                    entries@.take(i as int),
                    *today,
                ));
            }
        }
        i = i + 1;
    }
    proof {
        assert(entries@.take(n as int) =~= entries@);
    }
    let mut older_lines: Vec<String> = Vec::new();
    let mut seen: usize = 0;
    let mut k: usize = 0;
    while k < n
        invariant
            0 <= k <= n,
            n == entries@.len(),
            entries_wf(entries@, now),
            now_ok(now),
            date_valid(*today),
            today.year > i32::MIN,
            seen == entries@.take(k as int).filter(|e: TimeEntry| e.start.date != *today).len(),
            older_lines.deep_view() == lines_of(
                older_entries(entries@.take(k as int), *today),
                *today,
            ),
        decreases n - k,
    {
        let e = &entries[k];
        proof {
            assert(entries@.take(k as int + 1).drop_last() =~= entries@.take(k as int));
            assert(entries@.take(k as int + 1).last() == entries@[k as int]);
            assert(entry_wf(entries@[k as int], now));
            reveal(Seq::filter);
        }
        if !(e.start.date == *today) {
            let ghost prev_f = entries@.take(k as int).filter(
                |e: TimeEntry| e.start.date != *today,
            );
            proof {
                assert(entries@.take(k as int + 1).filter(|e: TimeEntry| e.start.date != *today)
                    =~= prev_f.push(entries@[k as int]));
                prev_f.lemma_filter_len(|e: TimeEntry| e.start.date != *today);
            }
            if seen < 10 {
                let line = e.render(today);
                let ghost before = older_lines.deep_view();
                older_lines.push(line);
                proof {
                    assert(older_entries(entries@.take(k as int), *today) =~= prev_f);
                    assert(older_entries(entries@.take(k as int + 1), *today) =~= prev_f.push(
                        entries@[k as int],
                    ));
                    assert(lines_of(prev_f.push(entries@[k as int]), *today) =~= lines_of(
                        prev_f,
                        *today,
                    ).push(render_spec(entries@[k as int], *today)));
                    assert(older_lines.deep_view() =~~= before.push(line@));
                }
            } else {
                proof {
                    let next_f = prev_f.push(entries@[k as int]);
                    assert(next_f.take(10) =~= prev_f.take(10));
                    assert(older_entries(entries@.take(k as int), *today) =~= prev_f.take(10));
                    assert(older_entries(entries@.take(k as int + 1), *today) =~= next_f.take(
                        10,
                    ));
                }
            }
            seen = seen + 1;
        } else {
            proof {
                assert(entries@.take(k as int + 1).filter(|e: TimeEntry| e.start.date != *today)
                    =~= entries@.take(k as int).filter(|e: TimeEntry| e.start.date != *today));
            }
        }
        k = k + 1;
    }
    proof {
        assert(entries@.take(n as int) =~= entries@);
    }
    let mut out: Vec<String> = Vec::new();
    let has_today = today_lines.len() > 0;
    if has_today {
        let mut header = " -- Today -- ".to_owned();
        let h = format_total_header(total);
        header.append(h.as_str());
        out.push(header);
    }
    out.append(&mut today_lines);
    if older_lines.len() > 0 {
        out.push(" -- Older -- ".to_owned());
    }
    out.append(&mut older_lines);
    proof {
        assert(out.deep_view() =~~= recent_view_spec(entries@, *today, now));
    }
    out
}

pub proof fn lemma_total_all_nonneg(s: Seq<TimeEntry>, now: i64)
    requires
        entries_wf(s, now),
    ensures
        total_all(s, now) >= 0,
    decreases s.len(),
{
    if s.len() > 0 {
        assert(forall|i: int| 0 <= i < s.len() - 1 ==> s.drop_last()[i] == s[i]);
        lemma_total_all_nonneg(s.drop_last(), now);
        lemma_entry_term_nonnegative(s.last(), now);
    }
}

/// The grouping key: the description alone, an absent one collapsing to
/// the empty string.
pub open spec fn group_key(e: TimeEntry) -> Seq<char> {
    match e.description.deep_view() {
        Some(d) => d,
        None => Seq::<char>::empty(),
    }
}

/// The project label a group carries: the first-seen entry's project name,
/// empty when it has none.
pub open spec fn group_proj(e: TimeEntry) -> Seq<char> {
    match e.project_name.deep_view() {
        Some(p) => p,
        None => Seq::<char>::empty(),
    }
}

/// The first group holding the key, or the group count when none does.
pub open spec fn find_group(gs: Seq<(Seq<char>, Seq<char>, int)>, key: Seq<char>) -> nat
    decreases gs.len(),
{
    if gs.len() == 0 {
        0
    } else if gs[0].0 == key {
        0
    } else {
        (1 + find_group(gs.skip(1), key)) as nat
    }
}

proof fn lemma_find_group_is(gs: Seq<(Seq<char>, Seq<char>, int)>, key: Seq<char>, i: int)
    requires
        0 <= i <= gs.len(),
        forall|j: int| 0 <= j < i ==> gs[j].0 != key,
        i < gs.len() ==> gs[i].0 == key,
    ensures
        find_group(gs, key) == i,
    decreases i,
{
    if i > 0 {
        assert(gs[0].0 != key);
        assert(forall|j: int| 0 <= j < i - 1 ==> gs.skip(1)[j] == gs[j + 1]);
        assert(i - 1 < gs.skip(1).len() ==> gs.skip(1)[i - 1] == gs[i]);
        lemma_find_group_is(gs.skip(1), key, i - 1);
    }
}

/// Stopped entries grouped by description in first-seen order: durations
/// are summed within a group, and the first-seen project name is retained
/// even when a later entry with the same description names another
/// project. Running entries are silently excluded: they have no final
/// duration yet.
pub open spec fn groups_spec(s: Seq<TimeEntry>) -> Seq<(Seq<char>, Seq<char>, int)>
    decreases s.len(),
{
    if s.len() == 0 {
        Seq::<(Seq<char>, Seq<char>, int)>::empty()
    } else {
        let gs = groups_spec(s.drop_last());
        let e = s.last();
        if e.stop is None {
            gs
        } else {
            let k = find_group(gs, group_key(e)) as int;
            if k < gs.len() {
                gs.update(k, (gs[k].0, gs[k].1, gs[k].2 + e.duration))
            } else {
                gs.push((group_key(e), group_proj(e), e.duration as int))
            }
        }
    }
}

proof fn lemma_groups_nonneg(s: Seq<TimeEntry>, now: i64)
    requires
        entries_wf(s, now),
    ensures
        forall|i: int| 0 <= i < groups_spec(s).len() ==> groups_spec(s)[i].2 >= 0,
    decreases s.len(),
{
    if s.len() > 0 {
        assert(forall|i: int| 0 <= i < s.len() - 1 ==> s.drop_last()[i] == s[i]);
        lemma_groups_nonneg(s.drop_last(), now);
        assert(entry_wf(s[s.len() - 1], now));
        let gs = groups_spec(s.drop_last());
        let e = s.last();
        if e.stop is Some {
            let k = find_group(gs, group_key(e)) as int;
            if 0 <= k < gs.len() {
                assert(groups_spec(s) == gs.update(k, (gs[k].0, gs[k].1, gs[k].2 + e.duration)));
                assert forall|i: int| 0 <= i < groups_spec(s).len() implies groups_spec(s)[i].2
                    >= 0 by {
                    if i != k {
                        assert(groups_spec(s)[i] == gs[i]);
                    }
                }
            } else {
                assert(groups_spec(s) == gs.push(
                    (group_key(e), group_proj(e), e.duration as int),
                ));
            }
        }
    }
}

/// One line per group: `<summed duration>\t[<project>]\t<description>`.
pub open spec fn summary_lines_spec(s: Seq<TimeEntry>) -> Seq<Seq<char>> {
    groups_spec(s).map_values(
        |g: (Seq<char>, Seq<char>, int)|
            duration_spec(clamp_u64(g.2)) + "\t["@ + g.1 + "]\t"@ + g.0,
    )
}

/// Every line of the day summary: when the batch is non-empty, a header
/// with the day's total — labelled `Today` when the target day is today,
/// else the literal date — then one line per description group. Group
/// order is the first-seen order of the descriptions.
pub open spec fn day_summary_spec(
    s: Seq<TimeEntry>,
    today: Date,
    days_before: Option<u8>,
    now: i64,
) -> Seq<Seq<char>> {
    let target = date_minus_days(
        today,
        (match days_before {
            Some(d) => d as nat,
            None => 0,
        }),
    );
    (if s.len() > 0 {
        seq![
            (if target == today {
                " -- Today -- "@
            } else {
                " -- "@ + date_ymd_spec(target) + " -- "@
            }) + total_header_spec(clamp_u64(total_all(s, now))),
        ]
    } else {
        Seq::<Seq<char>>::empty()
    }) + summary_lines_spec(s)
}

struct SummaryGroup {
    description: String,
    project: String,
    seconds: u64,
}

spec fn groups_match(gv: Seq<SummaryGroup>, gs: Seq<(Seq<char>, Seq<char>, int)>) -> bool {
    &&& gv.len() == gs.len()
    &&& forall|i: int|
        0 <= i < gv.len() ==> #[trigger] gv[i].description@ == gs[i].0 && gv[i].project@
            == gs[i].1 && gv[i].seconds as int == clamp_u64(gs[i].2)
}

/// Builds the day summary for the batch of one target day. `today` is the
/// current local date, `days_before` how many days back the target day
/// lies (absent meaning today), and `now` the current instant.
pub fn day_summary(
    entries: &Vec<TimeEntry>,
    today: &Date,
    days_before: Option<u8>,
    now: i64,
) -> (r: Vec<String>)
    requires
        entries_wf(entries@, now),
        now_ok(now),
        date_valid(*today),
        today.year > i32::MIN + 256,
    ensures
        r.deep_view() == day_summary_spec(entries@, *today, days_before, now),
{
    let n = entries.len();
    let mut total: u64 = 0;
    let mut i: usize = 0;
    while i < n
        invariant
            0 <= i <= n,
            n == entries@.len(),
            entries_wf(entries@, now),
            now_ok(now),
            total as int == clamp_u64(total_all(entries@.take(i as int), now)),
        decreases n - i,
    {
        let e = &entries[i];
        proof {
            assert(entries@.take(i as int + 1).drop_last() =~= entries@.take(i as int));
            assert(entries@.take(i as int + 1).last() == entries@[i as int]);
            assert(entry_wf(entries@[i as int], now));
            lemma_entry_term_nonnegative(entries@[i as int], now);
            assert(forall|j: int| 0 <= j < i ==> entries@.take(i as int)[j] == entries@[j]);
            lemma_total_all_nonneg(entries@.take(i as int), now);
        }
        let term: u64 = if e.stop.is_some() {
            e.duration as u64
        } else {
            (now - e.start.epoch) as u64
        };
        proof {
            assert(term as int == entry_term(entries@[i as int], now));
        }
        total = total.saturating_add(term);
        i = i + 1;
    }
    proof {
        assert(entries@.take(n as int) =~= entries@);
    }
    let mut groups: Vec<SummaryGroup> = Vec::new();
    let mut k: usize = 0;
    while k < n
        invariant
            0 <= k <= n,
            n == entries@.len(),
            entries_wf(entries@, now),
            now_ok(now),
            groups_match(groups@, groups_spec(entries@.take(k as int))),
        decreases n - k,
    {
        let e = &entries[k];
        let ghost gs = groups_spec(entries@.take(k as int));
        proof {
            assert(entries@.take(k as int + 1).drop_last() =~= entries@.take(k as int));
            assert(entries@.take(k as int + 1).last() == entries@[k as int]);
            assert(entry_wf(entries@[k as int], now));
            assert(forall|j: int| 0 <= j < k ==> entries@.take(k as int)[j] == entries@[j]);
            lemma_groups_nonneg(entries@.take(k as int), now);
        }
        if e.stop.is_some() {
            let key: String = match &e.description {
                Some(d) => d.clone(),
                None => String::new(),
            };
            proof {
                assert(key@ == group_key(entries@[k as int]));
            }
            let glen = groups.len();
            let mut j: usize = 0;
            while j < glen && !(groups[j].description == key)
                invariant
                    0 <= j <= glen,
                    glen == groups@.len(),
                    forall|t: int| 0 <= t < j ==> groups@[t].description@ != key@,
                decreases glen - j,
            {
                j = j + 1;
            }
            proof {
                assert forall|t: int| 0 <= t < j implies gs[t].0 != key@ by {
                    assert(groups@[t].description@ != key@);
                    assert(groups@[t].description@ == gs[t].0);
                }
                if j < glen {
                    assert(gs[j as int].0 == key@);
                }
                lemma_find_group_is(gs, key@, j as int);
            }
            if j < glen {
                let cur = groups[j].seconds;
                let newsec = cur.saturating_add(e.duration as u64);
                let ghost gv_before = groups@;
                let g = &mut groups[j];
                g.seconds = newsec;
                proof {
                    let dur = entries@[k as int].duration;
                    let gs2 = groups_spec(entries@.take(k as int + 1));
                    assert(gs2 == gs.update(
                        j as int,
                        (gs[j as int].0, gs[j as int].1, gs[j as int].2 + dur),
                    ));
                    assert(gs[j as int].2 >= 0);
                    assert(dur >= 0);
                    assert(newsec as int == clamp_u64(gs[j as int].2 + dur));
                    assert forall|idx: int|
                        0 <= idx < groups@.len() implies #[trigger] groups@[idx].description@
                        == gs2[idx].0 && groups@[idx].project@ == gs2[idx].1
                        && groups@[idx].seconds as int == clamp_u64(gs2[idx].2) by {
                        if idx != j {
                            assert(groups@[idx] == gv_before[idx]);
                            assert(gs2[idx] == gs[idx]);
                        }
                    }
                    assert(groups_match(groups@, gs2));
                }
            } else {
                let proj: String = match &e.project_name {
                    Some(p) => p.clone(),
                    None => String::new(),
                };
                proof {
                    assert(proj@ == group_proj(entries@[k as int]));
                }
                groups.push(SummaryGroup { description: key, project: proj, seconds: e.duration as u64 });
                proof {
                    let gs2 = groups_spec(entries@.take(k as int + 1));
                    assert(gs2 == gs.push(
                        (
                            group_key(entries@[k as int]),
                            group_proj(entries@[k as int]),
                            entries@[k as int].duration as int,
                        ),
                    ));
                    assert(groups_match(groups@, gs2));
                }
            }
        } else {
            proof {
                assert(groups_spec(entries@.take(k as int + 1)) == gs);
            }
        }
        k = k + 1;
    }
    proof {
        assert(entries@.take(n as int) =~= entries@);
    }
    let mut out: Vec<String> = Vec::new();
    if n > 0 {
        let target = days_earlier(
            today,
            match days_before {
                Some(d) => d,
                None => 0,
            },
        );
        let mut header = if target == *today {
            " -- Today -- ".to_owned()
        } else {
            let mut h = " -- ".to_owned();
            let ymd = format_date_ymd(&target);
            h.append(ymd.as_str());
            h.append(" -- ");
            h
        };
        let th = format_total_header(total);
        header.append(th.as_str());
        out.push(header);
        proof {
            assert(header@ =~= day_summary_spec(entries@, *today, days_before, now)[0]);
        }
    }
    let ghost base = out.deep_view();
    let glen = groups.len();
    let mut t: usize = 0;
    while t < glen
        invariant
            0 <= t <= glen,
            glen == groups@.len(),
            groups_match(groups@, groups_spec(entries@)),
            out.deep_view() == base + summary_lines_spec(entries@).take(t as int),
        decreases glen - t,
    {
        let mut line = format_duration(groups[t].seconds);
        line.append("\t[");
        line.append(groups[t].project.as_str());
        line.append("]\t");
        line.append(groups[t].description.as_str());
        let ghost before = out.deep_view();
        out.push(line);
        proof {
            let g = groups_spec(entries@)[t as int];
            assert(line@ =~= duration_spec(clamp_u64(g.2)) + "\t["@ + g.1 + "]\t"@ + g.0);
            assert(line@ == summary_lines_spec(entries@)[t as int]);
            assert(out.deep_view() =~~= before.push(line@));
            assert(out.deep_view() =~~= base + summary_lines_spec(entries@).take(t as int + 1));
        }
        t = t + 1;
    }
    proof {
        assert(summary_lines_spec(entries@).take(glen as int) =~= summary_lines_spec(entries@));
        assert(out.deep_view() =~~= day_summary_spec(entries@, *today, days_before, now));
    }
    out
}

} // verus!
