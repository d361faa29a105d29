//! The time-entry domain model: raw remote records, their validated,
//! timezone-resolved form, the project lookup used to enrich them, and the
//! exact one-line display form.

use crate::config::Config;
use crate::dates::{date_in_range, date_valid, Date};
use crate::errors::AppError;
use crate::render::{
    clock_spec, duration_spec, format_date, format_duration, format_time, rel_day_spec,
};
use chrono::{Datelike, Timelike};
use vstd::prelude::*;
use vstd::string::StringExecFns;

verus! {

/// A project as the remote service reports it.
#[derive(Debug)]
pub struct Project {
    pub id: u64,
    pub name: String,
}

/// The raw decoded form of one remote time-entry record, before domain
/// validation.
#[derive(Debug)]
pub struct TimeEntryDto {
    pub id: u64,
    pub workspace_id: u64,
    pub description: Option<String>,
    pub project_id: Option<u64>,
    pub start: String,
    pub stop: Option<String>,
    pub duration: i64,
}

/// The name of the first project in the table whose id matches, front to
/// back.
pub open spec fn project_name_spec(projects: Seq<Project>, pid: u64) -> Option<Seq<char>>
    decreases projects.len(),
{
    if projects.len() == 0 {
        None
    } else if projects[0].id == pid {
        Some(projects[0].name@)
    } else {
        project_name_spec(projects.skip(1), pid)
    }
}

pub open spec fn find_project_name_spec(
    project_id: Option<u64>,
    projects: Option<Seq<Project>>,
) -> Option<Seq<char>> {
    match project_id {
        None => None,
        Some(pid) => match projects {
            None => None,
            Some(ps) => project_name_spec(ps, pid),
        },
    }
}

proof fn lemma_project_name_skip(s: Seq<Project>, pid: u64, i: int)
    requires
        0 <= i <= s.len(),
        forall|j: int| 0 <= j < i ==> s[j].id != pid,
    ensures
        project_name_spec(s, pid) == project_name_spec(s.skip(i), pid),
    decreases i,
{
    if i == 0 {
        assert(s.skip(0) =~= s);
    } else {
        assert(s[0].id != pid);
        assert(forall|j: int| 0 <= j < i - 1 ==> s.skip(1)[j] == s[j + 1]);
        lemma_project_name_skip(s.skip(1), pid, i - 1);
        assert(s.skip(1).skip(i - 1) =~= s.skip(i));
    }
}

/// Resolves an optional project id against an optional lookup table; an
/// unmatched or absent id yields no name, never an error.
pub fn find_project_name(project_id: Option<u64>, projects: &Option<Vec<Project>>) -> (r: Option<
    String,
>)
    ensures
        r.deep_view() == find_project_name_spec(
            project_id,
            match *projects {
                Some(ps) => Some(ps@),
                None => None::<Seq<Project>>,
            },
        ),
{
    match (project_id, projects) {
        (Some(pid), Some(ps)) => {
            let n = ps.len();
            let mut i: usize = 0;
            while i < n
                invariant
                    n == ps@.len(),
                    0 <= i <= n,
                    project_id == Some(pid),
                    (match *projects {
                        Some(v) => Some(v@),
                        None => None::<Seq<Project>>,
                    }) == Some(ps@),
                    forall|j: int| 0 <= j < i ==> ps@[j].id != pid,
                decreases n - i,
            {
                if ps[i].id == pid {
                    proof {
                        lemma_project_name_skip(ps@, pid, i as int);
                        assert(ps@.skip(i as int)[0] == ps@[i as int]);
                        assert(project_name_spec(ps@.skip(i as int), pid) == Some(
                            ps@[i as int].name@,
                        ));
                    }
                    return Some(ps[i].name.clone());
                }
                i = i + 1;
            }
            proof {
                lemma_project_name_skip(ps@, pid, n as int);
            }
            None
        },
        _ => None,
    }
}

/// The display fallback for descriptions: the default when the text is
/// empty, the text itself otherwise.
pub fn default_if_empty<'a>(text: &'a String, default: &'a String) -> (r: &'a String)
    ensures
        r@ == (if text@.len() == 0 {
            default@
        } else {
            text@
        }),
{
    if text.as_str().is_empty() {
        default
    } else {
        text
    }
}

/// A timestamp decoded to plain values: the instant in epoch seconds, and
/// its calendar date and clock time in the user's local timezone.
#[derive(Debug)]
pub struct LocalStamp {
    pub epoch: i64,
    pub date: Date,
    pub hour: u8,
    pub minute: u8,
}

/// What decoding guarantees of a timestamp: fields in range, the instant
/// within the calendar library's bounded range.
pub open spec fn stamp_wf(t: LocalStamp) -> bool {
    &&& date_in_range(t.date)
    &&& -1_000_000 <= t.date.year <= 1_000_000
    &&& t.hour <= 23
    &&& t.minute <= 59
    &&& -20_000_000_000_000_000 <= t.epoch <= 20_000_000_000_000_000
}

/// Whether chrono accepts the string as a timestamp. Acceptance is decided
/// by the characters alone — the string carries its own offset — so it can
/// be named; only the calendar fields of the parsed result depend on the
/// machine's timezone.
pub uninterp spec fn timestamp_parses(s: Seq<char>) -> bool;

/// Relies on chrono: `str::parse::<DateTime<Local>>` parses an RFC 3339
/// timestamp and resolves it to the system's local timezone; it succeeds
/// exactly on the strings chrono accepts, a function of the string alone.
/// `timestamp` returns the instant in epoch seconds, and the `Datelike` /
/// `Timelike` accessors return calendar fields in range (month `1..=12`,
/// day `1..=31`, hour below 24, minute below 60) within chrono's bounded
/// date range of roughly ±262000 years. The calendar fields depend on the
/// machine's timezone, so nothing beyond well-formedness is promised of
/// them.
#[verifier::external_body]
fn parse_local_stamp(s: &str) -> (r: Option<LocalStamp>)
    ensures
        r is Some <==> timestamp_parses(s@),
        r matches Some(t) ==> stamp_wf(t),
{
    match s.parse::<chrono::DateTime<chrono::Local>>() {
        Ok(dt) => Some(
            LocalStamp {
                epoch: dt.timestamp(),
                date: Date { year: dt.year(), month: dt.month() as u8, day: dt.day() as u8 },
                hour: dt.hour() as u8,
                minute: dt.minute() as u8,
            },
        ),
        Err(_) => None,
    }
}

/// One validated, timezone-resolved tracked interval. An absent `stop`
/// means the entry is still running; while running, the remote `duration`
/// field is an encoding, never a literal elapsed value.
#[derive(Debug)]
pub struct TimeEntry {
    pub id: u64,
    pub workspace_id: u64,
    pub description: Option<String>,
    pub project_id: Option<u64>,
    pub project_name: Option<String>,
    pub start: LocalStamp,
    pub stop: Option<LocalStamp>,
    pub duration: i64,
}

/// What display needs of an entry: well-formed stamps, and a stopped
/// entry's duration is the actual, non-negative elapsed seconds.
pub open spec fn entry_display_wf(e: TimeEntry) -> bool {
    &&& stamp_wf(e.start)
    &&& (e.stop matches Some(t) ==> stamp_wf(t))
    &&& (e.stop is Some ==> e.duration >= 0)
}

fn clone_opt_string(s: &Option<String>) -> (r: Option<String>)
    ensures
        r == *s,
{
    match s {
        Some(v) => Some(v.clone()),
        None => None,
    }
}

impl TimeEntry {
    /// Decodes one remote record against the effective configuration's
    /// project table. It succeeds exactly when every timestamp the record
    /// carries parses; a malformed one is fatal — the whole report fails
    /// rather than silently dropping the record.
    pub fn from_dto(dto: &TimeEntryDto, config: &Config) -> (r: Result<TimeEntry, AppError>)
        ensures
            r is Ok <==> timestamp_parses(dto.start@) && (dto.stop matches Some(sv) ==>
                timestamp_parses(sv@)),
            r matches Ok(e) ==> {
                &&& e.id == dto.id
                &&& e.workspace_id == dto.workspace_id
                &&& e.description == dto.description
                &&& e.project_id == dto.project_id
                &&& e.project_name.deep_view() == find_project_name_spec(
                    dto.project_id,
                    match config.projects {
                        Some(ps) => Some(ps@),
                        None => None::<Seq<Project>>,
                    },
                )
                &&& stamp_wf(e.start)
                &&& (e.stop matches Some(t) ==> stamp_wf(t))
                &&& (e.stop is Some <==> dto.stop is Some)
                &&& e.duration == dto.duration
            },
            r matches Err(er) ==> er == AppError::RecordParse,
    {
        let start = match parse_local_stamp(dto.start.as_str()) {
            Some(t) => t,
            None => {
                return Err(AppError::RecordParse);
            },
        };
        let stop = match &dto.stop {
            Some(sv) => match parse_local_stamp(sv.as_str()) {
                Some(t) => Some(t),
                None => {
                    return Err(AppError::RecordParse);
                },
            },
            None => None,
        };
        Ok(
            TimeEntry {
                id: dto.id,
                workspace_id: dto.workspace_id,
                description: clone_opt_string(&dto.description),
                project_id: dto.project_id,
                project_name: find_project_name(dto.project_id, &config.projects),
                start,
                stop,
                duration: dto.duration,
            },
        )
    }
}

/// The description as displayed: the literal `"no description"` both when
/// absent and when present but empty.
pub open spec fn desc_spec(d: Option<Seq<char>>) -> Seq<char> {
    match d {
        Some(t) => if t.len() > 0 {
            t
        } else {
            "no description"@
        },
        None => "no description"@,
    }
}

/// The exact one-line display form of an entry:
/// `<HH:MM> - <HH:MM|in progress>[ <relative day>][ (<duration>)][\t[<project>]]\t<description>`.
/// The duration suffix appears only once the entry has stopped.
pub open spec fn render_spec(e: TimeEntry, today: Date) -> Seq<char> {
    clock_spec(e.start.hour as int, e.start.minute as int) + " - "@ + (match e.stop {
        Some(t) => clock_spec(t.hour as int, t.minute as int),
        None => "in progress"@,
    }) + (match rel_day_spec(e.start.date, today) {
        Some(d) => " "@ + d,
        None => Seq::<char>::empty(),
    }) + (match e.stop {
        Some(_) => " ("@ + duration_spec(e.duration as int) + ")"@,
        None => Seq::<char>::empty(),
    }) + (match e.project_name {
        Some(p) => "\t["@ + p@ + "]"@,
        None => Seq::<char>::empty(),
    }) + "\t"@ + desc_spec(e.description.deep_view())
}

impl TimeEntry {
    /// Renders the entry for display, reproducing the format exactly.
    pub fn render(&self, today: &Date) -> (r: String)
        requires
            entry_display_wf(*self),
            date_valid(*today),
            today.year > i32::MIN,
        ensures
            r@ == render_spec(*self, *today),
    {
        let mut s = format_time(self.start.hour, self.start.minute);
        s.append(" - ");
        match &self.stop {
            Some(t) => {
                let c = format_time(t.hour, t.minute);
                s.append(c.as_str());
            },
            None => {
                s.append("in progress");
            },
        }
        match format_date(&self.start.date, today) {
            Some(d) => {
                s.append(" ");
                s.append(d.as_str());
            },
            None => {},
        }
        if self.stop.is_some() {
            s.append(" (");
            let d = format_duration(self.duration as u64);
            s.append(d.as_str());
            s.append(")");
        }
        match &self.project_name {
            Some(p) => {
                s.append("\t[");
                s.append(p.as_str());
                s.append("]");
            },
            None => {},
        }
        s.append("\t");
        let empty_description = "no description".to_owned();
        match &self.description {
            Some(d) => {
                let shown = default_if_empty(d, &empty_description);
                s.append(shown.as_str());
            },
            None => {
                s.append(empty_description.as_str());
            },
        }
        proof {
            assert(s@ =~= render_spec(*self, *today));
        }
        s
    }
}

/// The most recent entry that has already stopped: the one `switch`
/// restarts, skipping the currently running entry.
pub fn first_stopped_index(entries: &Vec<TimeEntryDto>) -> (r: Option<usize>)
    ensures
        r matches Some(i) ==> i < entries@.len() && entries@[i as int].stop is Some && (forall|
            j: int,
        |
            0 <= j < i ==> entries@[j].stop is None),
        r is None ==> forall|j: int| 0 <= j < entries@.len() ==> entries@[j].stop is None,
{
    let n = entries.len();
    let mut i: usize = 0;
    while i < n
        invariant
            0 <= i <= n,
            n == entries@.len(),
            forall|j: int| 0 <= j < i ==> entries@[j].stop is None,
        decreases n - i,
    {
        if entries[i].stop.is_some() {
            return Some(i);
        }
        i = i + 1;
    }
    None
}

} // verus!
