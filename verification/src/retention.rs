//! Retention decision engine.
//!
//! The engine takes a time-descending snapshot inventory, a retention
//! policy, and the current instant, and marks every record with the set of
//! rules that cover it; records left unmarked form the delete set. The
//! relative rules (`keep_within`, `keep_last`) are pinned exactly here. The
//! calendar rules bucket records by keys that the time layer computes in the
//! local time zone; the walk over those keys is pinned exactly for every
//! possible key sequence.

use vstd::prelude::*;

use vstd::multiset::Multiset;

use crate::Error;
use crate::dur_in_range;
use crate::timefns::round_to_day;
use crate::timefns::round_to_hour;
use crate::timefns::round_to_month;
use crate::timefns::round_to_week;
use crate::timefns::round_to_year;
use crate::ts_in_range;

verus! {

/// Which retention rules cover a record. A record starts with no tags; each
/// rule pass may add its own tag and leaves the others alone. A record with
/// any tag set is kept.
#[derive(Clone, Copy, Debug, PartialEq, Eq, Structural)]
pub struct KeepTags {
    pub within: bool,
    pub last: bool,
    pub hourly: bool,
    pub daily: bool,
    pub weekly: bool,
    pub monthly: bool,
    pub yearly: bool,
}

impl KeepTags {
    /// No rule covers the record.
    pub open spec fn spec_empty() -> KeepTags {
        KeepTags {
            within: false,
            last: false,
            hourly: false,
            daily: false,
            weekly: false,
            monthly: false,
            yearly: false,
        }
    }

    /// Some rule covers the record.
    pub open spec fn spec_any(self) -> bool {
        self.within || self.last || self.hourly || self.daily || self.weekly || self.monthly
            || self.yearly
    }

    /// The empty tag set.
    pub fn new() -> (r: KeepTags)
        ensures
            r == KeepTags::spec_empty(),
    {
        KeepTags {
            within: false,
            last: false,
            hourly: false,
            daily: false,
            weekly: false,
            monthly: false,
            yearly: false,
        }
    }

    /// Whether any rule covers the record, hence whether it is kept.
    pub fn any(&self) -> (r: bool)
        ensures
            r == self.spec_any(),
    {
        self.within || self.last || self.hourly || self.daily || self.weekly || self.monthly
            || self.yearly
    }
}

/// One snapshot of the inventory: its directory name, the instant parsed
/// from that name (nanoseconds since the Unix epoch), and the rules that
/// cover it.
pub struct SnapshotRecord {
    pub name: Vec<u8>,
    pub time_ns: i128,
    pub tags: KeepTags,
}

impl SnapshotRecord {
    /// The record's instant lies in the representable range.
    pub open spec fn wf(self) -> bool {
        ts_in_range(self.time_ns as int)
    }
}

/// The five calendar units a bucket rule can use.
#[derive(Clone, Copy, Debug, PartialEq, Eq, Structural)]
pub enum CalendarUnit {
    Hour,
    Day,
    Week,
    Month,
    Year,
}

/// Upper bound on a retention window in nanoseconds, matching
/// `crate::dur_in_range`.
pub const MAX_WINDOW_NS: i128 = 10_000_000_000_000_000_000_000_000_000;

/// A set of independent retention rules. Each rule is optional; a valid
/// policy has at least one, every count is at least one, and the window is
/// strictly positive.
pub struct RetentionPolicy {
    /// Keep the N most recent snapshots.
    pub keep_last: Option<u16>,
    /// Keep every snapshot younger than this window, in nanoseconds.
    pub keep_within_ns: Option<i128>,
    /// Keep the most recent snapshot of each of the last N local hours.
    pub keep_hourly: Option<u16>,
    /// Keep the most recent snapshot of each of the last N local days.
    pub keep_daily: Option<u16>,
    /// Keep the most recent snapshot of each of the last N weeks (a week
    /// starts Monday 00:00:00 local).
    pub keep_weekly: Option<u16>,
    /// Keep the most recent snapshot of each of the last N local months.
    pub keep_monthly: Option<u16>,
    /// Keep the most recent snapshot of each of the last N local years.
    pub keep_yearly: Option<u16>,
}

impl RetentionPolicy {
    /// At least one rule is present.
    pub open spec fn spec_is_valid(self) -> bool {
        self.keep_last is Some || self.keep_within_ns is Some || self.keep_hourly is Some
            || self.keep_daily is Some || self.keep_weekly is Some || self.keep_monthly is Some
            || self.keep_yearly is Some
    }

    /// Some calendar-unit rule is present.
    pub open spec fn spec_has_calendar(self) -> bool {
        self.keep_hourly is Some || self.keep_daily is Some || self.keep_weekly is Some
            || self.keep_monthly is Some || self.keep_yearly is Some
    }

    /// The policy invariant: at least one rule, every count at least one,
    /// the window strictly positive and within bounds.
    pub open spec fn wf(self) -> bool {
        &&& self.spec_is_valid()
        &&& (self.keep_last matches Some(n) ==> n >= 1)
        &&& (self.keep_within_ns matches Some(d) ==> 0 < d && dur_in_range(d as int))
        &&& (self.keep_hourly matches Some(n) ==> n >= 1)
        &&& (self.keep_daily matches Some(n) ==> n >= 1)
        &&& (self.keep_weekly matches Some(n) ==> n >= 1)
        &&& (self.keep_monthly matches Some(n) ==> n >= 1)
        &&& (self.keep_yearly matches Some(n) ==> n >= 1)
    }

    /// At least one rule is present.
    pub fn is_valid(&self) -> (r: bool)
        ensures
            r == self.spec_is_valid(),
    {
        self.keep_last.is_some() || self.keep_within_ns.is_some() || self.keep_hourly.is_some()
            || self.keep_daily.is_some() || self.keep_weekly.is_some()
            || self.keep_monthly.is_some() || self.keep_yearly.is_some()
    }

    /// Checks the full policy invariant.
    pub fn check_wf(&self) -> (r: bool)
        ensures
            r == self.wf(),
    {
        self.is_valid() && (match self.keep_last {
            Some(n) => n >= 1,
            None => true,
        }) && (match self.keep_within_ns {
            Some(d) => 0 < d && d <= MAX_WINDOW_NS,
            None => true,
        }) && (match self.keep_hourly {
            Some(n) => n >= 1,
            None => true,
        }) && (match self.keep_daily {
            Some(n) => n >= 1,
            None => true,
        }) && (match self.keep_weekly {
            Some(n) => n >= 1,
            None => true,
        }) && (match self.keep_yearly {
            Some(n) => n >= 1,
            None => true,
        }) && (match self.keep_monthly {
            Some(n) => n >= 1,
            None => true,
        })
    }
}

/// Timestamps never increase along the sequence: most recent first.
pub open spec fn sorted_desc(s: Seq<SnapshotRecord>) -> bool {
    forall|i: int, j: int| 0 <= i <= j < s.len() ==> s[i].time_ns >= s[j].time_ns
}

/// No record carries any tag.
pub open spec fn all_untagged(s: Seq<SnapshotRecord>) -> bool {
    forall|i: int| 0 <= i < s.len() ==> s[i].tags == KeepTags::spec_empty()
}

/// Every record's instant is in range.
pub open spec fn all_wf(s: Seq<SnapshotRecord>) -> bool {
    forall|i: int| 0 <= i < s.len() ==> s[i].wf()
}

/// The record with the window rule's verdict added: covered iff its time is
/// at or after `keep_since`.
pub open spec fn with_within(r: SnapshotRecord, keep_since: int) -> SnapshotRecord {
    SnapshotRecord {
        tags: KeepTags { within: r.tags.within || r.time_ns >= keep_since, ..r.tags },
        ..r
    }
}

/// The record with the keep-last rule's verdict added.
pub open spec fn with_last(r: SnapshotRecord, covered: bool) -> SnapshotRecord {
    SnapshotRecord { tags: KeepTags { last: r.tags.last || covered, ..r.tags }, ..r }
}

/// The record with one calendar unit's verdict added.
pub open spec fn with_unit(r: SnapshotRecord, unit: CalendarUnit, covered: bool) -> SnapshotRecord {
    match unit {
        CalendarUnit::Hour => SnapshotRecord {
            tags: KeepTags { hourly: r.tags.hourly || covered, ..r.tags },
            ..r
        },
        CalendarUnit::Day => SnapshotRecord {
            tags: KeepTags { daily: r.tags.daily || covered, ..r.tags },
            ..r
        },
        CalendarUnit::Week => SnapshotRecord {
            tags: KeepTags { weekly: r.tags.weekly || covered, ..r.tags },
            ..r
        },
        CalendarUnit::Month => SnapshotRecord {
            tags: KeepTags { monthly: r.tags.monthly || covered, ..r.tags },
            ..r
        },
        CalendarUnit::Year => SnapshotRecord {
            tags: KeepTags { yearly: r.tags.yearly || covered, ..r.tags },
            ..r
        },
    }
}

/// The unit's tag on a record.
pub open spec fn unit_tag(r: SnapshotRecord, unit: CalendarUnit) -> bool {
    match unit {
        CalendarUnit::Hour => r.tags.hourly,
        CalendarUnit::Day => r.tags.daily,
        CalendarUnit::Week => r.tags.weekly,
        CalendarUnit::Month => r.tags.monthly,
        CalendarUnit::Year => r.tags.yearly,
    }
}

/// Window rule: tag every record whose time is at or after `keep_since_ns`
/// (that is, within the window ending at the current instant), leaving all
/// other tags alone.
pub fn apply_keep_within(records: Vec<SnapshotRecord>, keep_since_ns: i128) -> (r: Vec<
    SnapshotRecord,
>)
    ensures
        r@.len() == records@.len(),
        forall|i: int| 0 <= i < r@.len() ==> r@[i] == with_within(
            records@[i],
            keep_since_ns as int,
        ),
{
    let ghost orig = records@;
    let mut input = records;
    let mut out: Vec<SnapshotRecord> = Vec::new();
    while input.len() > 0
        invariant
            out@.len() + input@.len() == orig.len(),
            input@ == orig.skip(out@.len() as int),
            forall|j: int| 0 <= j < out@.len() ==> out@[j] == with_within(
                orig[j],
                keep_since_ns as int,
            ),
        decreases input@.len(),
    {
        let ghost i = out@.len() as int;
        let mut rec = input.remove(0);
        assert(rec == orig[i]);
        rec.tags.within = rec.tags.within || rec.time_ns >= keep_since_ns;
        out.push(rec);
        proof {
            assert(input@ =~= orig.skip(i + 1));
        }
    }
    out
}

/// Keep-last rule: tag the first `n` records of the sequence (the `n` most
/// recent ones when the input is time-descending), leaving all other tags
/// alone.
pub fn apply_keep_last(records: Vec<SnapshotRecord>, n: u16) -> (r: Vec<SnapshotRecord>)
    ensures
        r@.len() == records@.len(),
        forall|i: int| 0 <= i < r@.len() ==> r@[i] == with_last(records@[i], i < n as int),
{
    let ghost orig = records@;
    let mut input = records;
    let mut out: Vec<SnapshotRecord> = Vec::new();
    while input.len() > 0
        invariant
            out@.len() + input@.len() == orig.len(),
            input@ == orig.skip(out@.len() as int),
            forall|j: int| 0 <= j < out@.len() ==> out@[j] == with_last(orig[j], j < n as int),
        decreases input@.len(),
    {
        let ghost i = out@.len() as int;
        let covered = out.len() < n as usize;
        let mut rec = input.remove(0);
        assert(rec == orig[i]);
        rec.tags.last = rec.tags.last || covered;
        out.push(rec);
        proof {
            assert(input@ =~= orig.skip(i + 1));
        }
    }
    out
}

/// A record opens a new bucket run: it is first, or its key differs from
/// its predecessor's.
pub open spec fn is_run_start(keys: Seq<i128>, i: int) -> bool {
    i == 0 || keys[i] != keys[i - 1]
}

/// How many records among the first `i` open a new bucket run.
pub open spec fn run_starts_before(keys: Seq<i128>, i: int) -> int
    decreases i,
{
    if i <= 0 {
        0
    } else {
        run_starts_before(keys, i - 1) + if is_run_start(keys, i - 1) {
            1int
        } else {
            0int
        }
    }
}

/// What the calendar walk decides for position `i`: covered iff the record
/// opens a new bucket run and fewer than `n` runs began earlier.
pub open spec fn calendar_tagged(keys: Seq<i128>, n: int, i: int) -> bool {
    is_run_start(keys, i) && run_starts_before(keys, i) < n
}

proof fn lemma_run_starts_monotone(keys: Seq<i128>, a: int, b: int)
    requires
        a <= b,
    ensures
        run_starts_before(keys, a) <= run_starts_before(keys, b),
    decreases b - a,
{
    if a < b {
        lemma_run_starts_monotone(keys, a, b - 1);
    }
}

/// Calendar rule for one unit: walk the sequence once; each time a record's
/// bucket key differs from the previous record's, tag it, until `n` buckets
/// have been seen. Leaves all other tags alone.
pub fn apply_calendar(
    records: Vec<SnapshotRecord>,
    keys: &Vec<i128>,
    n: u16,
    unit: CalendarUnit,
) -> (r: Vec<SnapshotRecord>)
    requires
        keys@.len() == records@.len(),
    ensures
        r@.len() == records@.len(),
        forall|i: int| 0 <= i < r@.len() ==> r@[i] == with_unit(
            records@[i],
            unit,
            calendar_tagged(keys@, n as int, i),
        ),
{
    let ghost orig = records@;
    let mut input = records;
    let mut out: Vec<SnapshotRecord> = Vec::new();
    let mut used: u16 = 0;
    while input.len() > 0 && used < n
        invariant
            out@.len() + input@.len() == orig.len(),
            keys@.len() == orig.len(),
            input@ == orig.skip(out@.len() as int),
            used as int == run_starts_before(keys@, out@.len() as int),
            used <= n,
            forall|j: int| 0 <= j < out@.len() ==> out@[j] == with_unit(
                orig[j],
                unit,
                calendar_tagged(keys@, n as int, j),
            ),
        decreases input@.len(),
    {
        let i = out.len();
        let ghost gi = i as int;
        let start = if i == 0 {
            true
        } else {
            keys[i] != keys[i - 1]
        };
        assert(start == is_run_start(keys@, gi));
        let covered = start;
        let mut rec = input.remove(0);
        assert(rec == orig[gi]);
        let new_tag = covered;
        match unit {
            CalendarUnit::Hour => {
                rec.tags.hourly = rec.tags.hourly || new_tag;
            },
            CalendarUnit::Day => {
                rec.tags.daily = rec.tags.daily || new_tag;
            },
            CalendarUnit::Week => {
                rec.tags.weekly = rec.tags.weekly || new_tag;
            },
            CalendarUnit::Month => {
                rec.tags.monthly = rec.tags.monthly || new_tag;
            },
            CalendarUnit::Year => {
                rec.tags.yearly = rec.tags.yearly || new_tag;
            },
        }
        out.push(rec);
        if start {
            used = used + 1;
        }
        proof {
            assert(input@ =~= orig.skip(gi + 1));
            assert(run_starts_before(keys@, gi + 1) == run_starts_before(keys@, gi)
                + if is_run_start(keys@, gi) {
                1int
            } else {
                0int
            });
        }
    }
    proof {
        if out@.len() < orig.len() {
            assert(used == n);
        }
    }
    while input.len() > 0
        invariant
            out@.len() + input@.len() == orig.len(),
            keys@.len() == orig.len(),
            input@ == orig.skip(out@.len() as int),
            out@.len() < orig.len() ==> run_starts_before(keys@, out@.len() as int) >= n,
            forall|j: int| 0 <= j < out@.len() ==> out@[j] == with_unit(
                orig[j],
                unit,
                calendar_tagged(keys@, n as int, j),
            ),
        decreases input@.len(),
    {
        let ghost gi = out@.len() as int;
        let rec = input.remove(0);
        assert(rec == orig[gi]);
        proof {
            lemma_run_starts_monotone(keys@, gi, gi + 1);
            assert(!calendar_tagged(keys@, n as int, gi));
            assert(with_unit(orig[gi], unit, false) == orig[gi]);
        }
        out.push(rec);
        proof {
            assert(input@ =~= orig.skip(gi + 1));
            assert(run_starts_before(keys@, gi + 1) >= run_starts_before(keys@, gi));
        }
    }
    out
}

/// Computes each record's bucket key for one calendar unit through the time
/// layer. Fails with `CalendarOverflow` (naming the offending instant) as
/// soon as one instant cannot be rounded; the whole plan is then abandoned
/// before anything is deleted. With no records no rounding is attempted, so
/// an empty inventory always succeeds.
pub fn compute_bucket_keys(records: &Vec<SnapshotRecord>, unit: CalendarUnit) -> (r: Result<
    Vec<i128>,
    Error,
>)
    requires
        all_wf(records@),
    ensures
        r matches Ok(ks) ==> ks@.len() == records@.len(),
        r is Err ==> (r matches Err(e) && e is CalendarOverflow),
        records@.len() == 0 ==> r is Ok,
{
    let mut keys: Vec<i128> = Vec::new();
    let mut i: usize = 0;
    let n = records.len();
    while i < n
        invariant
            0 <= i <= n == records@.len(),
            keys@.len() == i,
            all_wf(records@),
        decreases n - i,
    {
        assert(records@[i as int].wf());
        let t = records[i].time_ns;
        let rounded = match unit {
            CalendarUnit::Hour => round_to_hour(t),
            CalendarUnit::Day => round_to_day(t),
            CalendarUnit::Week => round_to_week(t),
            CalendarUnit::Month => round_to_month(t),
            CalendarUnit::Year => round_to_year(t),
        };
        match rounded {
            Some(k) => {
                keys.push(k);
            },
            None => {
                return Err(Error::CalendarOverflow { time_ns: t });
            },
        }
        i = i + 1;
    }
    Ok(keys)
}

/// The unit's tags on `out` are exactly one calendar walk's verdicts: for
/// some key sequence (one key per input record, as the time layer chose
/// them), a record carries the unit's tag iff the walk over those keys
/// covers its position.
pub open spec fn unit_tags_by_walk(
    input_len: int,
    out: Seq<SnapshotRecord>,
    unit: CalendarUnit,
    n: int,
) -> bool {
    exists|ks: Seq<i128>|
        ks.len() == input_len && (forall|i: int|
            0 <= i < out.len() ==> unit_tag(#[trigger] out[i], unit) == calendar_tagged(ks, n, i))
}

/// Computes the retention plan: checks the policy invariant, then applies
/// every present rule in turn — the window rule, the keep-last rule, and the
/// calendar rules hour, day, week, month, year — each adding its own tag.
/// The window and keep-last verdicts are pinned exactly; each calendar
/// verdict is the walk `apply_calendar` pins, over keys the time layer chose
/// for the respective unit. A calendar failure abandons the whole plan; a
/// well-formed policy always yields a plan when no calendar rule is present,
/// and likewise on an empty inventory, where nothing is rounded.
#[verifier::rlimit(60)]
pub fn plan_prune(records: Vec<SnapshotRecord>, policy: &RetentionPolicy, now_ns: i128) -> (r:
    Result<Vec<SnapshotRecord>, Error>)
    requires
        ts_in_range(now_ns as int),
        all_untagged(records@),
        all_wf(records@),
    ensures
        !policy.wf() ==> (r matches Err(e) && e is InvalidInput),
        r is Err ==> !policy.wf() || (policy.spec_has_calendar() && (r matches Err(e)
            && e is CalendarOverflow)),
        policy.wf() && !policy.spec_has_calendar() ==> r is Ok,
        policy.wf() && records@.len() == 0 ==> r is Ok,
        r matches Ok(out) ==> {
            &&& out@.len() == records@.len()
            &&& (forall|i: int| 0 <= i < out@.len() ==> (#[trigger] out@[i]).name@
                == records@[i].name@ && out@[i].time_ns == records@[i].time_ns && out@[i].wf())
            &&& (forall|i: int| 0 <= i < out@.len() ==> (#[trigger] out@[i]).tags.within == (
            policy.keep_within_ns matches Some(d) && records@[i].time_ns as int >= now_ns as int
                - d as int))
            &&& (forall|i: int| 0 <= i < out@.len() ==> (#[trigger] out@[i]).tags.last == (
            policy.keep_last matches Some(n) && i < n as int))
            &&& (policy.keep_hourly is None ==> forall|i: int| 0 <= i < out@.len() ==> !(
            #[trigger] out@[i]).tags.hourly)
            &&& (policy.keep_daily is None ==> forall|i: int| 0 <= i < out@.len() ==> !(
            #[trigger] out@[i]).tags.daily)
            &&& (policy.keep_weekly is None ==> forall|i: int| 0 <= i < out@.len() ==> !(
            #[trigger] out@[i]).tags.weekly)
            &&& (policy.keep_monthly is None ==> forall|i: int| 0 <= i < out@.len() ==> !(
            #[trigger] out@[i]).tags.monthly)
            &&& (policy.keep_yearly is None ==> forall|i: int| 0 <= i < out@.len() ==> !(
            #[trigger] out@[i]).tags.yearly)
            &&& (policy.keep_hourly matches Some(n) ==> unit_tags_by_walk(
                records@.len() as int,
                out@,
                CalendarUnit::Hour,
                n as int,
            ))
            &&& (policy.keep_daily matches Some(n) ==> unit_tags_by_walk(
                records@.len() as int,
                out@,
                CalendarUnit::Day,
                n as int,
            ))
            &&& (policy.keep_weekly matches Some(n) ==> unit_tags_by_walk(
                records@.len() as int,
                out@,
                CalendarUnit::Week,
                n as int,
            ))
            &&& (policy.keep_monthly matches Some(n) ==> unit_tags_by_walk(
                records@.len() as int,
                out@,
                CalendarUnit::Month,
                n as int,
            ))
            &&& (policy.keep_yearly matches Some(n) ==> unit_tags_by_walk(
                records@.len() as int,
                out@,
                CalendarUnit::Year,
                n as int,
            ))
            &&& (out@.len() > 0 && policy.keep_hourly is Some ==> out@[0].tags.hourly)
            &&& (out@.len() > 0 && policy.keep_daily is Some ==> out@[0].tags.daily)
            &&& (out@.len() > 0 && policy.keep_weekly is Some ==> out@[0].tags.weekly)
            &&& (out@.len() > 0 && policy.keep_monthly is Some ==> out@[0].tags.monthly)
            &&& (out@.len() > 0 && policy.keep_yearly is Some ==> out@[0].tags.yearly)
        },
{
    if !policy.check_wf() {
        return Err(Error::InvalidInput);
    }
    let ghost orig = records@;
    let ghost mut kh: Seq<i128> = Seq::empty();
    let ghost mut kd: Seq<i128> = Seq::empty();
    let ghost mut kw: Seq<i128> = Seq::empty();
    let ghost mut km: Seq<i128> = Seq::empty();
    let ghost mut ky: Seq<i128> = Seq::empty();
    let recs0 = records;

    let recs1 = match policy.keep_within_ns {
        Some(d) => apply_keep_within(recs0, now_ns - d),
        None => recs0,
    };
    let ghost s1 = recs1@;

    let recs2 = match policy.keep_last {
        Some(n) => apply_keep_last(recs1, n),
        None => recs1,
    };
    let ghost s2 = recs2@;

    let recs3 = match policy.keep_hourly {
        Some(n) => {
            assert(all_wf(recs2@));
            let keys = compute_bucket_keys(&recs2, CalendarUnit::Hour)?;
            proof {
                kh = keys@;
            }
            apply_calendar(recs2, &keys, n, CalendarUnit::Hour)
        },
        None => recs2,
    };
    let ghost s3 = recs3@;

    let recs4 = match policy.keep_daily {
        Some(n) => {
            assert(all_wf(recs3@));
            let keys = compute_bucket_keys(&recs3, CalendarUnit::Day)?;
            proof {
                kd = keys@;
            }
            apply_calendar(recs3, &keys, n, CalendarUnit::Day)
        },
        None => recs3,
    };
    let ghost s4 = recs4@;

    let recs5 = match policy.keep_weekly {
        Some(n) => {
            assert(all_wf(recs4@));
            let keys = compute_bucket_keys(&recs4, CalendarUnit::Week)?;
            proof {
                kw = keys@;
            }
            apply_calendar(recs4, &keys, n, CalendarUnit::Week)
        },
        None => recs4,
    };
    let ghost s5 = recs5@;

    let recs6 = match policy.keep_monthly {
        Some(n) => {
            assert(all_wf(recs5@));
            let keys = compute_bucket_keys(&recs5, CalendarUnit::Month)?;
            proof {
                km = keys@;
            }
            apply_calendar(recs5, &keys, n, CalendarUnit::Month)
        },
        None => recs5,
    };
    let ghost s6 = recs6@;

    let recs7 = match policy.keep_yearly {
        Some(n) => {
            assert(all_wf(recs6@));
            let keys = compute_bucket_keys(&recs6, CalendarUnit::Year)?;
            proof {
                ky = keys@;
            }
            apply_calendar(recs6, &keys, n, CalendarUnit::Year)
        },
        None => recs6,
    };

    proof {
        let flen = orig.len() as int;
        if policy.keep_hourly is Some {
            let n = policy.keep_hourly->0 as int;
            assert(kh.len() == flen);
            assert(forall|i: int|
                0 <= i < recs7@.len() ==> unit_tag(#[trigger] recs7@[i], CalendarUnit::Hour)
                    == calendar_tagged(kh, n, i));
            assert(unit_tags_by_walk(flen, recs7@, CalendarUnit::Hour, n));
        }
        if policy.keep_daily is Some {
            let n = policy.keep_daily->0 as int;
            assert(kd.len() == flen);
            assert(forall|i: int|
                0 <= i < recs7@.len() ==> unit_tag(#[trigger] recs7@[i], CalendarUnit::Day)
                    == calendar_tagged(kd, n, i));
            assert(unit_tags_by_walk(flen, recs7@, CalendarUnit::Day, n));
        }
        if policy.keep_weekly is Some {
            let n = policy.keep_weekly->0 as int;
            assert(kw.len() == flen);
            assert(forall|i: int|
                0 <= i < recs7@.len() ==> unit_tag(#[trigger] recs7@[i], CalendarUnit::Week)
                    == calendar_tagged(kw, n, i));
            assert(unit_tags_by_walk(flen, recs7@, CalendarUnit::Week, n));
        }
        if policy.keep_monthly is Some {
            let n = policy.keep_monthly->0 as int;
            assert(km.len() == flen);
            assert(forall|i: int|
                0 <= i < recs7@.len() ==> unit_tag(#[trigger] recs7@[i], CalendarUnit::Month)
                    == calendar_tagged(km, n, i));
            assert(unit_tags_by_walk(flen, recs7@, CalendarUnit::Month, n));
        }
        if policy.keep_yearly is Some {
            let n = policy.keep_yearly->0 as int;
            assert(ky.len() == flen);
            assert(forall|i: int|
                0 <= i < recs7@.len() ==> unit_tag(#[trigger] recs7@[i], CalendarUnit::Year)
                    == calendar_tagged(ky, n, i));
            assert(unit_tags_by_walk(flen, recs7@, CalendarUnit::Year, n));
        }
    }
    Ok(recs7)
}

/// The tagged records, in order.
pub open spec fn keep_part(s: Seq<SnapshotRecord>) -> Seq<SnapshotRecord>
    decreases s.len(),
{
    if s.len() == 0 {
        Seq::empty()
    } else {
        let rest = keep_part(s.drop_last());
        if s.last().tags.spec_any() {
            rest.push(s.last())
        } else {
            rest
        }
    }
}

/// The untagged records, in order.
pub open spec fn delete_part(s: Seq<SnapshotRecord>) -> Seq<SnapshotRecord>
    decreases s.len(),
{
    if s.len() == 0 {
        Seq::empty()
    } else {
        let rest = delete_part(s.drop_last());
        if !s.last().tags.spec_any() {
            rest.push(s.last())
        } else {
            rest
        }
    }
}

/// Splits a tagged inventory into the keep set and the delete set: a record
/// is kept iff some rule covers it.
pub fn split_plan(records: Vec<SnapshotRecord>) -> (r: (Vec<SnapshotRecord>, Vec<SnapshotRecord>))
    ensures
        r.0@ == keep_part(records@),
        r.1@ == delete_part(records@),
{
    let ghost orig = records@;
    let mut input = records;
    let mut keep: Vec<SnapshotRecord> = Vec::new();
    let mut delete: Vec<SnapshotRecord> = Vec::new();
    let ghost mut i: int = 0;
    while input.len() > 0
        invariant
            0 <= i,
            i + input@.len() == orig.len(),
            input@ == orig.skip(i),
            keep@ == keep_part(orig.take(i)),
            delete@ == delete_part(orig.take(i)),
        decreases input@.len(),
    {
        let rec = input.remove(0);
        assert(rec == orig[i]);
        proof {
            assert(orig.take(i + 1).drop_last() =~= orig.take(i));
            assert(orig.take(i + 1).last() == orig[i]);
        }
        if rec.tags.any() {
            keep.push(rec);
        } else {
            delete.push(rec);
        }
        proof {
            i = i + 1;
            assert(input@ =~= orig.skip(i));
        }
    }
    proof {
        assert(orig.take(i) =~= orig);
    }
    (keep, delete)
}

/// Keep set and delete set partition the inventory: together they hold
/// exactly the input records (as a multiset, so duplicates count), every
/// kept record is covered by some rule, and no deleted record is.
pub proof fn lemma_split_is_partition(s: Seq<SnapshotRecord>)
    ensures
        keep_part(s).len() + delete_part(s).len() == s.len(),
        keep_part(s).to_multiset().add(delete_part(s).to_multiset()) =~= s.to_multiset(),
        forall|i: int| 0 <= i < keep_part(s).len() ==> (#[trigger] keep_part(
            s,
        )[i]).tags.spec_any(),
        forall|i: int| 0 <= i < delete_part(s).len() ==> !(#[trigger] delete_part(
            s,
        )[i]).tags.spec_any(),
    decreases s.len(),
{
    broadcast use vstd::seq_lib::group_to_multiset_ensures;

    if s.len() == 0 {
        assert(s.to_multiset() =~= Multiset::<SnapshotRecord>::empty());
    } else {
        let pre = s.drop_last();
        lemma_split_is_partition(pre);
        assert(pre.push(s.last()) =~= s);
        assert(pre.push(s.last()).to_multiset() == pre.to_multiset().insert(s.last()));
    }
}

/// If some record is covered by a rule, the keep set is non-empty. Together
/// with `plan_prune`'s contract this gives: for a non-empty inventory, a
/// well-formed policy keeps at least one record whenever it has a keep-last
/// or calendar rule, or its window rule covers the most recent record.
pub proof fn lemma_keep_nonempty(s: Seq<SnapshotRecord>)
    requires
        exists|i: int| 0 <= i < s.len() && (#[trigger] s[i]).tags.spec_any(),
    ensures
        keep_part(s).len() > 0,
    decreases s.len(),
{
    let i = choose|i: int| 0 <= i < s.len() && (#[trigger] s[i]).tags.spec_any();
    if i == s.len() - 1 {
    } else {
        assert(s.drop_last()[i] == s[i]);
        lemma_keep_nonempty(s.drop_last());
    }
}

/// How many records the keep-last rule covers.
pub open spec fn count_last_tagged(s: Seq<SnapshotRecord>) -> int
    decreases s.len(),
{
    if s.len() == 0 {
        0
    } else {
        count_last_tagged(s.drop_last()) + if s.last().tags.last {
            1int
        } else {
            0int
        }
    }
}

/// The keep-last rule covers exactly `min(n, count)` records: when its tag
/// marks precisely the first `n` positions (as `plan_prune` guarantees),
/// the number of marked records is `n`, capped by the sequence length.
pub proof fn lemma_keep_last_count(s: Seq<SnapshotRecord>, n: int)
    requires
        n >= 0,
        forall|i: int| 0 <= i < s.len() ==> ((#[trigger] s[i]).tags.last <==> i < n),
    ensures
        count_last_tagged(s) == if n <= s.len() {
            n
        } else {
            s.len() as int
        },
    decreases s.len(),
{
    if s.len() > 0 {
        assert(forall|i: int|
            0 <= i < s.drop_last().len() ==> ((#[trigger] s.drop_last()[i]).tags.last <==> i < n));
        lemma_keep_last_count(s.drop_last(), n);
    }
}

/// Keys never increase along the sequence (they are bucket starts of
/// time-descending records).
pub open spec fn non_increasing(keys: Seq<i128>) -> bool {
    forall|i: int, j: int| 0 <= i <= j < keys.len() ==> keys[i] >= keys[j]
}

/// No earlier record shares this record's bucket key: the record is the
/// most recent one of its bucket.
pub open spec fn first_occurrence(keys: Seq<i128>, i: int) -> bool {
    forall|j: int| 0 <= j < i ==> keys[j] != keys[i]
}

/// How many distinct buckets appear among the first `i` keys.
pub open spec fn distinct_before(keys: Seq<i128>, i: int) -> int
    decreases i,
{
    if i <= 0 {
        0
    } else {
        distinct_before(keys, i - 1) + if first_occurrence(keys, i - 1) {
            1int
        } else {
            0int
        }
    }
}

proof fn lemma_run_start_is_first_occurrence(keys: Seq<i128>, i: int)
    requires
        non_increasing(keys),
        0 <= i < keys.len(),
    ensures
        is_run_start(keys, i) <==> first_occurrence(keys, i),
{
    if i > 0 {
        if is_run_start(keys, i) {
            assert(keys[i - 1] >= keys[i]);
            assert(forall|j: int| 0 <= j < i ==> (#[trigger] keys[j]) >= keys[i - 1]);
        }
    }
}

proof fn lemma_run_starts_count_distinct(keys: Seq<i128>, i: int)
    requires
        non_increasing(keys),
        0 <= i <= keys.len(),
    ensures
        run_starts_before(keys, i) == distinct_before(keys, i),
    decreases i,
{
    if i > 0 {
        lemma_run_starts_count_distinct(keys, i - 1);
        lemma_run_start_is_first_occurrence(keys, i - 1);
    }
}

/// Bucket rule over time-descending records: with non-increasing keys, the
/// calendar walk tags a record iff it is the most recent record of its
/// bucket and its bucket is among the `n` most recent distinct buckets —
/// exactly one record per bucket across the `n` most recent buckets that
/// contain records.
pub proof fn lemma_calendar_rule_buckets(keys: Seq<i128>, n: int)
    requires
        non_increasing(keys),
    ensures
        forall|i: int| 0 <= i < keys.len() ==> (calendar_tagged(keys, n, i) <==> (
        first_occurrence(keys, i) && distinct_before(keys, i) < n)),
{
    assert forall|i: int| 0 <= i < keys.len() implies (calendar_tagged(keys, n, i) <==> (
    first_occurrence(keys, i) && distinct_before(keys, i) < n)) by {
        lemma_run_start_is_first_occurrence(keys, i);
        lemma_run_starts_count_distinct(keys, i);
    }
}

/// The smaller of two values.
pub open spec fn min2(a: int, b: int) -> int {
    if a <= b {
        a
    } else {
        b
    }
}

/// The keys among the first `i` that `mask` keeps, in order: the key
/// sequence a second pruning run would walk, cut off at position `i`.
pub open spec fn filtered_prefix(keys: Seq<i128>, mask: Seq<bool>, i: int) -> Seq<i128>
    decreases i,
{
    if i <= 0 {
        Seq::empty()
    } else {
        filtered_prefix(keys, mask, i - 1) + if mask[i - 1] {
            seq![keys[i - 1]]
        } else {
            Seq::empty()
        }
    }
}

/// The latest kept position before `i`, or -1 when none is kept.
pub open spec fn last_kept_before(mask: Seq<bool>, i: int) -> int
    decreases i,
{
    if i <= 0 {
        -1
    } else if mask[i - 1] {
        i - 1
    } else {
        last_kept_before(mask, i - 1)
    }
}

/// The start of the bucket run containing `i`.
pub open spec fn run_start_of(keys: Seq<i128>, i: int) -> int
    decreases i,
{
    if i <= 0 {
        0
    } else if is_run_start(keys, i) {
        i
    } else {
        run_start_of(keys, i - 1)
    }
}

proof fn lemma_fp_grows(keys: Seq<i128>, mask: Seq<bool>, a: int, b: int)
    requires
        0 <= a <= b,
    ensures
        filtered_prefix(keys, mask, a).len() <= filtered_prefix(keys, mask, b).len(),
        forall|k: int|
            0 <= k < filtered_prefix(keys, mask, a).len() ==> filtered_prefix(keys, mask, b)[k]
                == filtered_prefix(keys, mask, a)[k],
    decreases b - a,
{
    if a < b {
        lemma_fp_grows(keys, mask, a, b - 1);
    }
}

/// A kept record never moves to a later position: the kept subsequence
/// holds at most `i` records before position `i`. So a record the
/// keep-last rule covered (position below `n`) sits below `n` again in a
/// second run over the kept records, and is covered again; the window
/// rule's verdict depends only on the record's unchanged instant. With
/// `lemma_calendar_retag` for the calendar rules, a second pruning with
/// identical inputs and the same current instant deletes nothing.
pub proof fn lemma_kept_position_not_later(keys: Seq<i128>, mask: Seq<bool>, i: int)
    requires
        0 <= i,
    ensures
        filtered_prefix(keys, mask, i).len() <= i,
    decreases i,
{
    if i > 0 {
        lemma_kept_position_not_later(keys, mask, i - 1);
    }
}

proof fn lemma_lkb(keys: Seq<i128>, mask: Seq<bool>, i: int)
    requires
        0 <= i,
    ensures
        ({
            let l = last_kept_before(mask, i);
            &&& -1 <= l < i
            &&& (l == -1 ==> filtered_prefix(keys, mask, i).len() == 0)
            &&& (l >= 0 ==> mask[l] && filtered_prefix(keys, mask, i) == filtered_prefix(
                keys,
                mask,
                l + 1,
            ) && (forall|j: int| l < j < i ==> !mask[j]))
        }),
    decreases i,
{
    if i > 0 {
        if mask[i - 1] {
        } else {
            lemma_lkb(keys, mask, i - 1);
            assert(filtered_prefix(keys, mask, i) =~= filtered_prefix(keys, mask, i - 1));
        }
    }
}

proof fn lemma_kept_key(keys: Seq<i128>, mask: Seq<bool>, i: int)
    requires
        0 <= i,
        mask[i],
    ensures
        filtered_prefix(keys, mask, i + 1).len() == filtered_prefix(keys, mask, i).len() + 1,
        filtered_prefix(keys, mask, i + 1)[filtered_prefix(keys, mask, i).len() as int] == keys[i],
{
}

proof fn lemma_rso(keys: Seq<i128>, i: int)
    requires
        0 <= i,
    ensures
        ({
            let s = run_start_of(keys, i);
            &&& 0 <= s <= i
            &&& is_run_start(keys, s)
            &&& (forall|j: int| s <= j <= i ==> keys[j] == keys[s])
        }),
    decreases i,
{
    if i > 0 && !is_run_start(keys, i) {
        lemma_rso(keys, i - 1);
    }
}

proof fn lemma_rsb_ge_one(keys: Seq<i128>, i: int)
    requires
        1 <= i,
    ensures
        run_starts_before(keys, i) >= 1,
{
    assert(run_starts_before(keys, 0) == 0);
    assert(run_starts_before(keys, 1) == 1);
    lemma_run_starts_monotone(keys, 1, i);
}

proof fn lemma_retag_count(keys: Seq<i128>, mask: Seq<bool>, n: int, i: int)
    requires
        mask.len() == keys.len(),
        forall|j: int| 0 <= j < keys.len() && calendar_tagged(keys, n, j) ==> mask[j],
        0 <= i <= keys.len(),
    ensures
        ({
            let fl = filtered_prefix(keys, mask, keys.len() as int);
            let p = filtered_prefix(keys, mask, i).len() as int;
            min2(run_starts_before(fl, p), n) <= min2(run_starts_before(keys, i), n)
        }),
    decreases i,
{
    let fl = filtered_prefix(keys, mask, keys.len() as int);
    if i == 0 {
    } else {
        lemma_retag_count(keys, mask, n, i - 1);
        let p0 = filtered_prefix(keys, mask, i - 1).len() as int;
        let p1 = filtered_prefix(keys, mask, i).len() as int;
        lemma_fp_grows(keys, mask, i - 1, keys.len() as int);
        lemma_fp_grows(keys, mask, i, keys.len() as int);
        lemma_kept_position_not_later(keys, mask, keys.len() as int);
        if !mask[i - 1] {
            assert(filtered_prefix(keys, mask, i) =~= filtered_prefix(keys, mask, i - 1));
            assert(run_starts_before(keys, i) >= run_starts_before(keys, i - 1));
        } else {
            lemma_kept_key(keys, mask, i - 1);
            assert(p1 == p0 + 1);
            assert(fl[p0] == keys[i - 1]) by {
                lemma_fp_grows(keys, mask, i, keys.len() as int);
            }
            assert(run_starts_before(fl, p1) == run_starts_before(fl, p0) + if is_run_start(
                fl,
                p0,
            ) {
                1int
            } else {
                0int
            });
            if !is_run_start(fl, p0) {
                assert(run_starts_before(keys, i) >= run_starts_before(keys, i - 1));
            } else if is_run_start(keys, i - 1) {
                assert(run_starts_before(keys, i) == run_starts_before(keys, i - 1) + 1);
            } else {
                // The record at `i - 1` continues a run, yet opens one in
                // the kept sequence: its run's start was dropped, which
                // only happens to a run past the rule's budget.
                assert(i - 1 >= 1);
                if p0 == 0 {
                    lemma_rsb_ge_one(fl, p1);
                    lemma_rsb_ge_one(keys, i);
                } else {
                    lemma_lkb(keys, mask, i - 1);
                    let l = last_kept_before(mask, i - 1);
                    assert(l >= 0);
                    lemma_kept_key(keys, mask, l);
                    assert(filtered_prefix(keys, mask, l + 1)[p0 - 1] == keys[l]);
                    assert(fl[p0 - 1] == keys[l]) by {
                        lemma_fp_grows(keys, mask, l + 1, keys.len() as int);
                        assert(filtered_prefix(keys, mask, l + 1).len() == p0);
                    }
                    lemma_rso(keys, i - 1);
                    let s = run_start_of(keys, i - 1);
                    assert(s < i - 1);
                    if l >= s {
                        assert(keys[l] == keys[s] && keys[i - 1] == keys[s]);
                        assert(!is_run_start(fl, p0));
                        assert(false);
                    } else {
                        assert(!mask[s]);
                        assert(!calendar_tagged(keys, n, s));
                        assert(run_starts_before(keys, s) >= n);
                        assert(run_starts_before(keys, s + 1) == run_starts_before(keys, s) + 1);
                        lemma_run_starts_monotone(keys, s + 1, i);
                        assert(run_starts_before(keys, i) >= n + 1);
                    }
                }
            }
        }
    }
}

/// Calendar rules re-cover their records: when pruning keeps (at least)
/// every record the walk over `keys` tagged, and runs again over the kept
/// records — whose keys are `filtered_prefix(keys, mask, keys.len())` —
/// every kept record that the first walk tagged is tagged again, at its
/// new position. Together with `lemma_kept_position_not_later` this gives
/// idempotence: a second pruning with identical inputs and the same
/// current instant deletes nothing.
pub proof fn lemma_calendar_retag(keys: Seq<i128>, mask: Seq<bool>, n: int, i: int)
    requires
        mask.len() == keys.len(),
        forall|j: int| 0 <= j < keys.len() && calendar_tagged(keys, n, j) ==> mask[j],
        0 <= i < keys.len(),
        mask[i],
        calendar_tagged(keys, n, i),
    ensures
        calendar_tagged(
            filtered_prefix(keys, mask, keys.len() as int),
            n,
            filtered_prefix(keys, mask, i).len() as int,
        ),
{
    let fl = filtered_prefix(keys, mask, keys.len() as int);
    let p = filtered_prefix(keys, mask, i).len() as int;
    lemma_kept_key(keys, mask, i);
    lemma_fp_grows(keys, mask, i + 1, keys.len() as int);
    assert(p + 1 <= fl.len());
    assert(fl[p] == keys[i]);

    // Fewer than `n` runs open before the new position.
    lemma_retag_count(keys, mask, n, i);
    assert(min2(run_starts_before(fl, p), n) <= min2(run_starts_before(keys, i), n));
    assert(run_starts_before(keys, i) < n);
    assert(run_starts_before(fl, p) < n);

    // The new position opens a run.
    if p > 0 {
        lemma_lkb(keys, mask, i);
        let l = last_kept_before(mask, i);
        assert(l >= 0);
        lemma_kept_key(keys, mask, l);
        assert(fl[p - 1] == keys[l]) by {
            lemma_fp_grows(keys, mask, l + 1, keys.len() as int);
            assert(filtered_prefix(keys, mask, l + 1).len() == p);
        }
        assert(i >= 1);
        lemma_rso(keys, i - 1);
        let t = run_start_of(keys, i - 1);
        if l >= t {
            assert(keys[l] == keys[t] && keys[i - 1] == keys[t]);
            assert(keys[l] != keys[i]);
        } else {
            assert(!mask[t]);
            assert(!calendar_tagged(keys, n, t));
            assert(run_starts_before(keys, t) >= n);
            assert(run_starts_before(keys, t + 1) == run_starts_before(keys, t) + 1);
            lemma_run_starts_monotone(keys, t + 1, i);
            assert(run_starts_before(keys, i) >= n + 1);
            assert(false);
        }
    }
}

/// A record is covered by the first pruning run: some present rule tags
/// position `i`, judging by the record times, the current instant, and the
/// bucket keys the time layer chose for each present calendar rule.
pub open spec fn covered_by_run(
    policy: RetentionPolicy,
    times: Seq<i128>,
    kh: Seq<i128>,
    kd: Seq<i128>,
    kw: Seq<i128>,
    km: Seq<i128>,
    ky: Seq<i128>,
    now: int,
    i: int,
) -> bool {
    ||| (policy.keep_within_ns matches Some(d) && times[i] >= now - d)
    ||| (policy.keep_last matches Some(n) && i < n as int)
    ||| (policy.keep_hourly matches Some(n) && calendar_tagged(kh, n as int, i))
    ||| (policy.keep_daily matches Some(n) && calendar_tagged(kd, n as int, i))
    ||| (policy.keep_weekly matches Some(n) && calendar_tagged(kw, n as int, i))
    ||| (policy.keep_monthly matches Some(n) && calendar_tagged(km, n as int, i))
    ||| (policy.keep_yearly matches Some(n) && calendar_tagged(ky, n as int, i))
}

/// Pruning is idempotent: when the delete pass removes only uncovered
/// records (`mask` keeps at least every covered one), then running the same
/// rules again — same policy, same current instant — over the kept records,
/// with their unchanged times and the corresponding key subsequences, covers
/// every kept record that was covered before, at its new position. A second
/// run therefore deletes nothing.
pub proof fn lemma_prune_idempotent(
    policy: RetentionPolicy,
    times: Seq<i128>,
    kh: Seq<i128>,
    kd: Seq<i128>,
    kw: Seq<i128>,
    km: Seq<i128>,
    ky: Seq<i128>,
    now: int,
    mask: Seq<bool>,
    i: int,
)
    requires
        mask.len() == times.len(),
        kh.len() == times.len(),
        kd.len() == times.len(),
        kw.len() == times.len(),
        km.len() == times.len(),
        ky.len() == times.len(),
        forall|j: int|
            0 <= j < times.len() && covered_by_run(policy, times, kh, kd, kw, km, ky, now, j)
                ==> mask[j],
        0 <= i < times.len(),
        mask[i],
        covered_by_run(policy, times, kh, kd, kw, km, ky, now, i),
    ensures
        covered_by_run(
            policy,
            filtered_prefix(times, mask, times.len() as int),
            filtered_prefix(kh, mask, kh.len() as int),
            filtered_prefix(kd, mask, kd.len() as int),
            filtered_prefix(kw, mask, kw.len() as int),
            filtered_prefix(km, mask, km.len() as int),
            filtered_prefix(ky, mask, ky.len() as int),
            now,
            filtered_prefix(times, mask, i).len() as int,
        ),
{
    let len = times.len() as int;
    let p = filtered_prefix(times, mask, i).len() as int;
    lemma_kept_position_not_later(times, mask, i);
    lemma_kept_key(times, mask, i);
    lemma_fp_grows(times, mask, i + 1, len);
    assert(filtered_prefix(times, mask, len)[p] == times[i]);
    assert(filtered_prefix(kh, mask, i).len() == p && filtered_prefix(kd, mask, i).len() == p
        && filtered_prefix(kw, mask, i).len() == p && filtered_prefix(km, mask, i).len() == p
        && filtered_prefix(ky, mask, i).len() == p) by {
        lemma_fp_same_mask(times, kh, mask, i);
        lemma_fp_same_mask(times, kd, mask, i);
        lemma_fp_same_mask(times, kw, mask, i);
        lemma_fp_same_mask(times, km, mask, i);
        lemma_fp_same_mask(times, ky, mask, i);
    }
    if policy.keep_within_ns is Some && times[i] >= now - policy.keep_within_ns->0 {
    } else if policy.keep_last is Some && i < policy.keep_last->0 as int {
    } else if policy.keep_hourly is Some && calendar_tagged(kh, policy.keep_hourly->0 as int, i) {
        lemma_calendar_retag(kh, mask, policy.keep_hourly->0 as int, i);
    } else if policy.keep_daily is Some && calendar_tagged(kd, policy.keep_daily->0 as int, i) {
        lemma_calendar_retag(kd, mask, policy.keep_daily->0 as int, i);
    } else if policy.keep_weekly is Some && calendar_tagged(kw, policy.keep_weekly->0 as int, i) {
        lemma_calendar_retag(kw, mask, policy.keep_weekly->0 as int, i);
    } else if policy.keep_monthly is Some && calendar_tagged(km, policy.keep_monthly->0 as int, i) {
        lemma_calendar_retag(km, mask, policy.keep_monthly->0 as int, i);
    } else {
        assert(policy.keep_yearly matches Some(n) && calendar_tagged(ky, n as int, i));
        let n = policy.keep_yearly->0;
        lemma_calendar_retag(ky, mask, n as int, i);
    }
}

proof fn lemma_fp_same_mask(a: Seq<i128>, b: Seq<i128>, mask: Seq<bool>, i: int)
    requires
        0 <= i,
    ensures
        filtered_prefix(a, mask, i).len() == filtered_prefix(b, mask, i).len(),
    decreases i,
{
    if i > 0 {
        lemma_fp_same_mask(a, b, mask, i - 1);
    }
}

} // verus!
