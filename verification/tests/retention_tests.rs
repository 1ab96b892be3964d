use snapkeep::Error;
use snapkeep::retention::CalendarUnit;
use snapkeep::retention::KeepTags;
use snapkeep::retention::RetentionPolicy;
use snapkeep::retention::SnapshotRecord;
use snapkeep::retention::apply_calendar;
use snapkeep::retention::compute_bucket_keys;
use snapkeep::retention::apply_keep_last;
use snapkeep::retention::apply_keep_within;
use snapkeep::retention::plan_prune;
use snapkeep::retention::split_plan;

const H: i128 = 3_600_000_000_000;

fn ns(s: &str) -> i128 {
    s.parse::<jiff::Timestamp>().unwrap().as_nanosecond()
}

fn rec(name: &str, t: i128) -> SnapshotRecord {
    SnapshotRecord { name: name.as_bytes().to_vec(), time_ns: t, tags: KeepTags::new() }
}

fn policy_none() -> RetentionPolicy {
    RetentionPolicy {
        keep_last: None,
        keep_within_ns: None,
        keep_hourly: None,
        keep_daily: None,
        keep_weekly: None,
        keep_monthly: None,
        keep_yearly: None,
    }
}

fn names(v: &[SnapshotRecord]) -> Vec<String> {
    v.iter().map(|r| String::from_utf8(r.name.clone()).unwrap()).collect()
}

#[test]
fn scenario_hourly_daily() {
    // Records one, twenty-five and forty-nine hours old; keep one hourly
    // bucket and two daily buckets.
    let now = ns("2024-06-15T12:00:00Z");
    let records = vec![rec("a", now - H), rec("b", now - 25 * H), rec("c", now - 49 * H)];
    let mut policy = policy_none();
    policy.keep_hourly = Some(1);
    policy.keep_daily = Some(2);
    let out = plan_prune(records, &policy, now).unwrap();
    assert!(out[0].tags.hourly);
    assert!(out[0].tags.daily);
    assert!(!out[1].tags.hourly);
    assert!(out[1].tags.daily);
    assert!(!out[2].tags.hourly);
    assert!(!out[2].tags.daily);
    let (keep, delete) = split_plan(out);
    assert_eq!(names(&keep), vec!["a", "b"]);
    assert_eq!(names(&delete), vec!["c"]);
}

#[test]
fn scenario_within_only() {
    // Records ten and fifty hours old; keep a forty-eight hour window.
    let now = ns("2024-06-15T12:00:00Z");
    let records = vec![rec("young", now - 10 * H), rec("old", now - 50 * H)];
    let mut policy = policy_none();
    policy.keep_within_ns = Some(48 * H);
    let out = plan_prune(records, &policy, now).unwrap();
    let (keep, delete) = split_plan(out);
    assert_eq!(names(&keep), vec!["young"]);
    assert_eq!(names(&delete), vec!["old"]);
}

#[test]
fn keep_last_tags_min_of_n_and_count() {
    let now = ns("2024-06-15T12:00:00Z");
    let records = vec![rec("a", now - H), rec("b", now - 2 * H), rec("c", now - 3 * H)];
    let mut policy = policy_none();
    policy.keep_last = Some(2);
    let out = plan_prune(records, &policy, now).unwrap();
    let tagged: Vec<bool> = out.iter().map(|r| r.tags.last).collect();
    assert_eq!(tagged, vec![true, true, false]);

    let records = vec![rec("a", now - H), rec("b", now - 2 * H)];
    let mut policy = policy_none();
    policy.keep_last = Some(5);
    let out = plan_prune(records, &policy, now).unwrap();
    assert_eq!(out.iter().filter(|r| r.tags.last).count(), 2);
}

#[test]
fn keep_within_boundary_is_inclusive() {
    let now = ns("2024-06-15T12:00:00Z");
    let records = vec![rec("edge", now - 48 * H), rec("past", now - 48 * H - 1)];
    let mut policy = policy_none();
    policy.keep_within_ns = Some(48 * H);
    let out = plan_prune(records, &policy, now).unwrap();
    assert!(out[0].tags.within);
    assert!(!out[1].tags.within);
}

#[test]
fn keep_daily_one_record_per_day() {
    // Two records in the same local day and one two days earlier: the
    // daily rule tags the most recent record of each of the two most
    // recent days with records.
    let now = ns("2024-06-11T12:00:00Z");
    let records = vec![
        rec("d1-late", ns("2024-06-10T12:30:00Z")),
        rec("d1-early", ns("2024-06-10T12:00:00Z")),
        rec("d2", ns("2024-06-08T12:00:00Z")),
    ];
    let mut policy = policy_none();
    policy.keep_daily = Some(2);
    let out = plan_prune(records, &policy, now).unwrap();
    assert!(out[0].tags.daily);
    assert!(!out[1].tags.daily);
    assert!(out[2].tags.daily);
    let (keep, delete) = split_plan(out);
    assert_eq!(names(&keep), vec!["d1-late", "d2"]);
    assert_eq!(names(&delete), vec!["d1-early"]);
}

#[test]
fn prune_twice_deletes_nothing_second_time() {
    let now = ns("2024-06-15T12:00:00Z");
    let records = vec![
        rec("a", now - H),
        rec("b", now - 20 * H),
        rec("c", now - 30 * H),
        rec("d", now - 60 * H),
        rec("e", now - 100 * H),
    ];
    let mut policy = policy_none();
    policy.keep_last = Some(1);
    policy.keep_within_ns = Some(36 * H);
    policy.keep_daily = Some(2);
    let out = plan_prune(records, &policy, now).unwrap();
    let (keep, _delete) = split_plan(out);

    let again: Vec<SnapshotRecord> = keep
        .iter()
        .map(|r| SnapshotRecord {
            name: r.name.clone(),
            time_ns: r.time_ns,
            tags: KeepTags::new(),
        })
        .collect();
    let out2 = plan_prune(again, &policy, now).unwrap();
    let (keep2, delete2) = split_plan(out2);
    assert_eq!(names(&keep2), names(&keep));
    assert!(delete2.is_empty());
}

#[test]
fn policy_without_rules_is_rejected() {
    let now = ns("2024-06-15T12:00:00Z");
    let policy = policy_none();
    assert!(!policy.is_valid());
    let r = plan_prune(vec![rec("a", now - H)], &policy, now);
    assert!(matches!(r, Err(Error::InvalidInput)));
}

#[test]
fn policy_with_any_rule_is_valid() {
    let mut policy = policy_none();
    policy.keep_monthly = Some(3);
    assert!(policy.is_valid());
}

#[test]
fn non_positive_window_is_rejected() {
    let now = ns("2024-06-15T12:00:00Z");
    let mut policy = policy_none();
    policy.keep_within_ns = Some(0);
    let r = plan_prune(vec![rec("a", now - H)], &policy, now);
    assert!(matches!(r, Err(Error::InvalidInput)));
}

#[test]
fn zero_count_is_rejected() {
    let now = ns("2024-06-15T12:00:00Z");
    let mut policy = policy_none();
    policy.keep_last = Some(0);
    let r = plan_prune(vec![rec("a", now - H)], &policy, now);
    assert!(matches!(r, Err(Error::InvalidInput)));
}

#[test]
fn keep_and_delete_partition_the_inventory() {
    let now = ns("2024-06-15T12:00:00Z");
    let records = vec![
        rec("a", now - H),
        rec("b", now - 30 * H),
        rec("c", now - 60 * H),
        rec("d", now - 90 * H),
    ];
    let mut policy = policy_none();
    policy.keep_last = Some(2);
    let out = plan_prune(records, &policy, now).unwrap();
    let (keep, delete) = split_plan(out);
    assert_eq!(keep.len() + delete.len(), 4);
    assert!(!keep.is_empty());
    for k in &keep {
        assert!(!delete.iter().any(|d| d.name == k.name));
    }
    let mut all = names(&keep);
    all.extend(names(&delete));
    all.sort();
    assert_eq!(all, vec!["a", "b", "c", "d"]);
}

#[test]
fn empty_inventory_plans_to_nothing() {
    let now = ns("2024-06-15T12:00:00Z");
    let mut policy = policy_none();
    policy.keep_last = Some(1);
    let out = plan_prune(Vec::new(), &policy, now).unwrap();
    let (keep, delete) = split_plan(out);
    assert!(keep.is_empty());
    assert!(delete.is_empty());
}

#[test]
fn calendar_walk_tags_first_of_each_new_bucket() {
    let now = ns("2024-06-15T12:00:00Z");
    let records = vec![
        rec("a", now - H),
        rec("b", now - 2 * H),
        rec("c", now - 3 * H),
        rec("d", now - 4 * H),
        rec("e", now - 5 * H),
    ];
    let keys: Vec<i128> = vec![5, 5, 3, 3, 2];
    let out = apply_calendar(records, &keys, 2, CalendarUnit::Day);
    let tagged: Vec<bool> = out.iter().map(|r| r.tags.daily).collect();
    assert_eq!(tagged, vec![true, false, true, false, false]);
}

#[test]
fn rounding_past_the_range_edge_fails() {
    // The last representable instant falls in the final days of year 9999;
    // the next Monday after it lies beyond the calendar, in every zone.
    let records = vec![SnapshotRecord {
        name: b"x".to_vec(),
        time_ns: snapkeep::TS_MAX_NS,
        tags: KeepTags::new(),
    }];
    let r = compute_bucket_keys(&records, CalendarUnit::Week);
    assert!(matches!(r, Err(Error::CalendarOverflow { .. })));
}

#[test]
fn no_records_need_no_rounding() {
    let r = compute_bucket_keys(&Vec::new(), CalendarUnit::Week);
    assert_eq!(r.unwrap().len(), 0);
}

#[test]
fn rules_are_additive_and_independent() {
    let now = ns("2024-06-15T12:00:00Z");
    let records = vec![rec("a", now - H), rec("b", now - 2 * H)];
    let within = apply_keep_within(records, now - 90 * 60 * 1_000_000_000);
    assert!(within[0].tags.within);
    assert!(!within[1].tags.within);
    let both = apply_keep_last(within, 2);
    assert!(both[0].tags.within && both[0].tags.last);
    assert!(!both[1].tags.within && both[1].tags.last);
}
