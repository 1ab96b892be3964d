use snapkeep::Error;
use snapkeep::inventory::ScanEntry;
use snapkeep::inventory::compose_snapshot_name;
use snapkeep::inventory::make_snapshot_name;
use snapkeep::inventory::parse_snapshot_name;
use snapkeep::inventory::scan_entries;
use snapkeep::inventory::sort_records_desc;
use snapkeep::retention::KeepTags;
use snapkeep::retention::SnapshotRecord;

fn ns(s: &str) -> i128 {
    s.parse::<jiff::Timestamp>().unwrap().as_nanosecond()
}

fn dir(name: &str) -> ScanEntry {
    ScanEntry { name: name.as_bytes().to_vec(), is_dir: true }
}

fn file(name: &str) -> ScanEntry {
    ScanEntry { name: name.as_bytes().to_vec(), is_dir: false }
}

#[test]
fn name_round_trips_through_format_and_parse() {
    let prefix = b"snap-".to_vec();
    let t: i128 = 1_717_000_000_123_456_789;
    let name = make_snapshot_name(&prefix, t).unwrap();
    assert_eq!(parse_snapshot_name(&name, &prefix), Some(t));
    // The suffix is a timestamp jiff itself reads back to the instant.
    let text = String::from_utf8(name[prefix.len()..].to_vec()).unwrap();
    assert_eq!(text.parse::<jiff::Timestamp>().unwrap().as_nanosecond(), t);
}

#[test]
fn out_of_range_instant_has_no_name() {
    assert_eq!(make_snapshot_name(&b"snap-".to_vec(), snapkeep::TS_MAX_NS + 1), None);
    assert_eq!(make_snapshot_name(&b"snap-".to_vec(), i128::MIN / 2), None);
}

#[test]
fn compose_accepts_only_text_denoting_the_instant() {
    let formatted = b"2024-01-01T00:00:00Z".to_vec();
    let t = 1_704_067_200_000_000_000i128;
    let name = compose_snapshot_name(&b"snap-".to_vec(), &formatted, t).unwrap();
    assert_eq!(name, b"snap-2024-01-01T00:00:00Z".to_vec());
    // Text denoting a different instant, or no instant, is refused.
    assert_eq!(compose_snapshot_name(&b"snap-".to_vec(), &formatted, t + 1), None);
    assert_eq!(compose_snapshot_name(&b"snap-".to_vec(), &b"not a time".to_vec(), t), None);
}

#[test]
fn fixed_name_parses_to_known_instant() {
    let name = b"snap-2024-01-01T00:00:00+00:00".to_vec();
    let v = parse_snapshot_name(&name, &b"snap-".to_vec()).unwrap();
    assert_eq!(v, 1_704_067_200_000_000_000);
    assert_eq!(v, ns("2024-01-01T00:00:00Z"));
}

#[test]
fn other_prefix_does_not_match() {
    let name = b"snap-2024-01-01T00:00:00+00:00".to_vec();
    assert_eq!(parse_snapshot_name(&name, &b"other-".to_vec()), None);
    // Under the other prefix the entry is no candidate at all: it reaches
    // neither the records nor the validation list.
    let entries = vec![dir("snap-2024-01-01T00:00:00+00:00")];
    let now = ns("2024-06-15T12:00:00Z");
    let (records, candidates) = scan_entries(&entries, &b"other-".to_vec(), now).unwrap();
    assert!(records.is_empty());
    assert!(candidates.is_empty());
}

#[test]
fn scan_sorts_most_recent_first() {
    let now = ns("2024-06-15T12:00:00Z");
    let entries = vec![
        dir("snap-2024-03-01T00:00:00Z"),
        dir("snap-2024-05-01T00:00:00Z"),
        dir("snap-2024-04-01T00:00:00Z"),
    ];
    let (records, candidates) = scan_entries(&entries, &b"snap-".to_vec(), now).unwrap();
    let times: Vec<i128> = records.iter().map(|r| r.time_ns).collect();
    assert_eq!(
        times,
        vec![
            ns("2024-05-01T00:00:00Z"),
            ns("2024-04-01T00:00:00Z"),
            ns("2024-03-01T00:00:00Z"),
        ]
    );
    // Validation candidates stay in directory order.
    assert_eq!(candidates.len(), 3);
    assert_eq!(candidates[0], b"snap-2024-03-01T00:00:00Z".to_vec());
}

#[test]
fn scan_skips_files_dots_and_other_names() {
    let now = ns("2024-06-15T12:00:00Z");
    let entries = vec![
        dir("."),
        dir(".."),
        file("snap-2024-05-01T00:00:00Z"),
        dir("unrelated"),
        dir("snap-2024-04-01T00:00:00Z"),
    ];
    let (records, candidates) = scan_entries(&entries, &b"snap-".to_vec(), now).unwrap();
    assert_eq!(records.len(), 1);
    assert_eq!(records[0].name, b"snap-2024-04-01T00:00:00Z".to_vec());
    assert_eq!(candidates.len(), 1);
}

#[test]
fn scan_sets_future_entries_aside() {
    let now = ns("2024-06-15T12:00:00Z");
    let entries = vec![
        dir("snap-2024-06-01T00:00:00Z"),
        dir("snap-2030-01-01T00:00:00Z"),
    ];
    let (records, candidates) = scan_entries(&entries, &b"snap-".to_vec(), now).unwrap();
    // The future-dated entry is invisible to retention, but still has to
    // prove it is a subvolume.
    assert_eq!(records.len(), 1);
    assert_eq!(records[0].time_ns, ns("2024-06-01T00:00:00Z"));
    assert_eq!(candidates.len(), 2);
}

#[test]
fn prefix_match_with_unparseable_rest_is_an_error() {
    let now = ns("2024-06-15T12:00:00Z");
    let entries = vec![dir("snap-2024-05-01T00:00:00Z"), dir("snap-hello")];
    let r = scan_entries(&entries, &b"snap-".to_vec(), now);
    match r {
        Err(Error::ParseFailure { name }) => assert_eq!(name, b"snap-hello".to_vec()),
        other => panic!("expected a parse failure, got {:?}", other.is_ok()),
    }
}

#[test]
fn scan_keeps_records_untagged() {
    let now = ns("2024-06-15T12:00:00Z");
    let entries = vec![dir("snap-2024-05-01T00:00:00Z")];
    let (records, _) = scan_entries(&entries, &b"snap-".to_vec(), now).unwrap();
    assert!(!records[0].tags.within);
    assert!(!records[0].tags.last);
    assert!(!records[0].tags.daily);
}

#[test]
fn sort_orders_and_keeps_duplicates() {
    let mk = |name: &str, t: i128| SnapshotRecord {
        name: name.as_bytes().to_vec(),
        time_ns: t,
        tags: KeepTags::new(),
    };
    let records = vec![mk("a", 5), mk("b", 9), mk("c", 5), mk("d", 7)];
    let sorted = sort_records_desc(records);
    let times: Vec<i128> = sorted.iter().map(|r| r.time_ns).collect();
    assert_eq!(times, vec![9, 7, 5, 5]);
    let mut names: Vec<Vec<u8>> = sorted.iter().map(|r| r.name.clone()).collect();
    names.sort();
    assert_eq!(names, vec![b"a".to_vec(), b"b".to_vec(), b"c".to_vec(), b"d".to_vec()]);
}

#[test]
fn empty_prefix_accepts_bare_timestamps() {
    let now = ns("2024-06-15T12:00:00Z");
    let entries = vec![dir("2024-05-01T00:00:00Z"), dir("notatime")];
    let r = scan_entries(&entries, &Vec::new(), now);
    // With an empty prefix every directory must parse; "notatime" is a
    // naming collision.
    assert!(matches!(r, Err(Error::ParseFailure { .. })));
}
