//! Snapshot inventory.
//!
//! Directory entries come in as plain (name, is-directory) pairs; the scan
//! keeps the directories whose name starts with the snapshot prefix (the
//! self and parent pseudo-entries aside), demands that the rest of each such
//! name parse as a timestamp, silently sets aside entries dated after the
//! current instant, and hands back the records sorted most recent first,
//! together with every matching name so the caller can confirm each one is
//! a real subvolume.

use vstd::prelude::*;

use crate::Error;
use crate::retention::KeepTags;
use crate::retention::SnapshotRecord;
use crate::retention::all_untagged;
use crate::retention::all_wf;
use crate::retention::sorted_desc;
use crate::timefns::format_timestamp;
use crate::timefns::parse_timestamp_bytes;
use crate::timefns::parsed_instant_ns;
use crate::TS_MAX_NS;
use crate::TS_MIN_NS;
use crate::ts_in_range;

verus! {

/// One directory entry, as the caller enumerated it.
pub struct ScanEntry {
    pub name: Vec<u8>,
    pub is_dir: bool,
}

/// The entry is subject to the snapshot naming convention: a directory,
/// not the self or parent pseudo-entry, and named with the prefix.
pub open spec fn is_candidate(e: ScanEntry, prefix: Seq<u8>) -> bool {
    e.is_dir && e.name@ != seq![46u8] && e.name@ != seq![46u8, 46u8] && prefix.is_prefix_of(
        e.name@,
    )
}

/// The bytes after the prefix, which must spell the snapshot's timestamp.
pub open spec fn entry_suffix(e: ScanEntry, prefix: Seq<u8>) -> Seq<u8> {
    e.name@.skip(prefix.len() as int)
}

/// The entry enters the inventory: it follows the naming convention, its
/// suffix parses, and its instant is not in the future.
pub open spec fn is_selected(e: ScanEntry, prefix: Seq<u8>, now: int) -> bool {
    is_candidate(e, prefix) && (parsed_instant_ns(entry_suffix(e, prefix)) matches Some(t) && t
        <= now)
}

/// The (name, instant) pairs of the selected entries, in entry order.
pub open spec fn selected_pairs(entries: Seq<ScanEntry>, prefix: Seq<u8>, now: int) -> Seq<
    (Seq<u8>, int),
>
    decreases entries.len(),
{
    if entries.len() == 0 {
        Seq::empty()
    } else {
        let rest = selected_pairs(entries.drop_last(), prefix, now);
        let e = entries.last();
        if is_selected(e, prefix, now) {
            rest.push((e.name@, parsed_instant_ns(entry_suffix(e, prefix))->0))
        } else {
            rest
        }
    }
}

/// The names of the candidate entries, in entry order.
pub open spec fn candidate_names(entries: Seq<ScanEntry>, prefix: Seq<u8>) -> Seq<Seq<u8>>
    decreases entries.len(),
{
    if entries.len() == 0 {
        Seq::empty()
    } else {
        let rest = candidate_names(entries.drop_last(), prefix);
        let e = entries.last();
        if is_candidate(e, prefix) {
            rest.push(e.name@)
        } else {
            rest
        }
    }
}

/// A record's identity: its name and its instant.
pub open spec fn rec_pair(r: SnapshotRecord) -> (Seq<u8>, int) {
    (r.name@, r.time_ns as int)
}

/// Byte-for-byte copy of a name.
fn copy_bytes(v: &Vec<u8>) -> (r: Vec<u8>)
    ensures
        r@ == v@,
{
    let mut out: Vec<u8> = Vec::new();
    let mut i: usize = 0;
    while i < v.len()
        invariant
            0 <= i <= v@.len(),
            out@ == v@.take(i as int),
        decreases v@.len() - i,
    {
        out.push(v[i]);
        assert(out@ =~= v@.take(i + 1));
        i = i + 1;
    }
    assert(out@ =~= v@);
    out
}

/// Does `name` start with `prefix`?
fn starts_with(name: &Vec<u8>, prefix: &Vec<u8>) -> (r: bool)
    ensures
        r == prefix@.is_prefix_of(name@),
{
    if prefix.len() > name.len() {
        assert(!prefix@.is_prefix_of(name@));
        return false;
    }
    let mut i: usize = 0;
    while i < prefix.len()
        invariant
            0 <= i <= prefix@.len() <= name@.len(),
            forall|j: int| 0 <= j < i ==> prefix@[j] == name@[j],
        decreases prefix@.len() - i,
    {
        if prefix[i] != name[i] {
            assert(!prefix@.is_prefix_of(name@));
            return false;
        }
        i = i + 1;
    }
    assert(prefix@ =~= name@.take(prefix@.len() as int));
    true
}

/// Index of a record with the greatest instant.
fn max_time_index(v: &Vec<SnapshotRecord>) -> (r: usize)
    requires
        v@.len() > 0,
    ensures
        0 <= r < v@.len(),
        forall|j: int| 0 <= j < v@.len() ==> v@[r as int].time_ns >= v@[j].time_ns,
{
    let mut best: usize = 0;
    let mut i: usize = 1;
    while i < v.len()
        invariant
            0 <= best < v@.len(),
            1 <= i <= v@.len(),
            forall|j: int| 0 <= j < i ==> v@[best as int].time_ns >= v@[j].time_ns,
        decreases v@.len() - i,
    {
        if v[i].time_ns > v[best].time_ns {
            best = i;
        }
        i = i + 1;
    }
    best
}

/// Sorts records most recent first. The records (name and instant alike,
/// as a multiset, so equal instants keep their multiplicity) are exactly
/// those put in; records with equal instants may come out in any order.
pub fn sort_records_desc(records: Vec<SnapshotRecord>) -> (r: Vec<SnapshotRecord>)
    requires
        all_untagged(records@),
        all_wf(records@),
    ensures
        sorted_desc(r@),
        r@.len() == records@.len(),
        r@.map_values(|x: SnapshotRecord| rec_pair(x)).to_multiset() == records@.map_values(
            |x: SnapshotRecord| rec_pair(x),
        ).to_multiset(),
        all_untagged(r@),
        all_wf(r@),
{
    broadcast use vstd::seq_lib::group_to_multiset_ensures;
    broadcast use vstd::multiset::group_multiset_axioms;

    let ghost pair_of = |x: SnapshotRecord| rec_pair(x);
    let ghost orig = records@;
    let mut input = records;
    let mut out: Vec<SnapshotRecord> = Vec::new();
    while input.len() > 0
        invariant
            out@.len() + input@.len() == orig.len(),
            sorted_desc(out@),
            all_untagged(out@) && all_wf(out@),
            all_untagged(input@) && all_wf(input@),
            forall|i: int, j: int|
                0 <= i < out@.len() && 0 <= j < input@.len() ==> out@[i].time_ns
                    >= input@[j].time_ns,
            out@.map_values(pair_of).to_multiset().add(input@.map_values(pair_of).to_multiset())
                == orig.map_values(pair_of).to_multiset(),
        decreases input@.len(),
    {
        let ghost mapped_out = out@.map_values(pair_of);
        let ghost in0 = input@;
        let ghost mapped_in = in0.map_values(pair_of);
        let m = max_time_index(&input);
        let ghost gm = m as int;
        let rec = input.remove(m);
        out.push(rec);
        proof {
            in0.remove_ensures(gm);
            assert(rec == in0[gm]);
            mapped_out.to_multiset_ensures();
            mapped_in.to_multiset_ensures();
            assert(all_wf(input@));
            assert(all_untagged(input@));
            assert(out@.map_values(pair_of) =~= mapped_out.push(pair_of(rec)));
            assert(input@.map_values(pair_of) =~= mapped_in.remove(gm));
            assert(mapped_in[gm] == pair_of(rec));
            assert(mapped_in.contains(pair_of(rec)));
            assert(mapped_in.to_multiset().count(pair_of(rec)) > 0);
            assert(mapped_out.push(pair_of(rec)).to_multiset() == mapped_out.to_multiset().insert(
                pair_of(rec),
            ));
            assert(mapped_in.remove(gm).to_multiset() == mapped_in.to_multiset().remove(
                pair_of(rec),
            ));
            assert(out@.map_values(pair_of).to_multiset().add(
                input@.map_values(pair_of).to_multiset(),
            ) =~= mapped_out.to_multiset().add(mapped_in.to_multiset()));
        }
    }
    out
}

/// The bytes of `name` from `start` on.
fn suffix_from(name: &Vec<u8>, start: usize) -> (r: Vec<u8>)
    requires
        start <= name@.len(),
    ensures
        r@ == name@.skip(start as int),
{
    let mut out: Vec<u8> = Vec::new();
    let mut k: usize = start;
    while k < name.len()
        invariant
            start <= k <= name@.len(),
            out@ == name@.subrange(start as int, k as int),
        decreases name@.len() - k,
    {
        out.push(name[k]);
        assert(out@ =~= name@.subrange(start as int, k + 1));
        k = k + 1;
    }
    assert(out@ =~= name@.skip(start as int));
    out
}

/// Scans a directory listing into the snapshot inventory. Keeps the
/// directories (pseudo-entries aside) named with the prefix; each such
/// name's remainder must parse as a timestamp, else the scan fails naming
/// the entry (a prefix match with an unparseable rest is a naming
/// collision, not absence). Entries dated after `now_ns` are set aside:
/// they enter neither the records nor, downstream, any keep or delete set.
/// Returns the records sorted most recent first, and the name of every
/// candidate so the caller can confirm each is a real subvolume.
pub fn scan_entries(entries: &Vec<ScanEntry>, prefix: &Vec<u8>, now_ns: i128) -> (r: Result<
    (Vec<SnapshotRecord>, Vec<Vec<u8>>),
    Error,
>)
    requires
        ts_in_range(now_ns as int),
    ensures
        r is Ok <==> (forall|i: int|
            0 <= i < entries@.len() && is_candidate(#[trigger] entries@[i], prefix@)
                ==> parsed_instant_ns(entry_suffix(entries@[i], prefix@)) is Some),
        r matches Ok(p) ==> {
            &&& sorted_desc(p.0@)
            &&& all_untagged(p.0@)
            &&& all_wf(p.0@)
            &&& p.0@.map_values(|x: SnapshotRecord| rec_pair(x)).to_multiset() == selected_pairs(
                entries@,
                prefix@,
                now_ns as int,
            ).to_multiset()
            &&& p.1@.map_values(|v: Vec<u8>| v@) == candidate_names(entries@, prefix@)
        },
        r matches Err(e) ==> (e matches Error::ParseFailure { name } && exists|i: int|
            0 <= i < entries@.len() && (#[trigger] entries@[i]).name@ == name@ && is_candidate(
                entries@[i],
                prefix@,
            ) && parsed_instant_ns(entry_suffix(entries@[i], prefix@)) is None),
{
    let mut recs: Vec<SnapshotRecord> = Vec::new();
    let mut cands: Vec<Vec<u8>> = Vec::new();
    let n = entries.len();
    let mut j: usize = 0;
    while j < n
        invariant
            0 <= j <= n == entries@.len(),
            ts_in_range(now_ns as int),
            recs@.map_values(|x: SnapshotRecord| rec_pair(x)) == selected_pairs(
                entries@.take(j as int),
                prefix@,
                now_ns as int,
            ),
            cands@.map_values(|v: Vec<u8>| v@) == candidate_names(entries@.take(j as int), prefix@),
            all_untagged(recs@),
            all_wf(recs@),
            forall|k: int|
                0 <= k < j && is_candidate(#[trigger] entries@[k], prefix@) ==> parsed_instant_ns(
                    entry_suffix(entries@[k], prefix@),
                ) is Some,
        decreases n - j,
    {
        let ghost gj = j as int;
        let ghost mapped_recs = recs@.map_values(|x: SnapshotRecord| rec_pair(x));
        let ghost mapped_cands = cands@.map_values(|v: Vec<u8>| v@);
        proof {
            assert(entries@.take(gj + 1).drop_last() =~= entries@.take(gj));
            assert(entries@.take(gj + 1).last() == entries@[gj]);
        }
        let name_len = entries[j].name.len();
        let is_dot = (name_len == 1 && entries[j].name[0] == 46) || (name_len == 2
            && entries[j].name[0] == 46 && entries[j].name[1] == 46);
        proof {
            if is_dot {
                if entries@[gj].name@.len() == 1 {
                    assert(entries@[gj].name@ =~= seq![46u8]);
                } else {
                    assert(entries@[gj].name@ =~= seq![46u8, 46u8]);
                }
            }
        }
        let cand = entries[j].is_dir && !is_dot && starts_with(&entries[j].name, prefix);
        assert(cand == is_candidate(entries@[gj], prefix@));
        if cand {
            cands.push(copy_bytes(&entries[j].name));
            assert(cands@.map_values(|v: Vec<u8>| v@) =~= mapped_cands.push(entries@[gj].name@));
            let suffix = suffix_from(&entries[j].name, prefix.len());
            assert(suffix@ == entry_suffix(entries@[gj], prefix@));
            match parse_timestamp_bytes(&suffix) {
                None => {
                    let bad = copy_bytes(&entries[j].name);
                    proof {
                        assert(exists|k: int|
                            0 <= k < entries@.len() && (#[trigger] entries@[k]).name@ == bad@
                                && is_candidate(entries@[k], prefix@) && parsed_instant_ns(
                                entry_suffix(entries@[k], prefix@),
                            ) is None);
                    }
                    return Err(Error::ParseFailure { name: bad });
                },
                Some(t) => {
                    if t <= now_ns {
                        let rec = SnapshotRecord {
                            name: copy_bytes(&entries[j].name),
                            time_ns: t,
                            tags: KeepTags::new(),
                        };
                        recs.push(rec);
                        assert(recs@.map_values(|x: SnapshotRecord| rec_pair(x))
                            =~= mapped_recs.push(rec_pair(rec)));
                    }
                },
            }
        }
        j = j + 1;
    }
    proof {
        assert(entries@.take(n as int) =~= entries@);
    }
    let sorted = sort_records_desc(recs);
    Ok((sorted, cands))
}

/// The instant a snapshot name denotes under a prefix: the name must start
/// with the prefix, and what follows must spell a timestamp.
pub open spec fn spec_parse_name(name: Seq<u8>, prefix: Seq<u8>) -> Option<int> {
    if prefix.is_prefix_of(name) {
        parsed_instant_ns(name.skip(prefix.len() as int))
    } else {
        None
    }
}

/// Parses a snapshot name: strips the prefix and reads the timestamp after
/// it. `None` when the prefix does not match or the rest does not parse.
pub fn parse_snapshot_name(name: &Vec<u8>, prefix: &Vec<u8>) -> (r: Option<i128>)
    ensures
        r is Some <==> spec_parse_name(name@, prefix@) is Some,
        r matches Some(v) ==> spec_parse_name(name@, prefix@) == Some(v as int) && ts_in_range(
            v as int,
        ),
{
    if !starts_with(name, prefix) {
        return None;
    }
    let suffix = suffix_from(name, prefix.len());
    parse_timestamp_bytes(&suffix)
}

/// Joins the prefix with the text of a formatted instant into a snapshot
/// name, accepting the text only if it reads back as exactly `time_ns`: the
/// round trip is checked here, in verified code, not assumed of the
/// formatter. `Some` iff the text denotes `time_ns`; the name is then the
/// prefix followed by the text, and parsing it under the same prefix
/// recovers `time_ns`.
pub fn compose_snapshot_name(prefix: &Vec<u8>, formatted: &Vec<u8>, time_ns: i128) -> (r: Option<
    Vec<u8>,
>)
    ensures
        r is Some <==> parsed_instant_ns(formatted@) == Some(time_ns as int),
        r matches Some(name) ==> name@ == prefix@ + formatted@ && name@.len() == prefix@.len()
            + formatted@.len() && spec_parse_name(name@, prefix@) == Some(time_ns as int),
{
    match parse_timestamp_bytes(formatted) {
        None => None,
        Some(v) => {
            if v != time_ns {
                return None;
            }
            let mut name = copy_bytes(prefix);
            let mut k: usize = 0;
            while k < formatted.len()
                invariant
                    0 <= k <= formatted@.len(),
                    name@ == prefix@ + formatted@.take(k as int),
                decreases formatted@.len() - k,
            {
                name.push(formatted[k]);
                assert(name@ =~= prefix@ + formatted@.take(k + 1));
                k = k + 1;
            }
            assert(name@ =~= prefix@ + formatted@);
            proof {
                assert(name@.take(prefix@.len() as int) =~= prefix@);
                assert(name@.skip(prefix@.len() as int) =~= formatted@);
            }
            Some(name)
        },
    }
}

/// Builds a snapshot's directory name: the prefix followed by the formatted
/// current instant. The formatter's text is re-parsed and checked by
/// `compose_snapshot_name`, so a returned name provably parses back to the
/// very same instant under the same prefix. `None` for instants outside the
/// representable range, or should the system zone's text not denote the
/// instant exactly.
pub fn make_snapshot_name(prefix: &Vec<u8>, time_ns: i128) -> (r: Option<Vec<u8>>)
    ensures
        r matches Some(name) ==> name@.len() > prefix@.len() && spec_parse_name(name@, prefix@)
            == Some(time_ns as int),
        !ts_in_range(time_ns as int) ==> r is None,
{
    if time_ns < TS_MIN_NS || time_ns > TS_MAX_NS {
        return None;
    }
    let formatted = format_timestamp(time_ns);
    compose_snapshot_name(prefix, &formatted, time_ns)
}

} // verus!
