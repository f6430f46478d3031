//! The cache record: a parse of the log kept together with the installed-set
//! fingerprint and log length it was made for, and the rule that decides
//! when it must be made again.
use crate::event::{status_of_tag, status_tag, EventTable, EventView, PackageEvent, Status};
use crate::parser::{parse_log_entries, parsed_events};
use vstd::prelude::*;

verus! {

/// What std's `DefaultHasher` makes of a sequence of package names.
pub uninterp spec fn default_hash_of(pkgs: Seq<Seq<char>>) -> u64;

/// The names of a list of packages, as character sequences.
pub open spec fn names_view(pkgs: Seq<String>) -> Seq<Seq<char>> {
    pkgs.map_values(|s: String| s@)
}

/// The fingerprint of an installed set, in the order the set was listed.
pub open spec fn fingerprint(pkgs: Seq<Seq<char>>) -> u64 {
    default_hash_of(pkgs)
}

/// Relies on `Hash for [String]` fed to a `DefaultHasher` from
/// `DefaultHasher::new`, whose keys are fixed: the result depends on the
/// names and their order alone.
#[verifier::external_body]
fn default_hash(pkgs: &[String]) -> (r: u64)
    ensures
        r == default_hash_of(names_view(pkgs@)),
{
    let mut hasher = std::collections::hash_map::DefaultHasher::new();
    std::hash::Hash::hash(pkgs, &mut hasher);
    std::hash::Hasher::finish(&hasher)
}

/// The fingerprint of the installed set `pkgs`.
pub fn calculate_pkg_hash(pkgs: &[String]) -> (r: u64)
    ensures
        r == fingerprint(names_view(pkgs@)),
{
    default_hash(pkgs)
}

/// Equal installed lists give equal fingerprints.
pub proof fn fingerprint_is_deterministic(a: Seq<String>, b: Seq<String>)
    requires
        names_view(a) == names_view(b),
    ensures
        fingerprint(names_view(a)) == fingerprint(names_view(b)),
{
}

/// A cache record as plain values: fingerprint, log length and events.
pub type CacheView = (u64, u64, Map<Seq<char>, EventView>);

/// A parse of the log with the fingerprint and log length it was made for.
pub struct CacheRecord {
    pub fingerprint: u64,
    pub log_len: u64,
    pub events: EventTable,
}

impl View for CacheRecord {
    type V = CacheView;

    open spec fn view(&self) -> CacheView {
        (self.fingerprint, self.log_len, self.events@)
    }
}

pub open spec fn cache_view(cached: Option<CacheRecord>) -> Option<CacheView> {
    match cached {
        Some(c) => Some(c@),
        None => None,
    }
}

/// A cached record must be made again when there is none, or when the
/// installed set or the log length differ from those it was made for.
pub open spec fn stale(cached: Option<CacheView>, fingerprint: u64, log_len: u64) -> bool {
    match cached {
        None => true,
        Some(c) => c.0 != fingerprint || c.1 != log_len,
    }
}

/// The record made from a fresh parse of `log`.
pub open spec fn rebuilt(fingerprint: u64, log_len: u64, log: Seq<u8>) -> CacheView {
    (fingerprint, log_len, parsed_events(log))
}

/// Whether `cached` must be made again for the current installed set and
/// log length.
pub fn is_stale(cached: &Option<CacheRecord>, fingerprint: u64, log_len: u64) -> (r: bool)
    ensures
        r == stale(cache_view(*cached), fingerprint, log_len),
{
    match cached {
        None => true,
        Some(c) => c.fingerprint != fingerprint || c.log_len != log_len,
    }
}

/// Parses the whole log afresh into a new record.
pub fn rebuild(fingerprint: u64, log_len: u64, log: &[u8]) -> (r: CacheRecord)
    ensures
        r.events.wf(),
        r@ == rebuilt(fingerprint, log_len, log@),
{
    CacheRecord { fingerprint, log_len, events: parse_log_entries(log) }
}

/// With the installed set and log length unchanged, the cached record is
/// used as it is and the log is not parsed.
pub proof fn unchanged_state_keeps_cache(c: CacheView, fingerprint: u64, log_len: u64)
    requires
        c.0 == fingerprint,
        c.1 == log_len,
    ensures
        !stale(Some(c), fingerprint, log_len),
{
}

/// When only the log length changed, the cached record is stale, and the
/// record rebuilt from the log is not: one parse and one write, then hits.
pub proof fn changed_log_reparses_once(
    c: CacheView,
    fingerprint: u64,
    log_len: u64,
    log: Seq<u8>,
)
    requires
        c.0 == fingerprint,
        c.1 != log_len,
    ensures
        stale(Some(c), fingerprint, log_len),
        !stale(Some(rebuilt(fingerprint, log_len, log)), fingerprint, log_len),
{
}

/// One event as it is written in the cache: name, date and status tag.
#[derive(Debug)]
pub struct StoredEvent {
    pub name: String,
    pub date: String,
    pub status: String,
}

pub type StoredView = (Seq<char>, Seq<char>, Seq<char>);

impl View for StoredEvent {
    type V = StoredView;

    open spec fn view(&self) -> StoredView {
        (self.name@, self.date@, self.status@)
    }
}

pub open spec fn stored_views(s: Seq<StoredEvent>) -> Seq<StoredView> {
    s.map_values(|e: StoredEvent| e@)
}

/// The events that stored entries give, later entries winning.
pub open spec fn stored_map(s: Seq<StoredView>) -> Map<Seq<char>, EventView>
    decreases s.len(),
{
    if s.len() == 0 {
        Map::empty()
    } else {
        let e = s.last();
        stored_map(s.drop_last()).insert(e.0, (e.1, status_of_tag(e.2)))
    }
}

/// The record that stored entries give.
pub open spec fn restored(fingerprint: u64, log_len: u64, s: Seq<StoredView>) -> CacheView {
    (fingerprint, log_len, stored_map(s))
}

proof fn lemma_tag_round_trip(st: Status)
    ensures
        status_of_tag(status_tag(st)) == st,
{
    assert(status_tag(Status::Installed) != status_tag(Status::Upgraded)) by {
        assert(status_tag(Status::Installed)[0] != status_tag(Status::Upgraded)[0]);
    }
    assert(status_tag(Status::Installed) != status_tag(Status::Removed)) by {
        assert(status_tag(Status::Installed)[0] != status_tag(Status::Removed)[0]);
    }
    assert(status_tag(Status::Upgraded) != status_tag(Status::Removed)) by {
        assert(status_tag(Status::Upgraded)[0] != status_tag(Status::Removed)[0]);
    }
    assert(status_tag(Status::Unknown) != status_tag(Status::Installed)) by {
        assert(status_tag(Status::Unknown)[0] != status_tag(Status::Installed)[0]);
    }
    assert(status_tag(Status::Unknown) != status_tag(Status::Upgraded)) by {
        assert(status_tag(Status::Unknown)[0] != status_tag(Status::Upgraded)[0]);
    }
    assert(status_tag(Status::Unknown) != status_tag(Status::Removed)) by {
        assert(status_tag(Status::Unknown)[1] != status_tag(Status::Removed)[1]);
    }
}

impl CacheRecord {
    /// The entries to write for this record, one per package.
    pub fn to_stored(&self) -> (r: Vec<StoredEvent>)
        requires
            self.events.wf(),
        ensures
            stored_map(stored_views(r@)) == self.events@,
    {
        let records = self.events.records();
        let ghost m = self.events@;
        let mut out: Vec<StoredEvent> = Vec::new();
        let mut i: usize = 0;
        while i < records.len()
            invariant
                i <= records@.len(),
                self.events.wf(),
                m == self.events@,
                forall|j: int|
                    0 <= j < records@.len() ==> m.contains_key(#[trigger] records@[j].name@)
                        && m[records@[j].name@] == records@[j].event@,
                forall|k: Seq<char>|
                    #[trigger] m.contains_key(k) ==> exists|j: int|
                        0 <= j < records@.len() && records@[j].name@ == k,
                stored_map(stored_views(out@)) == Map::new(
                    |k: Seq<char>| exists|j: int| 0 <= j < i && records@[j].name@ == k,
                    |k: Seq<char>| m[k],
                ),
            decreases records@.len() - i,
        {
            let rec = &records[i];
            let entry = StoredEvent {
                name: rec.name.clone(),
                date: rec.event.timestamp.clone(),
                status: rec.event.status.tag(),
            };
            let ghost before = stored_views(out@);
            out.push(entry);
            proof {
                lemma_tag_round_trip(rec.event.status);
                assert(stored_views(out@).drop_last() =~= before);
                let next = Map::new(
                    |k: Seq<char>| exists|j: int| 0 <= j < i + 1 && records@[j].name@ == k,
                    |k: Seq<char>| m[k],
                );
                let prev = Map::new(
                    |k: Seq<char>| exists|j: int| 0 <= j < i && records@[j].name@ == k,
                    |k: Seq<char>| m[k],
                );
                assert(next.contains_key(rec.name@));
                assert(stored_map(stored_views(out@)) =~= next);
            }
            i = i + 1;
        }
        proof {
            let all = Map::new(
                |k: Seq<char>| exists|j: int| 0 <= j < i && records@[j].name@ == k,
                |k: Seq<char>| m[k],
            );
            assert(all =~= m);
        }
        out
    }

    /// The record that stored entries give; of two entries with one name
    /// the later wins, and an unknown status tag reads as `Unknown`.
    pub fn from_stored(fingerprint: u64, log_len: u64, entries: &Vec<StoredEvent>) -> (r:
        CacheRecord)
        ensures
            r.events.wf(),
            r@ == restored(fingerprint, log_len, stored_views(entries@)),
    {
        let mut events = EventTable::new();
        let mut i: usize = 0;
        while i < entries.len()
            invariant
                i <= entries@.len(),
                events.wf(),
                events@ == stored_map(stored_views(entries@.subrange(0, i as int))),
            decreases entries@.len() - i,
        {
            let e = &entries[i];
            let status = Status::from_tag(&e.status);
            events.insert(e.name.clone(), PackageEvent::new(e.date.clone(), status));
            proof {
                assert(stored_views(entries@.subrange(0, i + 1)).drop_last() =~= stored_views(
                    entries@.subrange(0, i as int),
                ));
            }
            i = i + 1;
        }
        assert(entries@.subrange(0, i as int) =~= entries@);
        CacheRecord { fingerprint, log_len, events }
    }
}

/// Writing a record's entries and reading them back gives the same record.
pub proof fn stored_round_trip(c: CacheView, s: Seq<StoredView>)
    requires
        stored_map(s) == c.2,
    ensures
        restored(c.0, c.1, s) == c,
{
}

} // verus!
