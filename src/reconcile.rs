//! Merging the recorded history with the installed set into one timeline.
use crate::cache::names_view;
use crate::event::{status_tag, EventTable, EventView, PackageEvent, Status};
use crate::text::{lemma_text_le_total, lemma_text_le_transitive, str_le, text_le};
use vstd::prelude::*;

verus! {

/// The timestamp given to an installed package with no recorded history;
/// it sorts before every real timestamp.
pub open spec fn never_logged() -> Seq<char> {
    "0000-00-00T00:00:00+0000"@
}

/// One line of the timeline.
#[derive(Debug)]
pub struct ReconciledEntry {
    pub name: String,
    pub timestamp: String,
    pub status: Status,
}

/// Every recorded package, and every installed package: the recorded event
/// where there is one, else an install at the never-logged time.
pub open spec fn reconciled(events: Map<Seq<char>, EventView>, installed: Seq<Seq<char>>) -> Map<
    Seq<char>,
    EventView,
> {
    Map::new(
        |k: Seq<char>| events.contains_key(k) || installed.contains(k),
        |k: Seq<char>|
            if events.contains_key(k) {
                events[k]
            } else {
                (never_logged(), Status::Installed)
            },
    )
}

/// A package that is installed and has a recorded event keeps that event:
/// the never-logged default never replaces history.
pub proof fn history_wins_over_default(
    events: Map<Seq<char>, EventView>,
    installed: Seq<Seq<char>>,
    name: Seq<char>,
)
    requires
        events.contains_key(name),
        installed.contains(name),
    ensures
        reconciled(events, installed).contains_key(name),
        reconciled(events, installed)[name] == events[name],
{
}

/// A removed package that is no longer installed stays in the timeline
/// with its removal and its date.
pub proof fn removal_outlives_uninstall(
    events: Map<Seq<char>, EventView>,
    installed: Seq<Seq<char>>,
    name: Seq<char>,
)
    requires
        events.contains_key(name),
        events[name].1 == Status::Removed,
        !installed.contains(name),
    ensures
        reconciled(events, installed).contains_key(name),
        reconciled(events, installed)[name] == events[name],
        reconciled(events, installed)[name].1 == Status::Removed,
{
}

pub open spec fn sorted_by_time(s: Seq<ReconciledEntry>) -> bool {
    forall|i: int, j: int|
        0 <= i < j < s.len() ==> text_le(#[trigger] s[i].timestamp@, #[trigger] s[j].timestamp@)
}

pub open spec fn distinct_names(s: Seq<ReconciledEntry>) -> bool {
    forall|i: int, j: int|
        0 <= i < s.len() && 0 <= j < s.len() && i != j ==> #[trigger] s[i].name@
            != #[trigger] s[j].name@
}

/// `s` lists exactly the packages of `m`, each once, with its event.
pub open spec fn lists_exactly(s: Seq<ReconciledEntry>, m: Map<Seq<char>, EventView>) -> bool {
    &&& distinct_names(s)
    &&& forall|i: int|
        0 <= i < s.len() ==> m.contains_key(#[trigger] s[i].name@) && m[s[i].name@] == (
        s[i].timestamp@,
        s[i].status,
    )
    &&& forall|k: Seq<char>|
        #[trigger] m.contains_key(k) ==> exists|i: int| 0 <= i < s.len() && s[i].name@ == k
}

pub open spec fn occurs_in(x: ReconciledEntry, s: Seq<ReconciledEntry>) -> bool {
    exists|j: int| 0 <= j < s.len() && s[j] == x
}

fn copy_entry(e: &ReconciledEntry) -> (r: ReconciledEntry)
    ensures
        r == *e,
{
    ReconciledEntry { name: e.name.clone(), timestamp: e.timestamp.clone(), status: e.status }
}

/// `perm` and `inv` are inverse bijections between the positions of `r`
/// and those of `v`, with each entry of `r` the entry of `v` it maps to.
proof fn lemma_permuted(
    v: Seq<ReconciledEntry>,
    r: Seq<ReconciledEntry>,
    perm: Seq<int>,
    inv: Seq<int>,
)
    requires
        r.len() == v.len(),
        perm.len() == v.len(),
        inv.len() == v.len(),
        forall|p: int| 0 <= p < r.len() ==> 0 <= #[trigger] perm[p] < r.len() && r[p] == v[perm[p]],
        forall|j: int| 0 <= j < r.len() ==> 0 <= #[trigger] inv[j] < r.len() && perm[inv[j]] == j,
        forall|p: int| 0 <= p < r.len() ==> #[trigger] inv[perm[p]] == p,
    ensures
        forall|p: int| 0 <= p < r.len() ==> occurs_in(#[trigger] r[p], v),
        forall|j: int| 0 <= j < v.len() ==> occurs_in(#[trigger] v[j], r),
        distinct_names(v) ==> distinct_names(r),
{
    assert forall|p: int| 0 <= p < r.len() implies occurs_in(#[trigger] r[p], v) by {
        let j = perm[p];
        assert(0 <= j < v.len() && r[p] == v[j]);
    }
    assert forall|j: int| 0 <= j < v.len() implies occurs_in(#[trigger] v[j], r) by {
        let p = inv[j];
        assert(0 <= p < r.len() && r[p] == v[perm[p]]);
    }
    if distinct_names(v) {
        assert forall|a: int, b: int|
            0 <= a < r.len() && 0 <= b < r.len() && a != b implies #[trigger] r[a].name@
            != #[trigger] r[b].name@ by {
            assert(inv[perm[a]] == a && inv[perm[b]] == b);
        }
    }
}

/// Orders entries by timestamp; entries with equal timestamps keep their
/// relative order.
fn sort_by_time(v: &Vec<ReconciledEntry>) -> (r: Vec<ReconciledEntry>)
    ensures
        r@.len() == v@.len(),
        sorted_by_time(r@),
        forall|p: int| 0 <= p < r@.len() ==> occurs_in(#[trigger] r@[p], v@),
        forall|j: int| 0 <= j < v@.len() ==> occurs_in(#[trigger] v@[j], r@),
        distinct_names(v@) ==> distinct_names(r@),
{
    let mut out: Vec<ReconciledEntry> = Vec::new();
    let ghost mut perm: Seq<int> = Seq::empty();
    let ghost mut inv: Seq<int> = Seq::empty();
    let mut i: usize = 0;
    while i < v.len()
        invariant
            i <= v@.len(),
            out@.len() == i,
            perm.len() == i,
            inv.len() == i,
            forall|p: int| 0 <= p < i ==> 0 <= #[trigger] perm[p] < i && out@[p] == v@[perm[p]],
            forall|j: int| 0 <= j < i ==> 0 <= #[trigger] inv[j] < i && perm[inv[j]] == j,
            forall|p: int| 0 <= p < i ==> #[trigger] inv[perm[p]] == p,
            sorted_by_time(out@),
        decreases v@.len() - i,
    {
        let x = copy_entry(&v[i]);
        let mut p = out.len();
        while p > 0 && !str_le(out[p - 1].timestamp.as_str(), x.timestamp.as_str())
            invariant
                p <= out@.len(),
                forall|q: int| p <= q < out@.len() ==> !text_le(#[trigger] out@[q].timestamp@, x.timestamp@),
            decreases p,
        {
            p = p - 1;
        }
        proof {
            assert forall|q: int| p <= q < out@.len() implies text_le(x.timestamp@, #[trigger] out@[q].timestamp@) by {
                lemma_text_le_total(out@[q].timestamp@, x.timestamp@);
            }
            if p > 0 {
                assert(text_le(out@[p - 1].timestamp@, x.timestamp@));
                assert forall|q: int| 0 <= q < p implies text_le(#[trigger] out@[q].timestamp@, x.timestamp@) by {
                    if q < p - 1 {
                        lemma_text_le_transitive(out@[q].timestamp@, out@[p - 1].timestamp@, x.timestamp@);
                    }
                }
            }
        }
        let ghost old_out = out@;
        out.insert(p, x);
        proof {
            let pp = p as int;
            let ii = i as int;
            let old_perm = perm;
            let old_inv = inv;
            perm = old_perm.insert(pp, ii);
            inv = old_inv.map_values(|q: int| if q >= pp { q + 1 } else { q }).push(pp);
            assert forall|a: int, b: int| 0 <= a < b < out@.len() implies text_le(
                #[trigger] out@[a].timestamp@,
                #[trigger] out@[b].timestamp@,
            ) by {
                if a < pp && b == pp {
                } else if a == pp && b > pp {
                    assert(out@[b] == old_out[b - 1]);
                } else if b < pp {
                    assert(old_out[a] == out@[a] && old_out[b] == out@[b]);
                } else if a < pp && b > pp {
                    assert(out@[b] == old_out[b - 1]);
                    assert(old_out[a] == out@[a]);
                } else {
                    assert(out@[b] == old_out[b - 1]);
                    assert(out@[a] == old_out[a - 1]);
                }
            }
            assert forall|q: int| 0 <= q < ii + 1 implies 0 <= #[trigger] perm[q] < ii + 1 && out@[q] == v@[perm[q]] by {
                if q < pp {
                    assert(perm[q] == old_perm[q]);
                } else if q > pp {
                    assert(perm[q] == old_perm[q - 1]);
                }
            }
            assert forall|j: int| 0 <= j < ii + 1 implies 0 <= #[trigger] inv[j] < ii + 1 && perm[inv[j]] == j by {
                if j < ii {
                    assert(old_perm[old_inv[j]] == j);
                }
            }
            assert forall|q: int| 0 <= q < ii + 1 implies #[trigger] inv[perm[q]] == q by {
                if q < pp {
                    assert(perm[q] == old_perm[q]);
                    assert(old_inv[old_perm[q]] == q);
                } else if q > pp {
                    assert(perm[q] == old_perm[q - 1]);
                    assert(old_inv[old_perm[q - 1]] == q - 1);
                }
            }
        }
        i = i + 1;
    }
    proof {
        lemma_permuted(v@, out@, perm, inv);
    }
    out
}

proof fn lemma_lists_exactly_permuted(
    v: Seq<ReconciledEntry>,
    r: Seq<ReconciledEntry>,
    m: Map<Seq<char>, EventView>,
)
    requires
        lists_exactly(v, m),
        distinct_names(r),
        forall|p: int| 0 <= p < r.len() ==> occurs_in(#[trigger] r[p], v),
        forall|j: int| 0 <= j < v.len() ==> occurs_in(#[trigger] v[j], r),
    ensures
        lists_exactly(r, m),
{
    assert forall|p: int| 0 <= p < r.len() implies m.contains_key(#[trigger] r[p].name@) && m[r[
        p].name@] == (r[p].timestamp@, r[p].status) by {
        assert(occurs_in(r[p], v));
        let j = choose|j: int| 0 <= j < v.len() && v[j] == r[p];
        assert(m.contains_key(v[j].name@));
    }
    assert forall|k: Seq<char>| #[trigger] m.contains_key(k) implies exists|p: int|
        0 <= p < r.len() && r[p].name@ == k by {
        let j = choose|j: int| 0 <= j < v.len() && v[j].name@ == k;
        assert(occurs_in(v[j], r));
        let p = choose|p: int| 0 <= p < r.len() && r[p] == v[j];
        assert(r[p].name@ == k);
    }
}

/// The timeline: every recorded and every installed package once, ordered
/// by timestamp. A recorded event always wins over the never-logged install
/// given to packages without history; recorded packages that are no longer
/// installed keep their event.
pub fn reconcile(events: &EventTable, installed: &[String]) -> (r: Vec<ReconciledEntry>)
    requires
        events.wf(),
    ensures
        sorted_by_time(r@),
        lists_exactly(r@, reconciled(events@, names_view(installed@))),
{
    let ghost names = names_view(installed@);
    let mut merged = events.copy();
    assert(merged@ =~= reconciled(events@, names.subrange(0, 0)));
    let mut i: usize = 0;
    while i < installed.len()
        invariant
            i <= installed@.len(),
            names == names_view(installed@),
            merged.wf(),
            merged@ == reconciled(events@, names.subrange(0, i as int)),
        decreases installed@.len() - i,
    {
        let pkg = &installed[i];
        if !merged.contains(pkg.as_str()) {
            proof {
                reveal_strlit("0000-00-00T00:00:00+0000");
            }
            let stamp = String::from_str("0000-00-00T00:00:00+0000");
            merged.insert(pkg.clone(), PackageEvent::new(stamp, Status::Installed));
        }
        proof {
            assert(names[i as int] == pkg@);
            let prev = names.subrange(0, i as int);
            let next = names.subrange(0, i + 1);
            assert(next =~= prev.push(pkg@));
            assert forall|k: Seq<char>| next.contains(k) <==> (prev.contains(k) || k == pkg@) by {
                if next.contains(k) {
                    let t = choose|t: int| 0 <= t < next.len() && next[t] == k;
                    if t < prev.len() {
                        assert(prev[t] == k);
                    }
                }
                if prev.contains(k) {
                    let t = choose|t: int| 0 <= t < prev.len() && prev[t] == k;
                    assert(next[t] == k);
                }
                if k == pkg@ {
                    assert(next[prev.len() as int] == k);
                }
            }
            assert(merged@ =~= reconciled(events@, names.subrange(0, i + 1)));
        }
        i = i + 1;
    }
    assert(names.subrange(0, i as int) =~= names);
    let records = merged.records();
    let mut entries: Vec<ReconciledEntry> = Vec::new();
    let mut j: usize = 0;
    while j < records.len()
        invariant
            j <= records@.len(),
            entries@.len() == j,
            forall|q: int|
                0 <= q < j ==> (#[trigger] entries@[q]).name@ == records@[q].name@
                    && entries@[q].timestamp@ == records@[q].event.timestamp@
                    && entries@[q].status == records@[q].event.status,
        decreases records@.len() - j,
    {
        let rec = &records[j];
        entries.push(
            ReconciledEntry {
                name: rec.name.clone(),
                timestamp: rec.event.timestamp.clone(),
                status: rec.event.status,
            },
        );
        j = j + 1;
    }
    proof {
        let m = merged@;
        assert forall|p: int| 0 <= p < entries@.len() implies m.contains_key(
            #[trigger] entries@[p].name@,
        ) && m[entries@[p].name@] == (entries@[p].timestamp@, entries@[p].status) by {
            assert(m.contains_key(records@[p].name@));
        }
        assert forall|a: int, b: int|
            0 <= a < entries@.len() && 0 <= b < entries@.len() && a != b implies #[trigger] entries@[a].name@
            != #[trigger] entries@[b].name@ by {
            assert(records@[a].name@ != records@[b].name@);
        }
        assert forall|k: Seq<char>| #[trigger] m.contains_key(k) implies exists|p: int|
            0 <= p < entries@.len() && entries@[p].name@ == k by {
            let q = choose|q: int| 0 <= q < records@.len() && records@[q].name@ == k;
            assert(entries@[q].name@ == k);
        }
    }
    let sorted = sort_by_time(&entries);
    proof {
        lemma_lists_exactly_permuted(entries@, sorted@, merged@);
    }
    sorted
}

/// The text of one timeline line: `timestamp :: tag :: name`.
pub open spec fn line_text(e: ReconciledEntry) -> Seq<char> {
    e.timestamp@ + " :: "@ + status_tag(e.status) + " :: "@ + e.name@
}

/// Renders one line of the timeline, without colour.
pub fn render_line(e: &ReconciledEntry) -> (r: String)
    ensures
        r@ == line_text(*e),
{
    let sep = " :: ";
    let mut s = e.timestamp.clone();
    s.append(sep);
    let tag = e.status.tag();
    s.append(tag.as_str());
    s.append(sep);
    s.append(e.name.as_str());
    s
}

} // verus!
