//! Package events and the table that keeps the latest event per package.
use vstd::hash_map::StringHashMap;
use vstd::prelude::*;

verus! {

/// The lifecycle action last recorded for a package.
#[derive(Clone, Copy, Debug, PartialEq, Eq, Structural)]
pub enum Status {
    Installed,
    Upgraded,
    Removed,
    Unknown,
}

/// The short tag that stands for a status in the cache and on screen.
pub open spec fn status_tag(s: Status) -> Seq<char> {
    match s {
        Status::Installed => seq!['I', 'N', 'S'],
        Status::Upgraded => seq!['U', 'P', 'G'],
        Status::Removed => seq!['R', 'E', 'M'],
        Status::Unknown => seq!['E', 'R', 'R'],
    }
}

/// The status a tag stands for; a tag of no known status stands for
/// `Unknown`.
pub open spec fn status_of_tag(t: Seq<char>) -> Status {
    if t == status_tag(Status::Installed) {
        Status::Installed
    } else if t == status_tag(Status::Upgraded) {
        Status::Upgraded
    } else if t == status_tag(Status::Removed) {
        Status::Removed
    } else {
        Status::Unknown
    }
}

impl Status {
    pub fn tag(&self) -> (r: String)
        ensures
            r@ == status_tag(*self),
    {
        proof {
            reveal_strlit("INS");
            reveal_strlit("UPG");
            reveal_strlit("REM");
            reveal_strlit("ERR");
        }
        match self {
            Status::Installed => String::from_str("INS"),
            Status::Upgraded => String::from_str("UPG"),
            Status::Removed => String::from_str("REM"),
            Status::Unknown => String::from_str("ERR"),
        }
    }

    pub fn from_tag(t: &String) -> (r: Status)
        ensures
            r == status_of_tag(t@),
    {
        let ins = Status::Installed.tag();
        let upg = Status::Upgraded.tag();
        let rem = Status::Removed.tag();
        if t.eq(&ins) {
            Status::Installed
        } else if t.eq(&upg) {
            Status::Upgraded
        } else if t.eq(&rem) {
            Status::Removed
        } else {
            Status::Unknown
        }
    }
}

/// The most recent logged action for a package and when it happened.
#[derive(Debug)]
pub struct PackageEvent {
    pub timestamp: String,
    pub status: Status,
}

/// A package event as plain values: the timestamp text and the status.
pub type EventView = (Seq<char>, Status);

impl View for PackageEvent {
    type V = EventView;

    open spec fn view(&self) -> EventView {
        (self.timestamp@, self.status)
    }
}

impl PackageEvent {
    pub fn new(timestamp: String, status: Status) -> (r: PackageEvent)
        ensures
            r.timestamp == timestamp,
            r.status == status,
    {
        PackageEvent { timestamp, status }
    }

    pub fn duplicate(&self) -> (r: PackageEvent)
        ensures
            r@ == self@,
    {
        PackageEvent { timestamp: self.timestamp.clone(), status: self.status }
    }
}

/// A package name with its event.
#[derive(Debug)]
pub struct PackageRecord {
    pub name: String,
    pub event: PackageEvent,
}

/// A map from package name to its latest event. The records keep the order
/// in which names were first inserted; `index` locates each name's record.
pub struct EventTable {
    records: Vec<PackageRecord>,
    index: StringHashMap<usize>,
}

impl View for EventTable {
    type V = Map<Seq<char>, EventView>;

    closed spec fn view(&self) -> Map<Seq<char>, EventView> {
        Map::new(
            |k: Seq<char>| self.index@.contains_key(k),
            |k: Seq<char>| self.records@[self.index@[k] as int].event@,
        )
    }
}

impl EventTable {
    /// Names in `index` are exactly the names of the records, each at its
    /// own position.
    pub closed spec fn wf(&self) -> bool {
        &&& forall|k: Seq<char>| #[trigger]
            self.index@.contains_key(k) ==> self.index@[k] < self.records@.len()
                && self.records@[self.index@[k] as int].name@ == k
        &&& forall|i: int|
            0 <= i < self.records@.len() ==> #[trigger] self.index@.contains_key(
                self.records@[i].name@,
            ) && self.index@[self.records@[i].name@] == i
    }

    pub fn new() -> (r: EventTable)
        ensures
            r.wf(),
            r@ == Map::<Seq<char>, EventView>::empty(),
    {
        let r = EventTable { records: Vec::new(), index: StringHashMap::new() };
        assert(r@ =~= Map::<Seq<char>, EventView>::empty());
        r
    }

    /// The event recorded for `name`, if any.
    pub fn get(&self, name: &str) -> (r: Option<&PackageEvent>)
        requires
            self.wf(),
        ensures
            match r {
                Some(e) => self@.contains_key(name@) && e@ == self@[name@],
                None => !self@.contains_key(name@),
            },
    {
        match self.index.get(name) {
            Some(i) => Some(&self.records[*i].event),
            None => None,
        }
    }

    pub fn contains(&self, name: &str) -> (r: bool)
        requires
            self.wf(),
        ensures
            r == self@.contains_key(name@),
    {
        self.index.contains_key(name)
    }

    /// Records `event` for `name`, replacing any earlier event of that name.
    pub fn insert(&mut self, name: String, event: PackageEvent)
        requires
            old(self).wf(),
        ensures
            final(self).wf(),
            final(self)@ == old(self)@.insert(name@, event@),
    {
        let ghost prev = self@;
        match self.index.get(name.as_str()) {
            Some(i) => {
                let i = *i;
                let rec = PackageRecord { name, event };
                self.records.set(i, rec);
            },
            None => {
                let n = self.records.len();
                let key = name.clone();
                self.records.push(PackageRecord { name, event });
                self.index.insert(key, n);
            },
        }
        assert(self@ =~= prev.insert(name@, event@));
    }

    /// A second table with the same contents.
    pub fn copy(&self) -> (r: EventTable)
        requires
            self.wf(),
        ensures
            r.wf(),
            r@ == self@,
    {
        let mut r = EventTable::new();
        let mut i: usize = 0;
        while i < self.records.len()
            invariant
                self.wf(),
                r.wf(),
                i <= self.records@.len(),
                r@ == Map::new(
                    |k: Seq<char>| self.index@.contains_key(k) && self.index@[k] < i,
                    |k: Seq<char>| self@[k],
                ),
            decreases self.records@.len() - i,
        {
            let rec = &self.records[i];
            let ghost before = r@;
            r.insert(rec.name.clone(), rec.event.duplicate());
            proof {
                assert(self.index@.contains_key(rec.name@));
                assert(r@ =~= Map::new(
                    |k: Seq<char>| self.index@.contains_key(k) && self.index@[k] < i + 1,
                    |k: Seq<char>| self@[k],
                ));
            }
            i = i + 1;
        }
        assert(r@ =~= self@);
        r
    }

    /// The records, one per name, in order of first insertion.
    pub fn records(&self) -> (r: &Vec<PackageRecord>)
        requires
            self.wf(),
        ensures
            forall|i: int|
                0 <= i < r@.len() ==> self@.contains_key(#[trigger] r@[i].name@) && self@[r@[
                    i].name@] == r@[i].event@,
            forall|i: int, j: int|
                0 <= i < r@.len() && 0 <= j < r@.len() && i != j ==> #[trigger] r@[i].name@
                    != #[trigger] r@[j].name@,
            forall|k: Seq<char>|
                #[trigger] self@.contains_key(k) ==> exists|i: int|
                    0 <= i < r@.len() && r@[i].name@ == k,
    {
        assert forall|k: Seq<char>| #[trigger] self@.contains_key(k) implies exists|i: int|
            0 <= i < self.records@.len() && self.records@[i].name@ == k by {
            let i = self.index@[k] as int;
            assert(self.records@[i].name@ == k);
        }
        assert forall|i: int| 0 <= i < self.records@.len() implies self@.contains_key(
            #[trigger] self.records@[i].name@) && self@[self.records@[i].name@]
            == self.records@[i].event@ by {
            assert(self.index@.contains_key(self.records@[i].name@));
        }
        assert forall|i: int, j: int|
            0 <= i < self.records@.len() && 0 <= j < self.records@.len() && i != j implies
            #[trigger] self.records@[i].name@ != #[trigger] self.records@[j].name@ by {
            assert(self.index@.contains_key(self.records@[i].name@));
            assert(self.index@.contains_key(self.records@[j].name@));
        }
        &self.records
    }
}

} // verus!
