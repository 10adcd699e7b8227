use vstd::prelude::*;
use crate::model::{BridgeMdbEntry, EntryView, EventView, MikrotikBridgeEvent, events_view, copy_ports};
use crate::record::{ReplyRecord, MalformedRecord, value_of, parse_entry, id_key, dead_key};
use crate::diff::{
    membership_events, removal_events, update_events, diff_events, removal_events_of, push_memberships,
    lemma_nothing_excluded,
};

verus! {

/// The in-memory mirror of the bridge's MDB: entries keyed by the id the
/// device gave them.
pub struct BridgeMdb {
    entries: Vec<(String, BridgeMdbEntry)>,
    contents: Ghost<Map<Seq<char>, EntryView>>,
}

impl View for BridgeMdb {
    type V = Map<Seq<char>, EntryView>;

    closed spec fn view(&self) -> Map<Seq<char>, EntryView> {
        self.contents@
    }
}

/// The views of a list of (id, entry) pairs.
pub open spec fn pairs_view(pairs: Seq<(String, BridgeMdbEntry)>) -> Seq<(Seq<char>, EntryView)> {
    pairs.map_values(|p: (String, BridgeMdbEntry)| (p.0@, p.1@))
}

/// A list of (id, entry) pairs that holds each id once and exactly the
/// contents of `m`.
pub open spec fn lists_map(list: Seq<(Seq<char>, EntryView)>, m: Map<Seq<char>, EntryView>) -> bool {
    &&& forall|i: int, j: int| 0 <= i < j < list.len() ==> list[i].0 != list[j].0
    &&& forall|i: int| 0 <= i < list.len() ==> m.contains_key(#[trigger] list[i].0) && m[list[i].0] == list[i].1
    &&& forall|k: Seq<char>| #[trigger] m.contains_key(k) ==> exists|i: int| 0 <= i < list.len() && list[i].0 == k
}

/// The table after a live record: a dead-marked record removes its id; any
/// other record that reads as an entry stores it under its id; a record
/// without an id, or one that does not read as an entry, changes nothing.
pub open spec fn live_table(t: Map<Seq<char>, EntryView>, attrs: Seq<(String, Option<String>)>) -> Map<
    Seq<char>,
    EntryView,
> {
    match value_of(attrs, id_key()) {
        None => t,
        Some(id) => match value_of(attrs, dead_key()) {
            Some(dead) => if dead == "true"@ {
                t.remove(id)
            } else {
                t
            },
            None => match parse_entry(attrs) {
                Ok(e) => t.insert(id, e),
                Err(_) => t,
            },
        },
    }
}

/// The ports held under `id`, none if the id is absent.
pub open spec fn held_ports(t: Map<Seq<char>, EntryView>, id: Seq<char>) -> Seq<Seq<char>> {
    if t.contains_key(id) {
        t[id].ports
    } else {
        Seq::empty()
    }
}

/// The events of a live record, in the order in which they are emitted.
pub open spec fn live_events(t: Map<Seq<char>, EntryView>, attrs: Seq<(String, Option<String>)>) -> Seq<
    EventView,
> {
    match value_of(attrs, id_key()) {
        None => Seq::empty(),
        Some(id) => match value_of(attrs, dead_key()) {
            Some(dead) => if dead == "true"@ && t.contains_key(id) {
                removal_events(t[id])
            } else {
                Seq::empty()
            },
            None => match parse_entry(attrs) {
                Ok(e) => update_events(held_ports(t, id), e),
                Err(_) => Seq::empty(),
            },
        },
    }
}

/// The table that a snapshot's records describe, folded from the empty
/// table; the first record without an id or without a readable entry makes
/// the whole snapshot fail.
pub open spec fn snapshot_table(records: Seq<ReplyRecord>) -> Result<Map<Seq<char>, EntryView>, MalformedRecord>
    decreases records.len(),
{
    if records.len() == 0 {
        Ok(Map::empty())
    } else {
        match snapshot_table(records.drop_last()) {
            Err(x) => Err(x),
            Ok(t) => {
                let attrs = records.last().attributes@;
                match value_of(attrs, id_key()) {
                    None => Err(MalformedRecord::MissingId),
                    Some(id) => match parse_entry(attrs) {
                        Err(x) => Err(x),
                        Ok(e) => Ok(t.insert(id, e)),
                    },
                }
            },
        }
    }
}

/// A Join for every port of every entry, entry by entry.
pub open spec fn join_all(list: Seq<(Seq<char>, EntryView)>) -> Seq<EventView>
    decreases list.len(),
{
    if list.len() == 0 {
        Seq::empty()
    } else {
        let e = list.last().1;
        join_all(list.drop_last()) + membership_events(e.ports, e.group, e.vlan_id, true)
    }
}

/// The events of a bootstrap load: none when quiet, else every membership
/// followed by one TableChanged.
pub open spec fn bootstrap_events(list: Seq<(Seq<char>, EntryView)>, quiet: bool) -> Seq<EventView> {
    if quiet {
        Seq::empty()
    } else {
        join_all(list).push(EventView::TableChanged)
    }
}

proof fn lemma_snapshot_error_stays(records: Seq<ReplyRecord>, n: int)
    requires
        0 <= n <= records.len(),
        snapshot_table(records.subrange(0, n)) is Err,
    ensures
        snapshot_table(records) == snapshot_table(records.subrange(0, n)),
    decreases records.len(),
{
    if n == records.len() {
        assert(records.subrange(0, n) =~= records);
    } else {
        assert(records.drop_last().subrange(0, n) =~= records.subrange(0, n));
        lemma_snapshot_error_stays(records.drop_last(), n);
    }
}

fn no_events() -> (r: Vec<MikrotikBridgeEvent>)
    ensures
        events_view(r@) == Seq::<EventView>::empty(),
{
    let r: Vec<MikrotikBridgeEvent> = Vec::new();
    assert(events_view(r@) =~= Seq::<EventView>::empty());
    r
}

impl BridgeMdb {
    /// The entries in the order in which they are stored.
    pub closed spec fn entry_list(&self) -> Seq<(Seq<char>, EntryView)> {
        pairs_view(self.entries@)
    }

    pub closed spec fn wf(&self) -> bool {
        lists_map(self.entry_list(), self@)
    }

    /// An empty table.
    pub fn new() -> (r: BridgeMdb)
        ensures
            r.wf(),
            r@ == Map::<Seq<char>, EntryView>::empty(),
    {
        let r = BridgeMdb { entries: Vec::new(), contents: Ghost(Map::empty()) };
        assert(r.entry_list() =~= Seq::<(Seq<char>, EntryView)>::empty());
        r
    }

    /// The index at which the entry for `id` is stored.
    fn find(&self, id: &String) -> (r: Option<usize>)
        requires
            self.wf(),
        ensures
            match r {
                Some(i) => i < self.entry_list().len() && self.entry_list()[i as int].0 == id@,
                None => !self@.contains_key(id@),
            },
    {
        let mut i: usize = 0;
        while i < self.entries.len()
            invariant
                self.wf(),
                i <= self.entries@.len(),
                forall|j: int| 0 <= j < i ==> self.entry_list()[j].0 != id@,
            decreases self.entries@.len() - i,
        {
            assert(self.entry_list()[i as int].0 == self.entries@[i as int].0@);
            if self.entries[i].0 == *id {
                return Some(i);
            }
            i = i + 1;
        }
        None
    }

    /// The entry stored for `id`.
    pub fn get(&self, id: &String) -> (r: Option<&BridgeMdbEntry>)
        requires
            self.wf(),
        ensures
            match r {
                Some(e) => self@.contains_key(id@) && self@[id@] == e@,
                None => !self@.contains_key(id@),
            },
    {
        match self.find(id) {
            Some(i) => {
                assert(self.entry_list()[i as int].1 == self.entries@[i as int].1@);
                Some(&self.entries[i].1)
            },
            None => None,
        }
    }

    /// Stores `entry` under `id`, replacing what was there.
    pub fn insert(&mut self, id: String, entry: BridgeMdbEntry)
        requires
            old(self).wf(),
        ensures
            final(self).wf(),
            final(self)@ == old(self)@.insert(id@, entry@),
    {
        let ghost k = id@;
        let ghost v = entry@;
        let ghost before = self.entry_list();
        let ghost w: int;
        match self.find(&id) {
            Some(i) => {
                self.entries.set(i, (id, entry));
                self.contents = Ghost(self.contents@.insert(k, v));
                assert(self.entry_list() =~= before.update(i as int, (k, v)));
                proof {
                    w = i as int;
                }
            },
            None => {
                self.entries.push((id, entry));
                self.contents = Ghost(self.contents@.insert(k, v));
                assert(self.entry_list() =~= before.push((k, v)));
                proof {
                    w = before.len() as int;
                }
            },
        }
        let ghost after = self.entry_list();
        assert(after[w].0 == k);
        assert forall|q: Seq<char>| #[trigger] self@.contains_key(q) implies exists|j: int|
            0 <= j < after.len() && after[j].0 == q by {
            if q != k {
                assert(old(self)@.contains_key(q));
                let j = choose|j: int| 0 <= j < before.len() && before[j].0 == q;
                assert(after[j].0 == q);
            }
        }
    }

    /// Removes the entry stored for `id` and returns it.
    pub fn remove(&mut self, id: &String) -> (r: Option<BridgeMdbEntry>)
        requires
            old(self).wf(),
        ensures
            final(self).wf(),
            final(self)@ == old(self)@.remove(id@),
            match r {
                Some(e) => old(self)@.contains_key(id@) && old(self)@[id@] == e@,
                None => !old(self)@.contains_key(id@),
            },
    {
        let ghost before = self.entry_list();
        match self.find(id) {
            Some(i) => {
                let (_, e) = self.entries.remove(i);
                self.contents = Ghost(self.contents@.remove(id@));
                let ghost after = self.entry_list();
                assert(after =~= before.remove(i as int));
                assert forall|q: Seq<char>| #[trigger] self@.contains_key(q) implies exists|j: int|
                    0 <= j < after.len() && after[j].0 == q by {
                    let j = choose|j: int| 0 <= j < before.len() && before[j].0 == q;
                    if j < i {
                        assert(after[j].0 == q);
                    } else {
                        assert(j != i);
                        assert(after[j - 1].0 == q);
                    }
                }
                Some(e)
            },
            None => {
                assert(self.contents@.remove(id@) =~= self.contents@);
                None
            },
        }
    }

    /// An independent copy of the entries, in the order in which they are
    /// stored.
    pub fn get_bridge_mdb_entries(&self) -> (r: Vec<(String, BridgeMdbEntry)>)
        requires
            self.wf(),
        ensures
            pairs_view(r@) == self.entry_list(),
            lists_map(pairs_view(r@), self@),
    {
        let mut r: Vec<(String, BridgeMdbEntry)> = Vec::new();
        let mut i: usize = 0;
        while i < self.entries.len()
            invariant
                i <= self.entries@.len(),
                r@.len() == i,
                forall|j: int|
                    0 <= j < i ==> #[trigger] r@[j].0@ == self.entries@[j].0@ && r@[j].1@ == self.entries@[j].1@,
            decreases self.entries@.len() - i,
        {
            let p = (self.entries[i].0.clone(), self.entries[i].1.copy());
            r.push(p);
            i = i + 1;
        }
        assert(pairs_view(r@) =~= self.entry_list());
        r
    }

    /// A Join event for every port of every entry, entry by entry.
    fn join_events(&self) -> (r: Vec<MikrotikBridgeEvent>)
        requires
            self.wf(),
        ensures
            events_view(r@) == join_all(self.entry_list()),
    {
        let mut events = no_events();
        let none: Vec<String> = Vec::new();
        let ghost list = self.entry_list();
        let mut i: usize = 0;
        assert(list.subrange(0, 0) =~= Seq::<(Seq<char>, EntryView)>::empty());
        while i < self.entries.len()
            invariant
                i <= self.entries@.len(),
                list == self.entry_list(),
                none@.len() == 0,
                events_view(events@) == join_all(list.subrange(0, i as int)),
            decreases self.entries@.len() - i,
        {
            let e = &self.entries[i].1;
            push_memberships(&e.ports, &none, &e.group, e.vlan_id, true, &mut events);
            proof {
                assert(crate::model::ports_view(none@) =~= Seq::<Seq<char>>::empty());
                lemma_nothing_excluded(e@.ports);
                assert(list.subrange(0, i + 1).drop_last() =~= list.subrange(0, i as int));
                assert(list.subrange(0, i + 1).last() == list[i as int]);
                assert(list[i as int].1 == e@);
            }
            i = i + 1;
        }
        assert(list.subrange(0, i as int) =~= list);
        events
    }

    /// Replaces the contents by the snapshot that `records` describe and
    /// returns the events that announce it. On a malformed record nothing
    /// changes and the first such record's error is returned.
    pub fn load_initial_mdb_entries(&mut self, records: &Vec<ReplyRecord>, quiet_start: bool) -> (r: Result<
        Vec<MikrotikBridgeEvent>,
        MalformedRecord,
    >)
        requires
            old(self).wf(),
        ensures
            final(self).wf(),
            match r {
                Ok(events) => snapshot_table(records@) == Ok::<Map<Seq<char>, EntryView>, MalformedRecord>(
                    final(self)@,
                ) && events_view(events@) == bootstrap_events(final(self).entry_list(), quiet_start),
                Err(x) => snapshot_table(records@) == Err::<Map<Seq<char>, EntryView>, MalformedRecord>(x)
                    && final(self)@ == old(self)@,
            },
    {
        let mut table = BridgeMdb::new();
        let mut i: usize = 0;
        assert(records@.subrange(0, 0) =~= Seq::<ReplyRecord>::empty());
        while i < records.len()
            invariant
                i <= records@.len(),
                table.wf(),
                self.wf(),
                self@ == old(self)@,
                snapshot_table(records@.subrange(0, i as int)) == Ok::<Map<Seq<char>, EntryView>, MalformedRecord>(
                    table@,
                ),
            decreases records@.len() - i,
        {
            assert(records@.subrange(0, i + 1).drop_last() =~= records@.subrange(0, i as int));
            assert(records@.subrange(0, i + 1).last() == records@[i as int]);
            let id = match records[i].value(".id") {
                Some(id) => id,
                None => {
                    proof {
                        lemma_snapshot_error_stays(records@, i + 1);
                    }
                    return Err(MalformedRecord::MissingId);
                },
            };
            let entry = match BridgeMdbEntry::from_reply(&records[i]) {
                Ok(e) => e,
                Err(x) => {
                    proof {
                        lemma_snapshot_error_stays(records@, i + 1);
                    }
                    return Err(x);
                },
            };
            table.insert(id, entry);
            i = i + 1;
        }
        assert(records@.subrange(0, i as int) =~= records@);
        let events = if quiet_start {
            no_events()
        } else {
            let mut events = table.join_events();
            let ghost before = events_view(events@);
            events.push(MikrotikBridgeEvent::BridgeMdbTableChanged);
            assert(events_view(events@) =~= before.push(EventView::TableChanged));
            events
        };
        *self = table;
        Ok(events)
    }

    /// Applies one record of the live stream and returns its events.
    pub fn apply_live_record(&mut self, record: &ReplyRecord) -> (r: Vec<MikrotikBridgeEvent>)
        requires
            old(self).wf(),
        ensures
            final(self).wf(),
            final(self)@ == live_table(old(self)@, record.attributes@),
            events_view(r@) == live_events(old(self)@, record.attributes@),
    {
        let id = match record.value(".id") {
            Some(id) => id,
            None => return no_events(),
        };
        match record.value(".dead") {
            Some(dead) => {
                if dead == String::from_str("true") {
                    match self.remove(&id) {
                        Some(e) => removal_events_of(&e),
                        None => no_events(),
                    }
                } else {
                    no_events()
                }
            },
            None => match BridgeMdbEntry::from_reply(record) {
                Err(_) => no_events(),
                Ok(entry) => {
                    let old_ports = match self.get(&id) {
                        Some(e) => copy_ports(&e.ports),
                        None => Vec::new(),
                    };
                    assert(crate::model::ports_view(old_ports@) =~= held_ports(self@, id@));
                    let events = diff_events(&old_ports, &entry);
                    self.insert(id, entry);
                    events
                },
            },
        }
    }
}

} // verus!
