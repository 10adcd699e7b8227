use vstd::prelude::*;
use crate::model::{EntryView, EventView, MembershipView};
use crate::record::{ReplyRecord, value_of, parse_entry, id_key, dead_key, group_key};
use crate::diff::{ports_not_in, membership_events};
use crate::table::{live_table, live_events, held_ports, snapshot_table};

verus! {

/// The table after each of `live` in turn, starting from `t`.
pub open spec fn replay(t: Map<Seq<char>, EntryView>, live: Seq<ReplyRecord>) -> Map<Seq<char>, EntryView>
    decreases live.len(),
{
    if live.len() == 0 {
        t
    } else {
        live_table(replay(t, live.drop_last()), live.last().attributes@)
    }
}

/// Whether a record is a removal of an id that `t` holds.
pub open spec fn removes_held_entry(t: Map<Seq<char>, EntryView>, attrs: Seq<(String, Option<String>)>) -> bool {
    match value_of(attrs, id_key()) {
        Some(id) => value_of(attrs, dead_key()) == Some("true"@) && t.contains_key(id),
        None => false,
    }
}

/// The table mirrors the record stream: if `tables` holds the table after a
/// bootstrap load of `snapshot` and then after each live record, the last of
/// them is what folding the snapshot's records from the empty table, then
/// the live records, gives.
pub proof fn lemma_table_is_fold(
    snapshot: Seq<ReplyRecord>,
    live: Seq<ReplyRecord>,
    tables: Seq<Map<Seq<char>, EntryView>>,
)
    requires
        tables.len() == live.len() + 1,
        snapshot_table(snapshot) == Ok::<Map<Seq<char>, EntryView>, crate::record::MalformedRecord>(tables[0]),
        forall|i: int| 0 <= i < live.len() ==> tables[i + 1] == live_table(tables[i], #[trigger] live[i].attributes@),
    ensures
        tables.last() == replay(tables[0], live),
    decreases live.len(),
{
    if live.len() > 0 {
        let n = live.len() - 1;
        lemma_table_is_fold(snapshot, live.drop_last(), tables.drop_last());
        assert(tables[n + 1] == live_table(tables[n], live[n].attributes@));
    }
}

/// An update emits a Leave for each port that went and a Join for each port
/// that came, Leaves first, then exactly one TableChanged, last.
pub proof fn lemma_update_event_counts(
    t: Map<Seq<char>, EntryView>,
    attrs: Seq<(String, Option<String>)>,
    id: Seq<char>,
    entry: EntryView,
)
    requires
        value_of(attrs, id_key()) == Some(id),
        value_of(attrs, dead_key()) is None,
        parse_entry(attrs) == Ok::<EntryView, crate::record::MalformedRecord>(entry),
    ensures
        ({
            let events = live_events(t, attrs);
            let leaving = ports_not_in(held_ports(t, id), entry.ports).len();
            let joining = ports_not_in(entry.ports, held_ports(t, id)).len();
            &&& events.len() == leaving + joining + 1
            &&& forall|i: int| 0 <= i < leaving ==> #[trigger] events[i] is Leave
            &&& forall|i: int| leaving <= i < leaving + joining ==> #[trigger] events[i] is Join
            &&& events[(leaving + joining) as int] == EventView::TableChanged
        }),
{
}

/// Removing an id with N ports emits N Leaves, labelled with the removed
/// entry's own group and VLAN, then one TableChanged; removing an unknown id
/// emits nothing and changes nothing.
pub proof fn lemma_removal_events(t: Map<Seq<char>, EntryView>, attrs: Seq<(String, Option<String>)>, id: Seq<char>)
    requires
        value_of(attrs, id_key()) == Some(id),
        value_of(attrs, dead_key()) == Some("true"@),
    ensures
        t.contains_key(id) ==> ({
            let e = t[id];
            let events = live_events(t, attrs);
            &&& events.len() == e.ports.len() + 1
            &&& forall|i: int|
                0 <= i < e.ports.len() ==> #[trigger] events[i] == EventView::Leave(
                    MembershipView { port: e.ports[i], group: e.group, vlan_id: e.vlan_id },
                )
            &&& events[e.ports.len() as int] == EventView::TableChanged
            &&& live_table(t, attrs) == t.remove(id)
        }),
        !t.contains_key(id) ==> live_events(t, attrs).len() == 0 && live_table(t, attrs) == t,
{
    if !t.contains_key(id) {
        assert(t.remove(id) =~= t);
    }
}

/// An update identical to the stored entry emits no Join or Leave, only one
/// TableChanged, and leaves the table as it was.
pub proof fn lemma_identical_update(
    t: Map<Seq<char>, EntryView>,
    attrs: Seq<(String, Option<String>)>,
    id: Seq<char>,
)
    requires
        value_of(attrs, id_key()) == Some(id),
        value_of(attrs, dead_key()) is None,
        t.contains_key(id),
        parse_entry(attrs) == Ok::<EntryView, crate::record::MalformedRecord>(t[id]),
    ensures
        live_events(t, attrs) == seq![EventView::TableChanged],
        live_table(t, attrs) == t,
{
    let p = t[id].ports;
    let pred = |q: Seq<char>| !p.contains(q);
    assert forall|k: int| 0 <= k < p.len() implies !pred(p[k]) by {
        assert(p.contains(p[k]));
    }
    assert(p.all(|q: Seq<char>| !pred(q)));
    p.lemma_all_neg_filter_empty(pred);
    assert(ports_not_in(p, p) =~= Seq::<Seq<char>>::empty());
    assert(membership_events(Seq::<Seq<char>>::empty(), t[id].group, t[id].vlan_id, false) =~= Seq::<EventView>::empty());
    assert(membership_events(Seq::<Seq<char>>::empty(), t[id].group, t[id].vlan_id, true) =~= Seq::<EventView>::empty());
    assert(live_events(t, attrs) =~= seq![EventView::TableChanged]);
    assert(t.insert(id, t[id]) =~= t);
}

/// A live record without a group leaves the table and the event stream as
/// they were, unless it is the removal of an entry that the table holds.
pub proof fn lemma_missing_group_ignored(t: Map<Seq<char>, EntryView>, attrs: Seq<(String, Option<String>)>)
    requires
        value_of(attrs, group_key()) is None,
        !removes_held_entry(t, attrs),
    ensures
        live_table(t, attrs) == t,
        live_events(t, attrs).len() == 0,
{
    match value_of(attrs, id_key()) {
        Some(id) => {
            if value_of(attrs, dead_key()) == Some("true"@) {
                assert(t.remove(id) =~= t);
            }
        },
        None => {},
    }
}

} // verus!
