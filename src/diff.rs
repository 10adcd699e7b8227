use vstd::prelude::*;
use crate::model::{
    BridgeMdbEntry, EntryView, EventView, MembershipView, MikrotikBridgeEvent, PortMembership,
    events_view, ports_view,
};

verus! {

/// The ports of `ports` that are absent from `others`, in the order of `ports`.
pub open spec fn ports_not_in(ports: Seq<Seq<char>>, others: Seq<Seq<char>>) -> Seq<Seq<char>> {
    ports.filter(|p: Seq<char>| !others.contains(p))
}

pub open spec fn membership_events(ports: Seq<Seq<char>>, group: Seq<char>, vlan_id: u32, joining: bool) -> Seq<
    EventView,
> {
    ports.map_values(
        |p: Seq<char>|
            if joining {
                EventView::Join(MembershipView { port: p, group, vlan_id })
            } else {
                EventView::Leave(MembershipView { port: p, group, vlan_id })
            },
    )
}

/// The events of an update that replaces an entry holding `old_ports` by
/// `entry`: a Leave for each port that went, a Join for each port that came
/// (both labelled with the new entry's group and VLAN), then TableChanged.
pub open spec fn update_events(old_ports: Seq<Seq<char>>, entry: EntryView) -> Seq<EventView> {
    membership_events(ports_not_in(old_ports, entry.ports), entry.group, entry.vlan_id, false)
        + membership_events(ports_not_in(entry.ports, old_ports), entry.group, entry.vlan_id, true)
        + seq![EventView::TableChanged]
}

/// The events of removing `entry`: a Leave for each port it held, labelled
/// with its own group and VLAN, then TableChanged.
pub open spec fn removal_events(entry: EntryView) -> Seq<EventView> {
    membership_events(entry.ports, entry.group, entry.vlan_id, false) + seq![EventView::TableChanged]
}

/// Excluding no port keeps every port.
pub proof fn lemma_nothing_excluded(ports: Seq<Seq<char>>)
    ensures
        ports_not_in(ports, Seq::empty()) == ports,
    decreases ports.len(),
{
    reveal(Seq::filter);
    if ports.len() > 0 {
        lemma_nothing_excluded(ports.drop_last());
        assert(!Seq::<Seq<char>>::empty().contains(ports.last()));
        assert(ports.drop_last().push(ports.last()) =~= ports);
    }
}

/// Whether `port` is among `ports`.
pub fn contains_port(ports: &Vec<String>, port: &String) -> (r: bool)
    ensures
        r == ports_view(ports@).contains(port@),
{
    let mut i: usize = 0;
    while i < ports.len()
        invariant
            i <= ports@.len(),
            forall|j: int| 0 <= j < i ==> ports@[j]@ != port@,
        decreases ports@.len() - i,
    {
        if ports[i] == *port {
            assert(ports_view(ports@)[i as int] == port@);
            return true;
        }
        i = i + 1;
    }
    assert forall|j: int| 0 <= j < ports_view(ports@).len() implies ports_view(ports@)[j] != port@ by {
        assert(ports_view(ports@)[j] == ports@[j]@);
    }
    false
}

/// Appends a Join (or Leave) event for each port of `ports` that is absent
/// from `others`, in the order of `ports`.
pub fn push_memberships(
    ports: &Vec<String>,
    others: &Vec<String>,
    group: &String,
    vlan_id: u32,
    joining: bool,
    events: &mut Vec<MikrotikBridgeEvent>,
)
    ensures
        events_view(final(events)@) == events_view(old(events)@) + membership_events(
            ports_not_in(ports_view(ports@), ports_view(others@)),
            group@,
            vlan_id,
            joining,
        ),
{
    let ghost start = events_view(events@);
    let ghost pv = ports_view(ports@);
    let ghost ov = ports_view(others@);
    let mut i: usize = 0;
    assert(pv.subrange(0, 0) =~= Seq::<Seq<char>>::empty());
    assert(events_view(events@) =~= start + membership_events(
        ports_not_in(pv.subrange(0, 0), ov),
        group@,
        vlan_id,
        joining,
    ));
    while i < ports.len()
        invariant
            i <= ports@.len(),
            pv == ports_view(ports@),
            ov == ports_view(others@),
            events_view(events@) == start + membership_events(
                ports_not_in(pv.subrange(0, i as int), ov),
                group@,
                vlan_id,
                joining,
            ),
        decreases ports@.len() - i,
    {
        let ghost before = events_view(events@);
        let ghost kept = ports_not_in(pv.subrange(0, i as int), ov);
        proof {
            reveal(Seq::filter);
        }
        assert(pv.subrange(0, i + 1).drop_last() =~= pv.subrange(0, i as int));
        assert(pv.subrange(0, i + 1).last() == ports@[i as int]@);
        if !contains_port(others, &ports[i]) {
            let m = PortMembership { port: ports[i].clone(), group: group.clone(), vlan_id };
            let e = if joining {
                MikrotikBridgeEvent::MdbJoin(m)
            } else {
                MikrotikBridgeEvent::MdbLeave(m)
            };
            events.push(e);
            assert(ports_not_in(pv.subrange(0, i + 1), ov) == kept.push(ports@[i as int]@));
            assert(membership_events(kept.push(ports@[i as int]@), group@, vlan_id, joining) =~= membership_events(
                kept,
                group@,
                vlan_id,
                joining,
            ).push(e@));
            assert(events_view(events@) =~= before.push(e@));
        } else {
            assert(ports_not_in(pv.subrange(0, i + 1), ov) == kept);
        }
        i = i + 1;
    }
    assert(pv.subrange(0, i as int) =~= pv);
}

/// The events of an update from an entry holding `old_ports` to `entry`.
pub fn diff_events(old_ports: &Vec<String>, entry: &BridgeMdbEntry) -> (r: Vec<MikrotikBridgeEvent>)
    ensures
        events_view(r@) == update_events(ports_view(old_ports@), entry@),
{
    let mut events: Vec<MikrotikBridgeEvent> = Vec::new();
    assert(events_view(events@) =~= Seq::<EventView>::empty());
    push_memberships(old_ports, &entry.ports, &entry.group, entry.vlan_id, false, &mut events);
    push_memberships(&entry.ports, old_ports, &entry.group, entry.vlan_id, true, &mut events);
    let ghost before = events_view(events@);
    events.push(MikrotikBridgeEvent::BridgeMdbTableChanged);
    assert(events_view(events@) =~= before.push(EventView::TableChanged));
    assert(events_view(events@) =~= update_events(ports_view(old_ports@), entry@));
    events
}

/// The events of removing `entry` from the table.
pub fn removal_events_of(entry: &BridgeMdbEntry) -> (r: Vec<MikrotikBridgeEvent>)
    ensures
        events_view(r@) == removal_events(entry@),
{
    let mut events: Vec<MikrotikBridgeEvent> = Vec::new();
    let none: Vec<String> = Vec::new();
    assert(events_view(events@) =~= Seq::<EventView>::empty());
    push_memberships(&entry.ports, &none, &entry.group, entry.vlan_id, false, &mut events);
    proof {
        assert(ports_view(none@) =~= Seq::<Seq<char>>::empty());
        lemma_nothing_excluded(ports_view(entry.ports@));
    }
    let ghost before = events_view(events@);
    events.push(MikrotikBridgeEvent::BridgeMdbTableChanged);
    assert(events_view(events@) =~= before.push(EventView::TableChanged));
    assert(events_view(events@) =~= removal_events(entry@));
    events
}

} // verus!
