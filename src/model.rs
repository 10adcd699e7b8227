use vstd::prelude::*;

verus! {

/// The view of a list of port names: one character sequence per port.
pub open spec fn ports_view(ports: Seq<String>) -> Seq<Seq<char>> {
    ports.map_values(|p: String| p@)
}

/// What an MDB entry means: a multicast group, a VLAN and its member ports.
pub struct EntryView {
    pub group: Seq<char>,
    pub vlan_id: u32,
    pub ports: Seq<Seq<char>>,
}

/// One entry of the bridge's multicast forwarding table.
#[derive(Debug, Default)]
pub struct BridgeMdbEntry {
    pub group: String,
    pub vlan_id: u32,
    pub ports: Vec<String>,
}

impl View for BridgeMdbEntry {
    type V = EntryView;

    open spec fn view(&self) -> EntryView {
        EntryView { group: self.group@, vlan_id: self.vlan_id, ports: ports_view(self.ports@) }
    }
}

/// Copies a list of port names.
pub fn copy_ports(ports: &Vec<String>) -> (r: Vec<String>)
    ensures
        ports_view(r@) == ports_view(ports@),
{
    let mut r: Vec<String> = Vec::new();
    let mut i: usize = 0;
    while i < ports.len()
        invariant
            i <= ports@.len(),
            r@.len() == i,
            forall|j: int| 0 <= j < i ==> #[trigger] r@[j]@ == ports@[j]@,
        decreases ports@.len() - i,
    {
        let p = ports[i].clone();
        r.push(p);
        i = i + 1;
    }
    assert(ports_view(r@) =~= ports_view(ports@));
    r
}

impl BridgeMdbEntry {
    /// An independent copy of the entry.
    pub fn copy(&self) -> (r: BridgeMdbEntry)
        ensures
            r@ == self@,
    {
        BridgeMdbEntry { group: self.group.clone(), vlan_id: self.vlan_id, ports: copy_ports(&self.ports) }
    }
}

/// What a port membership means: port, group and VLAN.
pub struct MembershipView {
    pub port: Seq<char>,
    pub group: Seq<char>,
    pub vlan_id: u32,
}

/// A port that is a member of a multicast group on a VLAN.
#[derive(Debug)]
pub struct PortMembership {
    pub port: String,
    pub group: String,
    pub vlan_id: u32,
}

impl View for PortMembership {
    type V = MembershipView;

    open spec fn view(&self) -> MembershipView {
        MembershipView { port: self.port@, group: self.group@, vlan_id: self.vlan_id }
    }
}

/// What an event means.
pub enum EventView {
    TableChanged,
    Join(MembershipView),
    Leave(MembershipView),
}

/// A change of the table reported to the consumer.
#[derive(Debug)]
pub enum MikrotikBridgeEvent {
    /// The table was mutated; fetch a snapshot for its new contents.
    BridgeMdbTableChanged,
    /// A port joined a group on a VLAN.
    MdbJoin(PortMembership),
    /// A port left a group on a VLAN.
    MdbLeave(PortMembership),
}

impl View for MikrotikBridgeEvent {
    type V = EventView;

    open spec fn view(&self) -> EventView {
        match self {
            MikrotikBridgeEvent::BridgeMdbTableChanged => EventView::TableChanged,
            MikrotikBridgeEvent::MdbJoin(m) => EventView::Join(m@),
            MikrotikBridgeEvent::MdbLeave(m) => EventView::Leave(m@),
        }
    }
}

/// The views of a list of events.
pub open spec fn events_view(events: Seq<MikrotikBridgeEvent>) -> Seq<EventView> {
    events.map_values(|e: MikrotikBridgeEvent| e@)
}

} // verus!
