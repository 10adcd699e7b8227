use vstd::prelude::*;
use crate::model::{BridgeMdbEntry, EntryView, ports_view};

verus! {

/// One data reply of the device: attribute names with optional values.
/// Names are expected to be distinct; a lookup takes the first match.
pub struct ReplyRecord {
    pub attributes: Vec<(String, Option<String>)>,
}

/// A response of the device to a command.
pub enum DeviceResponse {
    /// A data row.
    Reply(ReplyRecord),
    /// Any other response: completion, trap, fatal error or empty.
    Other,
}

/// Why a record could not be read as an MDB entry.
#[derive(Debug, Clone, Copy, PartialEq, Eq, Structural)]
pub enum MalformedRecord {
    NotAReply,
    MissingId,
    MissingGroup,
    MissingVlanId,
    InvalidVlanId,
    MissingPorts,
}

/// The value stored under `key`: `None` if the name is absent,
/// `Some(None)` if it is present without a value.
pub open spec fn lookup(attrs: Seq<(String, Option<String>)>, key: Seq<char>) -> Option<Option<Seq<char>>>
    decreases attrs.len(),
{
    if attrs.len() == 0 {
        None
    } else if attrs[0].0@ == key {
        Some(
            match attrs[0].1 {
                Some(v) => Some(v@),
                None => None,
            },
        )
    } else {
        lookup(attrs.drop_first(), key)
    }
}

/// The value of `key` when it is present with a value.
pub open spec fn value_of(attrs: Seq<(String, Option<String>)>, key: Seq<char>) -> Option<Seq<char>> {
    match lookup(attrs, key) {
        Some(Some(v)) => Some(v),
        _ => None,
    }
}

pub open spec fn is_digit(c: char) -> bool {
    '0' <= c <= '9'
}

/// The number that a sequence of decimal digits denotes.
pub open spec fn digits_value(s: Seq<char>) -> nat
    decreases s.len(),
{
    if s.len() == 0 {
        0
    } else {
        digits_value(s.drop_last()) * 10 + (s.last() as nat - '0' as nat) as nat
    }
}

/// The digits of a decimal number with an optional leading `+`.
pub open spec fn unsigned_digits(s: Seq<char>) -> Seq<char> {
    if s.len() > 0 && s[0] == '+' {
        s.drop_first()
    } else {
        s
    }
}

/// A `u32` written in decimal: an optional `+`, then one or more digits,
/// with a value that fits.
pub open spec fn parse_u32(s: Seq<char>) -> Option<u32> {
    let d = unsigned_digits(s);
    if d.len() > 0 && (forall|i: int| 0 <= i < d.len() ==> is_digit(#[trigger] d[i])) && digits_value(d)
        <= u32::MAX {
        Some(digits_value(d) as u32)
    } else {
        None
    }
}

/// The pieces of `s` between commas; a string without commas is one piece.
pub open spec fn split_commas(s: Seq<char>) -> Seq<Seq<char>>
    decreases s.len(),
{
    if s.len() == 0 {
        seq![Seq::empty()]
    } else {
        let p = split_commas(s.drop_last());
        if s.last() == ',' {
            p.push(Seq::empty())
        } else {
            p.update(p.len() - 1, p.last().push(s.last()))
        }
    }
}

pub open spec fn group_key() -> Seq<char> {
    "group"@
}

pub open spec fn vlan_key() -> Seq<char> {
    "vid"@
}

pub open spec fn ports_key() -> Seq<char> {
    "on-ports"@
}

pub open spec fn id_key() -> Seq<char> {
    ".id"@
}

pub open spec fn dead_key() -> Seq<char> {
    ".dead"@
}

/// The entry that a data reply describes, or why it describes none.
pub open spec fn parse_entry(attrs: Seq<(String, Option<String>)>) -> Result<EntryView, MalformedRecord> {
    match value_of(attrs, group_key()) {
        None => Err(MalformedRecord::MissingGroup),
        Some(group) => match value_of(attrs, vlan_key()) {
            None => Err(MalformedRecord::MissingVlanId),
            Some(vid) => match parse_u32(vid) {
                None => Err(MalformedRecord::InvalidVlanId),
                Some(vlan_id) => match value_of(attrs, ports_key()) {
                    None => Err(MalformedRecord::MissingPorts),
                    Some(ports) => Ok(EntryView { group, vlan_id, ports: split_commas(ports) }),
                },
            },
        },
    }
}

impl ReplyRecord {
    /// The value stored under `key`, as `value_of` states it.
    pub fn value(&self, key: &str) -> (r: Option<String>)
        ensures
            match r {
                Some(v) => value_of(self.attributes@, key@) == Some(v@),
                None => value_of(self.attributes@, key@) is None,
            },
    {
        let wanted = String::from_str(key);
        let mut i: usize = 0;
        assert(self.attributes@.subrange(0, self.attributes@.len() as int) =~= self.attributes@);
        while i < self.attributes.len()
            invariant
                i <= self.attributes@.len(),
                wanted@ == key@,
                lookup(self.attributes@, key@) == lookup(
                    self.attributes@.subrange(i as int, self.attributes@.len() as int),
                    key@,
                ),
            decreases self.attributes@.len() - i,
        {
            let ghost rest = self.attributes@.subrange(i as int, self.attributes@.len() as int);
            assert(rest.len() > 0 && rest[0] == self.attributes@[i as int]);
            assert(rest.drop_first() =~= self.attributes@.subrange(i + 1, self.attributes@.len() as int));
            if self.attributes[i].0 == wanted {
                return match &self.attributes[i].1 {
                    Some(v) => Some(v.clone()),
                    None => None,
                };
            }
            i = i + 1;
        }
        None
    }
}

/// Reads a VLAN id written in decimal.
pub fn parse_vlan_id(s: &str) -> (r: Option<u32>)
    ensures
        r == parse_u32(s@),
{
    let n = s.unicode_len();
    let mut start: usize = 0;
    if n > 0 && s.get_char(0) == '+' {
        start = 1;
    }
    let ghost d = unsigned_digits(s@);
    assert(d =~= s@.subrange(start as int, n as int));
    if start >= n {
        return None;
    }
    let mut acc: u64 = 0;
    let mut over = false;
    let mut i: usize = start;
    assert(s@.subrange(start as int, start as int) =~= Seq::<char>::empty());
    while i < n
        invariant
            start <= i <= n,
            n == s@.len(),
            d == s@.subrange(start as int, n as int),
            d == unsigned_digits(s@),
            forall|j: int| start <= j < i ==> is_digit(#[trigger] s@[j]),
            !over ==> acc == digits_value(s@.subrange(start as int, i as int)) && acc <= u32::MAX,
            over ==> digits_value(s@.subrange(start as int, i as int)) > u32::MAX,
        decreases n - i,
    {
        let c = s.get_char(i);
        if !('0' <= c && c <= '9') {
            assert(d[i - start] == s@[i as int]);
            assert(!is_digit(d[i - start]));

            return None;
        }
        proof {
            let next = s@.subrange(start as int, i + 1);
            assert(next.drop_last() =~= s@.subrange(start as int, i as int));
            assert(next.last() == c);
        }
        if !over {
            let v: u64 = acc * 10 + (c as u64 - '0' as u64);
            if v > u32::MAX as u64 {
                over = true;
            } else {
                acc = v;
            }
        }
        i = i + 1;
    }
    assert(s@.subrange(start as int, n as int) == d);
    assert forall|j: int| 0 <= j < d.len() implies is_digit(#[trigger] d[j]) by {
        assert(d[j] == s@[j + start]);
    }
    if over {
        None
    } else {
        Some(acc as u32)
    }
}

/// Splits a comma-separated list into its pieces.
pub fn split_ports(s: &str) -> (r: Vec<String>)
    ensures
        ports_view(r@) == split_commas(s@),
{
    let n = s.unicode_len();
    let mut parts: Vec<String> = Vec::new();
    let mut start: usize = 0;
    let mut i: usize = 0;
    assert(s@.subrange(0, 0) =~= Seq::<char>::empty());
    assert(ports_view(parts@) =~= Seq::<Seq<char>>::empty());
    assert(split_commas(s@.subrange(0, 0)) =~= ports_view(parts@).push(s@.subrange(0, 0)));
    while i < n
        invariant
            start <= i <= n,
            n == s@.len(),
            split_commas(s@.subrange(0, i as int)) == ports_view(parts@).push(s@.subrange(start as int, i as int)),
        decreases n - i,
    {
        let c = s.get_char(i);
        let ghost before = ports_view(parts@);
        let ghost cur = s@.subrange(start as int, i as int);
        assert(s@.subrange(0, i + 1).drop_last() =~= s@.subrange(0, i as int));
        assert(s@.subrange(0, i + 1).last() == c);
        if c == ',' {
            let piece = String::from_str(s.substring_char(start, i));
            parts.push(piece);
            start = i + 1;
            assert(ports_view(parts@) =~= before.push(cur));
            assert(s@.subrange(start as int, i + 1) =~= Seq::<char>::empty());
        } else {
            assert(s@.subrange(start as int, i + 1) =~= cur.push(c));
            assert(before.push(cur).update(before.len() as int, cur.push(c)) =~= before.push(cur.push(c)));
        }
        i = i + 1;
    }
    assert(s@.subrange(0, n as int) =~= s@);
    let ghost before = ports_view(parts@);
    let piece = String::from_str(s.substring_char(start, n));
    parts.push(piece);
    assert(ports_view(parts@) =~= before.push(s@.subrange(start as int, n as int)));
    parts
}

impl BridgeMdbEntry {
    /// Reads the entry that a data reply describes.
    pub fn from_reply(reply: &ReplyRecord) -> (r: Result<BridgeMdbEntry, MalformedRecord>)
        ensures
            match r {
                Ok(e) => parse_entry(reply.attributes@) == Ok::<EntryView, MalformedRecord>(e@),
                Err(x) => parse_entry(reply.attributes@) == Err::<EntryView, MalformedRecord>(x),
            },
    {
        let group = match reply.value("group") {
            Some(g) => g,
            None => return Err(MalformedRecord::MissingGroup),
        };
        let vid = match reply.value("vid") {
            Some(v) => v,
            None => return Err(MalformedRecord::MissingVlanId),
        };
        let vlan_id = match parse_vlan_id(vid.as_str()) {
            Some(n) => n,
            None => return Err(MalformedRecord::InvalidVlanId),
        };
        let ports = match reply.value("on-ports") {
            Some(p) => split_ports(p.as_str()),
            None => return Err(MalformedRecord::MissingPorts),
        };
        Ok(BridgeMdbEntry { group, vlan_id, ports })
    }

    /// Reads the entry that a device response describes; only a data reply
    /// describes one.
    pub fn from_response(response: &DeviceResponse) -> (r: Result<BridgeMdbEntry, MalformedRecord>)
        ensures
            match response {
                DeviceResponse::Reply(reply) => match r {
                    Ok(e) => parse_entry(reply.attributes@) == Ok::<EntryView, MalformedRecord>(e@),
                    Err(x) => parse_entry(reply.attributes@) == Err::<EntryView, MalformedRecord>(x),
                },
                DeviceResponse::Other => r == Err::<BridgeMdbEntry, MalformedRecord>(MalformedRecord::NotAReply),
            },
    {
        match response {
            DeviceResponse::Reply(reply) => BridgeMdbEntry::from_reply(reply),
            DeviceResponse::Other => Err(MalformedRecord::NotAReply),
        }
    }
}

} // verus!
