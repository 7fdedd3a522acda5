//! Pure decision logic of the poll driver.
//!
//! Each tick has a send phase and a drain phase.  The send phase
//! builds one encoded probe per matching target and records its
//! request identifier; the drain phase matches each received reply
//! against the outstanding requests and turns it into a sample for the
//! metrics sink, or discards it.  The caller owns the clock, the
//! socket, and the sink: it hands in elapsed times and packets and
//! carries out the returned action.

use vstd::prelude::*;
use vstd::utf8::{encode_utf8, encode_utf8_decode_utf8};
use crate::correlate::{CorrelationTable, PendingEntry, Target};
use crate::status::{parse_ok, parse_value, parse_u32_field, split_bytes, split_on, FIELD_SEP};
use crate::wire::{spec_encode, Packet, PacketModel};

verus! {

/// The protocol kind that this driver probes.
pub open spec fn protocol_kind() -> Seq<char> {
    "raknet"@
}

/// A resolved measurement, ready for the metrics sink.
#[derive(Clone, Debug, PartialEq, Eq)]
pub struct Sample {
    /// Seconds since the epoch, derived from the channel start time
    /// plus the reply's elapsed seconds.
    pub time_secs: u64,
    pub kind: String,
    pub name: String,
    pub player_count: u32,
    pub player_limit: u32,
    /// Round-trip time in milliseconds.
    pub rtt: u64,
}

/// What the drain phase decided for one received packet.
#[derive(Clone, Debug, PartialEq, Eq)]
pub enum ReplyAction {
    /// Not a pong; this protocol path ignores it.
    Ignored,
    /// The status text has fewer than six fields; the reply is
    /// unusable and dropped without touching the table.
    Unusable,
    /// No request with the echoed identifier is outstanding; the reply
    /// is a duplicate, stale, or unsolicited, and is dropped.
    Unmatched,
    /// The request was outstanding but the reply is unusable after
    /// all: a player field is not an unsigned integer, or the reply's
    /// elapsed time precedes the send time.  The caller treats this as
    /// fatal for the tick.
    Malformed,
    /// The reply resolved; push this sample to the sink.
    Publish(Sample),
}

/// Byte-for-byte equality of two slices.
fn bytes_eq(a: &[u8], b: &[u8]) -> (r: bool)
    ensures
        r == (a@ == b@),
{
    let n = a.len();
    if n != b.len() {
        return false;
    }
    let mut i: usize = 0;
    while i < n
        invariant
            n == a@.len() == b@.len(),
            i <= n,
            forall|j: int| 0 <= j < i ==> a@[j] == b@[j],
        decreases n - i,
    {
        if a[i] != b[i] {
            return false;
        }
        i += 1;
    }
    proof {
        assert(a@ =~= b@);
    }
    true
}

/// Whether a target's configured kind selects this protocol.
pub fn is_protocol_kind(kind: &str) -> (r: bool)
    ensures
        r == (kind@ == protocol_kind()),
{
    let r = bytes_eq(kind.as_bytes(), "raknet".as_bytes());
    proof {
        if r {
            encode_utf8_decode_utf8(kind@);
            encode_utf8_decode_utf8("raknet"@);
        }
    }
    r
}

/// The poll driver's own state: the stable client identifier, the
/// monotonic request-identifier counter, and the outstanding requests.
pub struct PollDriver {
    pub client_guid: u64,
    pub next_ping_id: u64,
    pub pending: CorrelationTable,
}

impl PollDriver {
    /// A fresh driver with no outstanding requests.  The client
    /// identifier is chosen by the caller, once per process.
    pub fn new(client_guid: u64) -> (d: Self)
        ensures
            d.client_guid == client_guid,
            d.next_ping_id == 0,
            d.pending@ == Map::<u64, PendingEntry>::empty(),
    {
        PollDriver { client_guid, next_ping_id: 0, pending: CorrelationTable::new() }
    }

    /// Send phase for one target.  For a target of this protocol's
    /// kind: assigns a fresh request identifier, records the send
    /// context, and returns the encoded ping to dispatch.  A target of
    /// any other kind is inert and nothing changes.
    pub fn prepare_probe(&mut self, target: Target, send_time: u64) -> (r: Option<Vec<u8>>)
        requires
            old(self).next_ping_id < u64::MAX,
        ensures
            final(self).client_guid == old(self).client_guid,
            target.kind@ != protocol_kind() ==> {
                &&& r is None
                &&& final(self).next_ping_id == old(self).next_ping_id
                &&& final(self).pending@ == old(self).pending@
            },
            target.kind@ == protocol_kind() ==> {
                &&& r matches Some(v) && v@ == spec_encode(
                    PacketModel::Ping {
                        elapsed_time: old(self).next_ping_id,
                        client_guid: old(self).client_guid,
                    },
                )
                &&& final(self).next_ping_id == old(self).next_ping_id + 1
                &&& final(self).pending@ == old(self).pending@.insert(
                    old(self).next_ping_id,
                    (PendingEntry { send_time, target }),
                )
            },
    {
        if !is_protocol_kind(target.kind.as_str()) {
            return None;
        }
        let id = self.next_ping_id;
        let packet = Packet::UnconnectedPing { elapsed_time: id, client_guid: self.client_guid };
        let encoded = match packet.encode() {
            Ok(v) => v,
            Err(_) => {
                proof {
                    assert(false);
                }
                Vec::new()
            },
        };
        self.pending.record(id, PendingEntry { send_time, target });
        self.next_ping_id = id + 1;
        Some(encoded)
    }

    /// Drain phase for one received packet.
    ///
    /// A pong's status text is split on `;`.  With fewer than six
    /// fields the reply is unusable and the table is untouched.
    /// Otherwise the echoed identifier is resolved: a miss drops the
    /// reply; a hit consumes the entry and yields a sample whose
    /// player count and limit are fields four and five parsed as
    /// integers, whose round-trip time is the reply's elapsed time
    /// minus the recorded send time, and whose timestamp is the
    /// channel start time plus the reply's elapsed seconds.
    pub fn handle_reply(&mut self, reply_time: u64, packet: &Packet, start_secs: u64) -> (r:
        ReplyAction)
        requires
            start_secs + reply_time / 1000 <= u64::MAX,
        ensures
            final(self).client_guid == old(self).client_guid,
            final(self).next_ping_id == old(self).next_ping_id,
            packet@ matches PacketModel::Ping { .. } ==> {
                &&& r == ReplyAction::Ignored
                &&& final(self).pending@ == old(self).pending@
            },
            packet@ matches PacketModel::Pong { elapsed_time: id, user_data, .. } ==> {
                let fields = split_on(encode_utf8(user_data), FIELD_SEP);
                &&& fields.len() < 6 ==> {
                    &&& r == ReplyAction::Unusable
                    &&& final(self).pending@ == old(self).pending@
                }
                &&& fields.len() >= 6 && !old(self).pending@.contains_key(id) ==> {
                    &&& r == ReplyAction::Unmatched
                    &&& final(self).pending@ == old(self).pending@
                }
                &&& fields.len() >= 6 && old(self).pending@.contains_key(id) ==> {
                    &&& final(self).pending@ == old(self).pending@.remove(id)
                    &&& parse_ok(fields[4]) && parse_ok(fields[5]) && old(
                        self,
                    ).pending@[id].send_time <= reply_time ==> r == ReplyAction::Publish(
                        (Sample {
                            time_secs: (start_secs + reply_time / 1000) as u64,
                            kind: old(self).pending@[id].target.kind,
                            name: old(self).pending@[id].target.name,
                            player_count: parse_value(fields[4]) as u32,
                            player_limit: parse_value(fields[5]) as u32,
                            rtt: (reply_time - old(self).pending@[id].send_time) as u64,
                        }),
                    )
                    &&& !(parse_ok(fields[4]) && parse_ok(fields[5]) && old(
                        self,
                    ).pending@[id].send_time <= reply_time) ==> r == ReplyAction::Malformed
                }
            },
    {
        match packet {
            Packet::UnconnectedPing { .. } => ReplyAction::Ignored,
            Packet::UnconnectedPong { elapsed_time, server_guid: _, user_data } => {
                let fields = split_bytes(user_data.as_str().as_bytes(), FIELD_SEP);
                if fields.len() < 6 {
                    return ReplyAction::Unusable;
                }
                match self.pending.resolve(*elapsed_time) {
                    None => ReplyAction::Unmatched,
                    Some(entry) => {
                        let count = parse_u32_field(fields[4].as_slice());
                        let limit = parse_u32_field(fields[5].as_slice());
                        match (count, limit) {
                            (Some(player_count), Some(player_limit)) => {
                                if entry.send_time <= reply_time {
                                    ReplyAction::Publish(
                                        Sample {
                                            time_secs: start_secs + reply_time / 1000,
                                            kind: entry.target.kind,
                                            name: entry.target.name,
                                            player_count,
                                            player_limit,
                                            rtt: reply_time - entry.send_time,
                                        },
                                    )
                                } else {
                                    ReplyAction::Malformed
                                }
                            },
                            _ => ReplyAction::Malformed,
                        }
                    },
                }
            },
        }
    }
}

} // verus!
