//! Action constructors.

use crate::codec::Wire;
use crate::wire::{ActionV, ActionW, EntryIdW, PortIdW, TableActionW, TableEntryW, TableIdW};
use vstd::prelude::*;

verus! {

/// A route: what matches a prefix leaves by a port.
pub open spec fn route_action(
    table_id: u32,
    entry_id: u64,
    key: u64,
    prefix_len: u8,
    egress_port: u16,
) -> ActionV {
    ActionV::InstallTableEntry {
        table_id: TableIdW(table_id),
        entry: TableEntryW {
            id: EntryIdW(entry_id),
            key,
            prefix_len,
            priority: 0,
            action: TableActionW::SetEgress { port: PortIdW(egress_port) },
        },
    }
}

/// An end to an entry.
pub open spec fn delete_action(table_id: u32, entry_id: u64) -> ActionV {
    ActionV::DeleteTableEntry { table_id: TableIdW(table_id), entry_id: EntryIdW(entry_id) }
}

/// What a packet with a payload is taken to weigh.
pub open spec fn packet_weight(payload: nat) -> u64 {
    if payload + 20 > u64::MAX {
        u64::MAX
    } else {
        (payload + 20) as u64
    }
}

/// A data packet on its way.
pub open spec fn inject_action(
    port: u16,
    ip_src: u32,
    ip_dst: u32,
    ip_proto: u8,
    ip_ttl: u8,
    payload: Seq<u8>,
) -> ActionV {
    ActionV::InjectPacket {
        port: PortIdW(port),
        ip_src,
        ip_dst,
        ip_proto,
        ip_ttl,
        kind: 0,
        size_bytes: packet_weight(payload.len()),
        payload,
    }
}

pub fn install_route(
    table_id: u32,
    entry_id: u64,
    key: u64,
    prefix_len: u8,
    egress_port: u16,
) -> (r: ActionW)
    ensures
        r@ == route_action(table_id, entry_id, key, prefix_len, egress_port),
{
    ActionW::InstallTableEntry {
        table_id: TableIdW(table_id),
        entry: TableEntryW {
            id: EntryIdW(entry_id),
            key,
            prefix_len,
            priority: 0,
            action: TableActionW::SetEgress { port: PortIdW(egress_port) },
        },
    }
}

pub fn install_entry(table_id: u32, entry: TableEntryW) -> (r: ActionW)
    ensures
        r@ == (ActionV::InstallTableEntry { table_id: TableIdW(table_id), entry }),
{
    ActionW::InstallTableEntry { table_id: TableIdW(table_id), entry }
}

pub fn delete_entry(table_id: u32, entry_id: u64) -> (r: ActionW)
    ensures
        r@ == delete_action(table_id, entry_id),
{
    ActionW::DeleteTableEntry { table_id: TableIdW(table_id), entry_id: EntryIdW(entry_id) }
}

fn weigh(payload: &Vec<u8>) -> (r: u64)
    ensures
        r == packet_weight(payload@.len()),
{
    (payload.len() as u64).saturating_add(20)
}

/// Injects a data packet on a port.
pub fn inject_packet(
    port: u16,
    ip_src: u32,
    ip_dst: u32,
    ip_proto: u8,
    ip_ttl: u8,
    payload: Vec<u8>,
) -> (r: ActionW)
    ensures
        r@ == inject_action(port, ip_src, ip_dst, ip_proto, ip_ttl, payload@),
{
    let size_bytes: u64 = weigh(&payload);
    assert(payload.val() =~= payload@);
    ActionW::InjectPacket {
        port: PortIdW(port),
        ip_src,
        ip_dst,
        ip_proto,
        ip_ttl,
        kind: 0,
        size_bytes,
        payload,
    }
}

/// Injects a SimpleBGP packet on a port. The payload is an encoded envelope.
pub fn inject_bgp_packet(
    port: u16,
    sender_speaker_ip: u32,
    receiver_speaker_ip: u32,
    ip_ttl: u8,
    envelope_bytes: Vec<u8>,
) -> (r: ActionW)
    ensures
        r@ == (ActionV::InjectPacket {
            port: PortIdW(port),
            ip_src: sender_speaker_ip,
            ip_dst: receiver_speaker_ip,
            ip_proto: 179,
            ip_ttl,
            kind: 1,
            size_bytes: packet_weight(envelope_bytes@.len()),
            payload: envelope_bytes@,
        }),
{
    let size_bytes: u64 = weigh(&envelope_bytes);
    assert(envelope_bytes.val() =~= envelope_bytes@);
    ActionW::InjectPacket {
        port: PortIdW(port),
        ip_src: sender_speaker_ip,
        ip_dst: receiver_speaker_ip,
        ip_proto: 179,
        ip_ttl,
        kind: 1,
        size_bytes,
        payload: envelope_bytes,
    }
}

/// Asks the simulator to fire `on_timer` again.
pub fn schedule_timer(delay_ns: u64) -> (r: ActionW)
    ensures
        r@ == (ActionV::ScheduleTimer { delay_ns }),
{
    ActionW::ScheduleTimer { delay_ns }
}

} // verus!
