//! How values are laid out in bytes.

use crate::codec::{unzigzag, varint, zigzag, Wire};
use crate::programs::my_switch::lsp::{LspMessage, LspV, Prefix};
use crate::sim_log::schema::{
    DropReasonW, LogEvent, LogEventV, LogFrame, LogFrameV, NodeRefW, PacketSnapshotW,
};
use crate::sim_log::writer::{framed, le32};
use crate::wire::{
    ActionV, ActionW, InstrW, MatchKindW, PacketFieldW, PuntEventV, PuntEventW, PuntReasonW,
    TableActionW, TableEntryW, TraceHopW, TraceReplyV, TraceReplyW,
};
use crate::wire_bgp::{
    AsIdW, BgpEnvelopeV, BgpEnvelopeW, BgpTagW, SimpleBgpMessageV, SimpleBgpMessageW, TrafficClassW,
};
use vstd::prelude::*;

verus! {

/// The value of bytes that hold seven bits each, the lowest first.
pub open spec fn sevens(b: Seq<u8>) -> int
    decreases b.len(),
{
    if b.len() == 0 {
        0
    } else {
        b[0] % 128 + 128 * sevens(b.drop_first())
    }
}

/// A number takes seven bits a byte, the lowest first; every byte but the last has its
/// top bit set, and the last is not idle.
pub proof fn numbers_take_seven_bits_a_byte(n: nat, i: int)
    ensures
        varint(n).len() > 0,
        sevens(varint(n)) == n,
        0 <= i < varint(n).len() - 1 ==> varint(n)[i] >= 128,
        varint(n).last() < 128,
        n > 0 ==> varint(n).last() > 0,
    decreases n,
{
    reveal_with_fuel(varint, 2);
    let b = varint(n);
    if n < 128 {
        assert(b.drop_first() =~= Seq::<u8>::empty());
        assert(sevens(Seq::<u8>::empty()) == 0);
    } else {
        numbers_take_seven_bits_a_byte(n / 128, i - 1);
        assert(b.drop_first() =~= varint(n / 128));
        assert(b.last() == varint(n / 128).last());
    }
}

proof fn lemma_small(n: u32)
    requires
        n < 128,
    ensures
        u32::bytes(n).len() == 1,
        u32::bytes(n)[0] == n,
{
    reveal_with_fuel(varint, 1);
}

/// The first byte tells which of the packet fields it is: they are numbered from nought.
pub proof fn fields_have_their_numbers(v: PacketFieldW)
    ensures
        PacketFieldW::bytes(v).len() > 0,
        v is IpSrc ==> PacketFieldW::bytes(v)[0] == 0,
        v is IpDst ==> PacketFieldW::bytes(v)[0] == 1,
        v is IpProto ==> PacketFieldW::bytes(v)[0] == 2,
        v is IpTtl ==> PacketFieldW::bytes(v)[0] == 3,
        v is IpDscp ==> PacketFieldW::bytes(v)[0] == 4,
        v is SrcPort ==> PacketFieldW::bytes(v)[0] == 5,
        v is DstPort ==> PacketFieldW::bytes(v)[0] == 6,
        v is AppId ==> PacketFieldW::bytes(v)[0] == 7,
        v is FlowId ==> PacketFieldW::bytes(v)[0] == 8,
        v is Custom ==> PacketFieldW::bytes(v)[0] == 9,
        v is Size ==> PacketFieldW::bytes(v)[0] == 10,
        v is Kind ==> PacketFieldW::bytes(v)[0] == 11,
        v is LabelTop ==> PacketFieldW::bytes(v)[0] == 12,
        v is LabelDepth ==> PacketFieldW::bytes(v)[0] == 13,
{
    lemma_small(0);
    lemma_small(1);
    lemma_small(2);
    lemma_small(3);
    lemma_small(4);
    lemma_small(5);
    lemma_small(6);
    lemma_small(7);
    lemma_small(8);
    lemma_small(9);
    lemma_small(10);
    lemma_small(11);
    lemma_small(12);
    lemma_small(13);
}

/// The first byte tells which of the instructions it is: they are numbered from nought.
pub proof fn instructions_have_their_numbers(v: InstrW)
    ensures
        InstrW::bytes(v).len() > 0,
        v is LoadField ==> InstrW::bytes(v)[0] == 0,
        v is StoreField ==> InstrW::bytes(v)[0] == 1,
        v is LoadMeta ==> InstrW::bytes(v)[0] == 2,
        v is StoreMeta ==> InstrW::bytes(v)[0] == 3,
        v is Const ==> InstrW::bytes(v)[0] == 4,
        v is Add ==> InstrW::bytes(v)[0] == 5,
        v is Sub ==> InstrW::bytes(v)[0] == 6,
        v is And ==> InstrW::bytes(v)[0] == 7,
        v is Or ==> InstrW::bytes(v)[0] == 8,
        v is Xor ==> InstrW::bytes(v)[0] == 9,
        v is Eq ==> InstrW::bytes(v)[0] == 10,
        v is Lt ==> InstrW::bytes(v)[0] == 11,
        v is TableLookup ==> InstrW::bytes(v)[0] == 12,
        v is RegisterRead ==> InstrW::bytes(v)[0] == 13,
        v is RegisterWrite ==> InstrW::bytes(v)[0] == 14,
        v is CounterAdd ==> InstrW::bytes(v)[0] == 15,
        v is BranchIf ==> InstrW::bytes(v)[0] == 16,
        v is Drop ==> InstrW::bytes(v)[0] == 17,
        v is Punt ==> InstrW::bytes(v)[0] == 18,
        v is SetEgress ==> InstrW::bytes(v)[0] == 19,
        v is SetQueue ==> InstrW::bytes(v)[0] == 20,
        v is Recirculate ==> InstrW::bytes(v)[0] == 21,
        v is Noop ==> InstrW::bytes(v)[0] == 22,
        v is PushLabel ==> InstrW::bytes(v)[0] == 23,
        v is PopLabel ==> InstrW::bytes(v)[0] == 24,
        v is SwapLabel ==> InstrW::bytes(v)[0] == 25,
        v is MarkTrace ==> InstrW::bytes(v)[0] == 26,
{
    lemma_small(0);
    lemma_small(1);
    lemma_small(2);
    lemma_small(3);
    lemma_small(4);
    lemma_small(5);
    lemma_small(6);
    lemma_small(7);
    lemma_small(8);
    lemma_small(9);
    lemma_small(10);
    lemma_small(11);
    lemma_small(12);
    lemma_small(13);
    lemma_small(14);
    lemma_small(15);
    lemma_small(16);
    lemma_small(17);
    lemma_small(18);
    lemma_small(19);
    lemma_small(20);
    lemma_small(21);
    lemma_small(22);
    lemma_small(23);
    lemma_small(24);
    lemma_small(25);
    lemma_small(26);
}

/// The first byte tells which of the requests it is: they are numbered from nought.
pub proof fn requests_have_their_numbers(v: ActionV)
    ensures
        ActionW::bytes(v).len() > 0,
        v is InstallTableEntry ==> ActionW::bytes(v)[0] == 0,
        v is DeleteTableEntry ==> ActionW::bytes(v)[0] == 1,
        v is SetQueueConfig ==> ActionW::bytes(v)[0] == 2,
        v is InjectPacket ==> ActionW::bytes(v)[0] == 3,
        v is ScheduleTimer ==> ActionW::bytes(v)[0] == 4,
{
    lemma_small(0);
    lemma_small(1);
    lemma_small(2);
    lemma_small(3);
    lemma_small(4);
}

/// The first byte tells which of the table actions it is: they are numbered from nought.
pub proof fn table_actions_have_their_numbers(v: TableActionW)
    ensures
        TableActionW::bytes(v).len() > 0,
        v is SetMeta ==> TableActionW::bytes(v)[0] == 0,
        v is SetEgress ==> TableActionW::bytes(v)[0] == 1,
        v is SetQueue ==> TableActionW::bytes(v)[0] == 2,
        v is Drop ==> TableActionW::bytes(v)[0] == 3,
        v is Punt ==> TableActionW::bytes(v)[0] == 4,
{
    lemma_small(0);
    lemma_small(1);
    lemma_small(2);
    lemma_small(3);
    lemma_small(4);
}

/// The first byte tells which of the events of a log it is: they are numbered from nought.
pub proof fn logged_events_have_their_numbers(v: LogEventV)
    ensures
        LogEvent::bytes(v).len() > 0,
        v is Header ==> LogEvent::bytes(v)[0] == 0,
        v is AppAdded ==> LogEvent::bytes(v)[0] == 1,
        v is SwitchAdded ==> LogEvent::bytes(v)[0] == 2,
        v is LinkAdded ==> LogEvent::bytes(v)[0] == 3,
        v is BgpConfigured ==> LogEvent::bytes(v)[0] == 4,
        v is LinkFailed ==> LogEvent::bytes(v)[0] == 5,
        v is LinkRestored ==> LogEvent::bytes(v)[0] == 6,
        v is SwitchFailed ==> LogEvent::bytes(v)[0] == 7,
        v is CpuFailed ==> LogEvent::bytes(v)[0] == 8,
        v is PacketIngress ==> LogEvent::bytes(v)[0] == 9,
        v is PacketEgress ==> LogEvent::bytes(v)[0] == 10,
        v is PacketDropped ==> LogEvent::bytes(v)[0] == 11,
        v is PacketDelivered ==> LogEvent::bytes(v)[0] == 12,
        v is PacketPunted ==> LogEvent::bytes(v)[0] == 13,
        v is ProgramInstalled ==> LogEvent::bytes(v)[0] == 14,
        v is TableEntryInstalled ==> LogEvent::bytes(v)[0] == 15,
        v is TableEntryDeleted ==> LogEvent::bytes(v)[0] == 16,
        v is QueueConfigChanged ==> LogEvent::bytes(v)[0] == 17,
{
    lemma_small(0);
    lemma_small(1);
    lemma_small(2);
    lemma_small(3);
    lemma_small(4);
    lemma_small(5);
    lemma_small(6);
    lemma_small(7);
    lemma_small(8);
    lemma_small(9);
    lemma_small(10);
    lemma_small(11);
    lemma_small(12);
    lemma_small(13);
    lemma_small(14);
    lemma_small(15);
    lemma_small(16);
    lemma_small(17);
}

/// The first byte tells which of the drop reasons it is: they are numbered from nought.
pub proof fn drop_reasons_have_their_numbers(v: DropReasonW)
    ensures
        DropReasonW::bytes(v).len() > 0,
        v is Ttl ==> DropReasonW::bytes(v)[0] == 0,
        v is NoRoute ==> DropReasonW::bytes(v)[0] == 1,
        v is NoEgressLink ==> DropReasonW::bytes(v)[0] == 2,
        v is LinkDrop ==> DropReasonW::bytes(v)[0] == 3,
        v is SwitchFailed ==> DropReasonW::bytes(v)[0] == 4,
        v is Recirculation ==> DropReasonW::bytes(v)[0] == 5,
{
    lemma_small(0);
    lemma_small(1);
    lemma_small(2);
    lemma_small(3);
    lemma_small(4);
    lemma_small(5);
}

/// The first byte tells which of the traffic classes it is: they are numbered from nought.
pub proof fn traffic_classes_have_their_numbers(v: TrafficClassW)
    ensures
        TrafficClassW::bytes(v).len() > 0,
        v is BestEffort ==> TrafficClassW::bytes(v)[0] == 0,
        v is LowLatency ==> TrafficClassW::bytes(v)[0] == 1,
        v is Throughput ==> TrafficClassW::bytes(v)[0] == 2,
        v is UptimeSensitive ==> TrafficClassW::bytes(v)[0] == 3,
        v is LowLatencyThroughput ==> TrafficClassW::bytes(v)[0] == 4,
        v is Vod ==> TrafficClassW::bytes(v)[0] == 5,
        v is Gaming ==> TrafficClassW::bytes(v)[0] == 6,
        v is Enterprise ==> TrafficClassW::bytes(v)[0] == 7,
        v is Backup ==> TrafficClassW::bytes(v)[0] == 8,
        v is Hft ==> TrafficClassW::bytes(v)[0] == 9,
{
    lemma_small(0);
    lemma_small(1);
    lemma_small(2);
    lemma_small(3);
    lemma_small(4);
    lemma_small(5);
    lemma_small(6);
    lemma_small(7);
    lemma_small(8);
    lemma_small(9);
}

/// The first byte tells which of the tags it is: they are numbered from nought.
pub proof fn tags_have_their_numbers(v: BgpTagW)
    ensures
        BgpTagW::bytes(v).len() > 0,
        v is NoExport ==> BgpTagW::bytes(v)[0] == 0,
        v is BackupOnly ==> BgpTagW::bytes(v)[0] == 1,
        v is LowLatencyHint ==> BgpTagW::bytes(v)[0] == 2,
        v is BulkOkay ==> BgpTagW::bytes(v)[0] == 3,
        v is Blackhole ==> BgpTagW::bytes(v)[0] == 4,
        v is Experimental ==> BgpTagW::bytes(v)[0] == 5,
{
    lemma_small(0);
    lemma_small(1);
    lemma_small(2);
    lemma_small(3);
    lemma_small(4);
    lemma_small(5);
}

/// The first byte tells which of the messages it is: they are numbered from nought.
pub proof fn messages_have_their_numbers(v: SimpleBgpMessageV)
    ensures
        SimpleBgpMessageW::bytes(v).len() > 0,
        v is KeepAlive ==> SimpleBgpMessageW::bytes(v)[0] == 0,
        v is Ack ==> SimpleBgpMessageW::bytes(v)[0] == 1,
        v is Promise ==> SimpleBgpMessageW::bytes(v)[0] == 2,
        v is Withdraw ==> SimpleBgpMessageW::bytes(v)[0] == 3,
{
    lemma_small(0);
    lemma_small(1);
    lemma_small(2);
    lemma_small(3);
}

/// The first byte tells which of the punt reasons it is: they are numbered from nought.
pub proof fn punt_reasons_have_their_numbers(v: PuntReasonW)
    ensures
        PuntReasonW::bytes(v).len() > 0,
        v is NoRoute ==> PuntReasonW::bytes(v)[0] == 0,
        v is TtlExpired ==> PuntReasonW::bytes(v)[0] == 1,
        v is Custom ==> PuntReasonW::bytes(v)[0] == 2,
{
    lemma_small(0);
    lemma_small(1);
    lemma_small(2);
}

/// The first byte tells which of the match kinds it is: they are numbered from nought.
pub proof fn match_kinds_have_their_numbers(v: MatchKindW)
    ensures
        MatchKindW::bytes(v).len() > 0,
        v is Exact ==> MatchKindW::bytes(v)[0] == 0,
        v is Lpm ==> MatchKindW::bytes(v)[0] == 1,
{
    lemma_small(0);
    lemma_small(1);
}

/// The first byte tells which of the nodes it is: they are numbered from nought.
pub proof fn nodes_have_their_numbers(v: NodeRefW)
    ensures
        NodeRefW::bytes(v).len() > 0,
        v is Switch ==> NodeRefW::bytes(v)[0] == 0,
        v is App ==> NodeRefW::bytes(v)[0] == 1,
{
    lemma_small(0);
    lemma_small(1);
}

/// A frame is its time and its event; in a file its length comes first, in four bytes.
pub proof fn frames_are_time_and_event(f: LogFrameV)
    requires
        LogFrame::bytes(f).len() <= u32::MAX,
    ensures
        LogFrame::bytes(f) == varint(f.at_ns as nat) + LogEvent::bytes(f.event),
        framed(f) == le32(LogFrame::bytes(f).len() as u32) + LogFrame::bytes(f),
{
}

/// A snapshot of a packet is its number, kind, size, addresses, protocol, time to live
/// and labels, in this order.
pub proof fn snapshots_are_laid_out_in_order(p: PacketSnapshotW)
    ensures
        PacketSnapshotW::bytes(p) == varint(p.id as nat) + seq![p.kind] + varint(
            p.size_bytes as nat,
        ) + varint(p.ip_src as nat) + varint(p.ip_dst as nat) + seq![p.ip_proto] + seq![p.ip_ttl]
            + varint(p.label_top as nat) + varint(p.label_depth as nat),
{
}

/// An entry is its number, key, prefix length, priority and action, in this order.
pub proof fn entries_are_laid_out_in_order(e: TableEntryW)
    ensures
        TableEntryW::bytes(e) == varint(e.id.0 as nat) + varint(e.key as nat) + seq![e.prefix_len]
            + i32::bytes(e.priority) + TableActionW::bytes(e.action),
{
}

/// A punted packet is told with the time, the switch, the port, the reason, and then
/// the packet itself.
pub proof fn punts_are_laid_out_in_order(v: PuntEventV)
    ensures
        PuntEventW::bytes(v) == varint(v.now_ns as nat) + varint(v.switch_id as nat) + varint(
            v.ingress_port as nat,
        ) + PuntReasonW::bytes(v.reason) + varint(v.packet_size as nat) + varint(v.ip_src as nat)
            + varint(v.ip_dst as nat) + seq![v.ip_proto] + seq![v.ip_ttl] + varint(v.payload.len())
            + v.payload,
{
    lemma_plain(v.payload);
}

proof fn lemma_plain(b: Seq<u8>)
    ensures
        <Vec<u8> as Wire>::bytes(b) == varint(b.len()) + b,
{
    lemma_items(b);
}

proof fn lemma_items(b: Seq<u8>)
    ensures
        crate::codec::items_bytes::<u8>(b) == b,
    decreases b.len(),
{
    if b.len() > 0 {
        lemma_items(b.drop_last());
        assert(b.drop_last() + seq![b.last()] =~= b);
    } else {
        assert(crate::codec::items_bytes::<u8>(b) =~= b);
    }
}

/// An announcement is its origin and number, then its links and prefixes.
pub proof fn announcements_are_laid_out_in_order(l: LspV)
    ensures
        LspMessage::bytes(l) == varint(l.origin as nat) + varint(l.seq as nat) + <Vec<
            (u32, u32),
        > as Wire>::bytes(l.adjacencies) + <Vec<Prefix> as Wire>::bytes(l.prefixes),
{
}

/// A trace reply is who marked the packet and for which port, the hops, and how it
/// ended.
pub proof fn replies_are_laid_out_in_order(v: TraceReplyV)
    ensures
        TraceReplyW::bytes(v) == varint(v.mark_switch as nat) + varint(v.mark_port as nat) + <Vec<
            TraceHopW,
        > as Wire>::bytes(v.hops) + bool::bytes(v.delivered) + seq![v.drop_reason],
        bool::bytes(true) == seq![1u8],
        bool::bytes(false) == seq![0u8],
{
}

/// An envelope is its number, both ASes and both addresses, the sender first, and the
/// message.
pub proof fn envelopes_are_laid_out_in_order(v: BgpEnvelopeV)
    ensures
        BgpEnvelopeW::bytes(v) == varint(v.msg_id as nat) + AsIdW::bytes(v.sender_as)
            + AsIdW::bytes(v.receiver_as) + varint(v.sender_bgp_ip as nat) + varint(
            v.receiver_bgp_ip as nat,
        ) + SimpleBgpMessageW::bytes(v.message),
{
}

/// A packet to send is its port, addresses, protocol, time to live, kind, size and
/// payload, in this order; a timer is its delay.
pub proof fn packets_to_send_are_laid_out_in_order(a: ActionV)
    ensures
        a matches ActionV::InjectPacket {
            port,
            ip_src,
            ip_dst,
            ip_proto,
            ip_ttl,
            kind,
            size_bytes,
            payload,
        } ==> ActionW::bytes(a) == seq![3u8] + varint(port.0 as nat) + varint(ip_src as nat)
            + varint(ip_dst as nat) + seq![ip_proto] + seq![ip_ttl] + seq![kind] + varint(
            size_bytes as nat,
        ) + varint(payload.len()) + payload,
        a matches ActionV::ScheduleTimer { delay_ns } ==> ActionW::bytes(a) == seq![4u8] + varint(
            delay_ns as nat,
        ),
        a matches ActionV::DeleteTableEntry { table_id, entry_id } ==> ActionW::bytes(a) == seq![1u8]
            + varint(table_id.0 as nat) + varint(entry_id.0 as nat),
{
    lemma_small(1);
    lemma_small(3);
    lemma_small(4);
    if let ActionV::InjectPacket { payload, .. } = a {
        lemma_plain(payload);
    }
}

/// Small numbers of either sign are folded to small numbers: nought, minus one, one,
/// minus two, and so on.
pub proof fn signs_are_folded(v: i32)
    ensures
        v >= 0 ==> zigzag(v) == 2 * v,
        v < 0 ==> zigzag(v) == -2 * v - 1,
        unzigzag(zigzag(v)) == v,
        i32::bytes(v) == varint(zigzag(v) as nat),
{
}

} // verus!
