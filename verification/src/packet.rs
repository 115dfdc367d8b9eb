//! Packets: header fields, label stack, metadata and the path they took.

use crate::types::{
    AppId, AsId, Duration, FlowId, LinkId, PacketId, PortId, SimTime, SwitchId, TraceId,
};
use std::collections::HashMap;
use vstd::prelude::*;

verus! {

broadcast use vstd::std_specs::hash::group_hash_axioms;

/// Top-level discriminator for what a packet *is*. The data plane sees the
/// kind through `PacketField::Kind`.
#[derive(Debug, Clone, Copy, PartialEq, Eq, Hash, Structural)]
pub enum PacketKind {
    Data,
    SimpleBgp,
    TraceProbe,
    TraceReply,
}

/// The number that stands for a kind in `PacketField::Kind`.
pub open spec fn kind_code(k: PacketKind) -> u8 {
    match k {
        PacketKind::Data => 0,
        PacketKind::SimpleBgp => 1,
        PacketKind::TraceProbe => 2,
        PacketKind::TraceReply => 3,
    }
}

/// The kind that a number stands for; every unassigned number means data.
pub open spec fn kind_of(v: u8) -> PacketKind {
    if v == 1 {
        PacketKind::SimpleBgp
    } else if v == 2 {
        PacketKind::TraceProbe
    } else if v == 3 {
        PacketKind::TraceReply
    } else {
        PacketKind::Data
    }
}

impl PacketKind {
    pub fn as_u8(self) -> (r: u8)
        ensures
            r == kind_code(self),
    {
        match self {
            PacketKind::Data => 0,
            PacketKind::SimpleBgp => 1,
            PacketKind::TraceProbe => 2,
            PacketKind::TraceReply => 3,
        }
    }

    pub fn from_u8(v: u8) -> (r: PacketKind)
        ensures
            r == kind_of(v),
    {
        match v {
            1 => PacketKind::SimpleBgp,
            2 => PacketKind::TraceProbe,
            3 => PacketKind::TraceReply,
            _ => PacketKind::Data,
        }
    }
}

impl Default for PacketKind {
    fn default() -> (r: PacketKind)
        ensures
            r == PacketKind::Data,
    {
        PacketKind::Data
    }
}

/// A kind survives the trip through its number.
pub proof fn kind_round_trip(k: PacketKind)
    ensures
        kind_of(kind_code(k)) == k,
{
}

/// One hop in a packet's recorded path. Invisible to the data plane.
#[derive(Debug, Clone, Copy, PartialEq, Eq, Structural)]
pub struct TrailHop {
    pub switch: SwitchId,
    pub as_id: Option<AsId>,
    pub link_in: Option<LinkId>,
    pub arrived_at: Duration,
}

/// Hidden per-packet trail recorded by the simulator. Switch programs cannot
/// read this; the BGP conformance monitor and the trace facility do.
#[derive(Debug)]
pub struct PacketTrail {
    pub hops: Vec<TrailHop>,
    /// Set when this packet is a trace probe.
    pub trace_id: Option<TraceId>,
    pub trace_requester_as: Option<AsId>,
    /// Switch that executed `Instr::MarkTrace` on this packet.
    pub trace_mark_switch: Option<SwitchId>,
    /// The egress port the pipeline picked at that switch.
    pub trace_mark_port: Option<PortId>,
}

/// What a trail holds.
#[verifier::ext_equal]
pub struct TrailView {
    pub hops: Seq<TrailHop>,
    pub trace_id: Option<TraceId>,
    pub trace_requester_as: Option<AsId>,
    pub trace_mark_switch: Option<SwitchId>,
    pub trace_mark_port: Option<PortId>,
}

impl View for PacketTrail {
    type V = TrailView;

    open spec fn view(&self) -> TrailView {
        TrailView {
            hops: self.hops@,
            trace_id: self.trace_id,
            trace_requester_as: self.trace_requester_as,
            trace_mark_switch: self.trace_mark_switch,
            trace_mark_port: self.trace_mark_port,
        }
    }
}

/// The trail of a packet that has been nowhere.
pub open spec fn empty_trail() -> TrailView {
    TrailView {
        hops: Seq::empty(),
        trace_id: None,
        trace_requester_as: None,
        trace_mark_switch: None,
        trace_mark_port: None,
    }
}

impl Default for PacketTrail {
    fn default() -> (r: PacketTrail)
        ensures
            r@ == empty_trail(),
    {
        PacketTrail {
            hops: Vec::new(),
            trace_id: None,
            trace_requester_as: None,
            trace_mark_switch: None,
            trace_mark_port: None,
        }
    }
}

impl PacketTrail {
    /// A trail with the same contents.
    pub fn copy(&self) -> (r: PacketTrail)
        ensures
            r@ == self@,
    {
        PacketTrail {
            hops: self.hops.clone(),
            trace_id: self.trace_id,
            trace_requester_as: self.trace_requester_as,
            trace_mark_switch: self.trace_mark_switch,
            trace_mark_port: self.trace_mark_port,
        }
    }
}

/// An IPv4 address.
#[derive(Debug, Clone, Copy, PartialEq, Eq, Hash, Default, Structural)]
pub struct IpAddr(pub u32);

#[derive(Debug, Clone, Copy, PartialEq, Eq, Hash, Structural)]
pub enum PuntReason {
    NoRoute,
    TtlExpired,
    Custom(u32),
}

#[derive(Debug, Clone, Copy, PartialEq, Eq, Hash, Structural)]
pub enum PacketField {
    IpSrc,
    IpDst,
    IpProto,
    IpTtl,
    IpDscp,
    SrcPort,
    DstPort,
    AppId,
    FlowId,
    Custom(u8),
    Size,
    Kind,
    /// Top label of the stack, or 0 if the stack is empty.
    LabelTop,
    /// Depth of the label stack.
    LabelDepth,
}

#[derive(Debug)]
pub struct Packet {
    pub id: PacketId,
    pub created_at: SimTime,
    pub size_bytes: u64,
    pub ip_src: IpAddr,
    pub ip_dst: IpAddr,
    pub ip_proto: u8,
    pub ip_ttl: u8,
    pub ip_dscp: u8,
    pub src_port: Option<u16>,
    pub dst_port: Option<u16>,
    pub app_id: AppId,
    pub flow_id: FlowId,
    pub custom: [u64; 4],
    /// What this packet is. Visible to programs as `PacketField::Kind`.
    pub kind: PacketKind,
    /// Label stack; its last element is the top.
    pub labels: Vec<u32>,
    /// Opaque application or control payload. The data plane never reads it.
    pub payload: Vec<u8>,
    /// Simulator-private path trail. Not exposed to switch programs.
    pub trail: PacketTrail,
    /// Per-packet metadata by raw key. Persists across stages and across
    /// recirculations.
    pub metadata: HashMap<u32, u64>,
    /// How often this packet has been recirculated through the pipeline.
    pub recirculation_count: u8,
}

/// What a packet holds.
#[verifier::ext_equal]
pub struct PacketView {
    pub id: PacketId,
    pub created_at: SimTime,
    pub size_bytes: u64,
    pub ip_src: IpAddr,
    pub ip_dst: IpAddr,
    pub ip_proto: u8,
    pub ip_ttl: u8,
    pub ip_dscp: u8,
    pub src_port: Option<u16>,
    pub dst_port: Option<u16>,
    pub app_id: AppId,
    pub flow_id: FlowId,
    pub custom: Seq<u64>,
    pub kind: PacketKind,
    pub labels: Seq<u32>,
    pub payload: Seq<u8>,
    pub trail: TrailView,
    pub metadata: Map<u32, u64>,
    pub recirculation_count: u8,
}

impl View for Packet {
    type V = PacketView;

    open spec fn view(&self) -> PacketView {
        PacketView {
            id: self.id,
            created_at: self.created_at,
            size_bytes: self.size_bytes,
            ip_src: self.ip_src,
            ip_dst: self.ip_dst,
            ip_proto: self.ip_proto,
            ip_ttl: self.ip_ttl,
            ip_dscp: self.ip_dscp,
            src_port: self.src_port,
            dst_port: self.dst_port,
            app_id: self.app_id,
            flow_id: self.flow_id,
            custom: self.custom@,
            kind: self.kind,
            labels: self.labels@,
            payload: self.payload@,
            trail: self.trail@,
            metadata: self.metadata@,
            recirculation_count: self.recirculation_count,
        }
    }
}

/// A fresh data packet: TTL 64, everything else zero or empty.
pub open spec fn blank_packet(id: PacketId, created_at: SimTime, size_bytes: u64) -> PacketView {
    PacketView {
        id,
        created_at,
        size_bytes,
        ip_src: IpAddr(0),
        ip_dst: IpAddr(0),
        ip_proto: 0,
        ip_ttl: 64,
        ip_dscp: 0,
        src_port: None,
        dst_port: None,
        app_id: AppId(0),
        flow_id: FlowId(0),
        custom: seq![0u64, 0u64, 0u64, 0u64],
        kind: PacketKind::Data,
        labels: Seq::empty(),
        payload: Seq::empty(),
        trail: empty_trail(),
        metadata: Map::empty(),
        recirculation_count: 0,
    }
}

/// An optional port number as the data plane sees it: 0 where there is none.
pub open spec fn port_or_zero(p: Option<u16>) -> u64 {
    match p {
        Some(v) => v as u64,
        None => 0,
    }
}

impl PacketView {
    /// The value that the data plane reads from a field.
    pub open spec fn field(self, f: PacketField) -> u64 {
        match f {
            PacketField::IpSrc => self.ip_src.0 as u64,
            PacketField::IpDst => self.ip_dst.0 as u64,
            PacketField::IpProto => self.ip_proto as u64,
            PacketField::IpTtl => self.ip_ttl as u64,
            PacketField::IpDscp => self.ip_dscp as u64,
            PacketField::SrcPort => port_or_zero(self.src_port),
            PacketField::DstPort => port_or_zero(self.dst_port),
            PacketField::AppId => self.app_id.0 as u64,
            PacketField::FlowId => self.flow_id.0,
            PacketField::Custom(i) => if i < self.custom.len() {
                self.custom[i as int]
            } else {
                0
            },
            PacketField::Size => self.size_bytes,
            PacketField::Kind => kind_code(self.kind) as u64,
            PacketField::LabelTop => if self.labels.len() > 0 {
                self.labels.last() as u64
            } else {
                0
            },
            PacketField::LabelDepth => self.labels.len() as u64,
        }
    }

    /// The packet after the data plane stored `v` in a field. Values are cut to
    /// the field's width; the two label fields cannot be stored to.
    pub open spec fn with_field(self, f: PacketField, v: u64) -> PacketView {
        match f {
            PacketField::IpSrc => PacketView { ip_src: IpAddr(v as u32), ..self },
            PacketField::IpDst => PacketView { ip_dst: IpAddr(v as u32), ..self },
            PacketField::IpProto => PacketView { ip_proto: v as u8, ..self },
            PacketField::IpTtl => PacketView { ip_ttl: v as u8, ..self },
            PacketField::IpDscp => PacketView { ip_dscp: v as u8, ..self },
            PacketField::SrcPort => PacketView { src_port: Some(v as u16), ..self },
            PacketField::DstPort => PacketView { dst_port: Some(v as u16), ..self },
            PacketField::AppId => PacketView { app_id: AppId(v as u32), ..self },
            PacketField::FlowId => PacketView { flow_id: FlowId(v), ..self },
            PacketField::Custom(i) => if i < self.custom.len() {
                PacketView { custom: self.custom.update(i as int, v), ..self }
            } else {
                self
            },
            PacketField::Size => PacketView { size_bytes: v, ..self },
            PacketField::Kind => PacketView { kind: kind_of(v as u8), ..self },
            PacketField::LabelTop => self,
            PacketField::LabelDepth => self,
        }
    }

    /// The metadata value at a key; 0 where nothing was stored.
    pub open spec fn meta(self, key: u32) -> u64 {
        if self.metadata.contains_key(key) {
            self.metadata[key]
        } else {
            0
        }
    }

    /// The packet after a metadata store.
    pub open spec fn with_meta(self, key: u32, v: u64) -> PacketView {
        PacketView { metadata: self.metadata.insert(key, v), ..self }
    }
}

impl Packet {
    pub fn new(id: PacketId, created_at: SimTime, size_bytes: u64) -> (r: Packet)
        ensures
            r@ == blank_packet(id, created_at, size_bytes),
    {
        let r = Packet {
            id,
            created_at,
            size_bytes,
            ip_src: IpAddr(0),
            ip_dst: IpAddr(0),
            ip_proto: 0,
            ip_ttl: 64,
            ip_dscp: 0,
            src_port: None,
            dst_port: None,
            app_id: AppId(0),
            flow_id: FlowId(0),
            custom: [0, 0, 0, 0],
            kind: PacketKind::Data,
            labels: Vec::new(),
            payload: Vec::new(),
            trail: PacketTrail::default(),
            metadata: HashMap::new(),
            recirculation_count: 0,
        };
        assert(r.custom@ =~= seq![0u64, 0u64, 0u64, 0u64]);
        r
    }

    /// A packet with the same contents.
    pub fn copy(&self) -> (r: Packet)
        ensures
            r@ == self@,
    {
        let metadata = self.metadata.clone();
        assert(metadata@ =~= self.metadata@);
        Packet {
            id: self.id,
            created_at: self.created_at,
            size_bytes: self.size_bytes,
            ip_src: self.ip_src,
            ip_dst: self.ip_dst,
            ip_proto: self.ip_proto,
            ip_ttl: self.ip_ttl,
            ip_dscp: self.ip_dscp,
            src_port: self.src_port,
            dst_port: self.dst_port,
            app_id: self.app_id,
            flow_id: self.flow_id,
            custom: self.custom,
            kind: self.kind,
            labels: self.labels.clone(),
            payload: self.payload.clone(),
            trail: self.trail.copy(),
            metadata,
            recirculation_count: self.recirculation_count,
        }
    }

    pub fn read_field(&self, field: PacketField) -> (r: u64)
        ensures
            r == self@.field(field),
    {
        match field {
            PacketField::IpSrc => self.ip_src.0 as u64,
            PacketField::IpDst => self.ip_dst.0 as u64,
            PacketField::IpProto => self.ip_proto as u64,
            PacketField::IpTtl => self.ip_ttl as u64,
            PacketField::IpDscp => self.ip_dscp as u64,
            PacketField::SrcPort => self.src_port.unwrap_or(0) as u64,
            PacketField::DstPort => self.dst_port.unwrap_or(0) as u64,
            PacketField::AppId => self.app_id.raw() as u64,
            PacketField::FlowId => self.flow_id.raw(),
            PacketField::Custom(i) => if i < 4 {
                self.custom[i as usize]
            } else {
                0
            },
            PacketField::Size => self.size_bytes,
            PacketField::Kind => self.kind.as_u8() as u64,
            PacketField::LabelTop => if self.labels.len() > 0 {
                self.labels[self.labels.len() - 1] as u64
            } else {
                0
            },
            PacketField::LabelDepth => self.labels.len() as u64,
        }
    }

    pub fn write_field(&mut self, field: PacketField, value: u64)
        ensures
            final(self)@ == old(self)@.with_field(field, value),
    {
        match field {
            PacketField::IpSrc => self.ip_src = IpAddr(value as u32),
            PacketField::IpDst => self.ip_dst = IpAddr(value as u32),
            PacketField::IpProto => self.ip_proto = value as u8,
            PacketField::IpTtl => self.ip_ttl = value as u8,
            PacketField::IpDscp => self.ip_dscp = value as u8,
            PacketField::SrcPort => self.src_port = Some(value as u16),
            PacketField::DstPort => self.dst_port = Some(value as u16),
            PacketField::AppId => self.app_id = AppId(value as u32),
            PacketField::FlowId => self.flow_id = FlowId(value),
            PacketField::Custom(i) => {
                if i < 4 {
                    self.custom[i as usize] = value;
                }
            },
            PacketField::Size => self.size_bytes = value,
            PacketField::Kind => self.kind = PacketKind::from_u8(value as u8),
            PacketField::LabelTop => {},
            PacketField::LabelDepth => {},
        }
    }
}

impl Clone for Packet {
    fn clone(&self) -> (r: Packet)
        ensures
            r@ == self@,
    {
        self.copy()
    }
}

/// Storing what a field reads changes nothing, except where the field is an
/// absent port: that port becomes 0.
pub proof fn storing_what_was_read(p: PacketView, f: PacketField)
    requires
        f is SrcPort ==> p.src_port is Some,
        f is DstPort ==> p.dst_port is Some,
    ensures
        p.with_field(f, p.field(f)) == p,
{
    match f {
        PacketField::Custom(i) => {
            if i < p.custom.len() {
                assert(p.custom.update(i as int, p.custom[i as int]) =~= p.custom);
            }
        },
        _ => {},
    }
}

/// A stored 64-bit field reads back as it was stored.
pub proof fn stored_fields_read_back(p: PacketView, f: PacketField, v: u64)
    requires
        f is FlowId || f is Size || (f matches PacketField::Custom(i) && i < p.custom.len()),
    ensures
        p.with_field(f, v).field(f) == v,
{
}

} // verus!
