//! Event-log schema: what a `.simlog` file holds.
//!
//! Wire layout of a file:
//!
//! ```text
//! [u32 length LE][LogFrame { at_ns: 0, event: Header(...) }]
//! [u32 length LE][LogFrame { at_ns, event }]
//! ...
//! ```
//!
//! The first frame is always `LogEvent::Header`. Subsequent frames are ordered
//! by simulator time, ties by emission order.

use crate::codec::{lemma_assoc, DecodeError, Wire};
use crate::wire::{MatchKindW, TableEntryW, TinyProgramV, TinyProgramW};
use vstd::prelude::*;

verus! {

pub const LOG_MAGIC: u32 = 0x4E45_534D;

pub const LOG_VERSION: u32 = 1;

#[derive(Debug, Clone, Copy, PartialEq, Eq, Hash, Structural)]
pub enum NodeRefW {
    Switch(u32),
    App(u32),
}

impl Wire for NodeRefW {
    type V = NodeRefW;

    open spec fn val(&self) -> NodeRefW {
        *self
    }

    open spec fn bytes(v: NodeRefW) -> Seq<u8> {
        match v {
            NodeRefW::Switch(x0) => u32::bytes(0) + (u32::bytes(x0)),
            NodeRefW::App(x0) => u32::bytes(1) + (u32::bytes(x0)),
        }
    }

    open spec fn parse(b: Seq<u8>) -> Option<(NodeRefW, Seq<u8>)> {
        match u32::parse(b) {
            Some((tag, r0)) => if tag == 0 {
                match u32::parse(r0) {
                    Some((x0, r1)) => Some((NodeRefW::Switch(x0), r1)),
                    None => None,
                }
            } else if tag == 1 {
                match u32::parse(r0) {
                    Some((x0, r1)) => Some((NodeRefW::App(x0), r1)),
                    None => None,
                }
            } else {
                None
            },
            None => None,
        }
    }

    open spec fn fits(v: NodeRefW) -> bool {
        true
    }

    proof fn reads_back(v: NodeRefW, rest: Seq<u8>) {
        match v {
            NodeRefW::Switch(x0) => {
                u32::reads_back(0, u32::bytes(x0) + rest);
                u32::reads_back(x0, rest);
                lemma_assoc(u32::bytes(0), u32::bytes(x0), rest);
            },
            NodeRefW::App(x0) => {
                u32::reads_back(1, u32::bytes(x0) + rest);
                u32::reads_back(x0, rest);
                lemma_assoc(u32::bytes(1), u32::bytes(x0), rest);
            },
        }
    }

    fn put(&self, out: &mut Vec<u8>) {
        match self {
            NodeRefW::Switch(x0) => {
                (0u32).put(out);
                x0.put(out);
                proof {
                    lemma_assoc(old(out)@, u32::bytes(0), u32::bytes(*x0));
                }
            },
            NodeRefW::App(x0) => {
                (1u32).put(out);
                x0.put(out);
                proof {
                    lemma_assoc(old(out)@, u32::bytes(1), u32::bytes(*x0));
                }
            },
        }
    }

    fn get<'a>(b: &'a [u8]) -> (r: Result<(NodeRefW, &'a [u8]), DecodeError>) {
        let (tag, r0) = u32::get(b)?;
        if tag == 0 {
            let (x0, r1) = u32::get(r0)?;
            Ok((NodeRefW::Switch(x0), r1))
        } else if tag == 1 {
            let (x0, r1) = u32::get(r0)?;
            Ok((NodeRefW::App(x0), r1))
        } else {
            Err(DecodeError::UnknownTag)
        }
    }
}

#[derive(Debug, Clone, Copy, PartialEq, Eq, Hash, Structural)]
pub enum DropReasonW {
    Ttl,
    NoRoute,
    NoEgressLink,
    LinkDrop,
    SwitchFailed,
    Recirculation,
}

impl Wire for DropReasonW {
    type V = DropReasonW;

    open spec fn val(&self) -> DropReasonW {
        *self
    }

    open spec fn bytes(v: DropReasonW) -> Seq<u8> {
        match v {
            DropReasonW::Ttl => u32::bytes(0),
            DropReasonW::NoRoute => u32::bytes(1),
            DropReasonW::NoEgressLink => u32::bytes(2),
            DropReasonW::LinkDrop => u32::bytes(3),
            DropReasonW::SwitchFailed => u32::bytes(4),
            DropReasonW::Recirculation => u32::bytes(5),
        }
    }

    open spec fn parse(b: Seq<u8>) -> Option<(DropReasonW, Seq<u8>)> {
        match u32::parse(b) {
            Some((tag, r0)) => if tag == 0 {
                Some((DropReasonW::Ttl, r0))
            } else if tag == 1 {
                Some((DropReasonW::NoRoute, r0))
            } else if tag == 2 {
                Some((DropReasonW::NoEgressLink, r0))
            } else if tag == 3 {
                Some((DropReasonW::LinkDrop, r0))
            } else if tag == 4 {
                Some((DropReasonW::SwitchFailed, r0))
            } else if tag == 5 {
                Some((DropReasonW::Recirculation, r0))
            } else {
                None
            },
            None => None,
        }
    }

    open spec fn fits(v: DropReasonW) -> bool {
        true
    }

    proof fn reads_back(v: DropReasonW, rest: Seq<u8>) {
        match v {
            DropReasonW::Ttl => {
                u32::reads_back(0, rest);
            },
            DropReasonW::NoRoute => {
                u32::reads_back(1, rest);
            },
            DropReasonW::NoEgressLink => {
                u32::reads_back(2, rest);
            },
            DropReasonW::LinkDrop => {
                u32::reads_back(3, rest);
            },
            DropReasonW::SwitchFailed => {
                u32::reads_back(4, rest);
            },
            DropReasonW::Recirculation => {
                u32::reads_back(5, rest);
            },
        }
    }

    fn put(&self, out: &mut Vec<u8>) {
        match self {
            DropReasonW::Ttl => {
                (0u32).put(out);
            },
            DropReasonW::NoRoute => {
                (1u32).put(out);
            },
            DropReasonW::NoEgressLink => {
                (2u32).put(out);
            },
            DropReasonW::LinkDrop => {
                (3u32).put(out);
            },
            DropReasonW::SwitchFailed => {
                (4u32).put(out);
            },
            DropReasonW::Recirculation => {
                (5u32).put(out);
            },
        }
    }

    fn get<'a>(b: &'a [u8]) -> (r: Result<(DropReasonW, &'a [u8]), DecodeError>) {
        let (tag, r0) = u32::get(b)?;
        if tag == 0 {
            Ok((DropReasonW::Ttl, r0))
        } else if tag == 1 {
            Ok((DropReasonW::NoRoute, r0))
        } else if tag == 2 {
            Ok((DropReasonW::NoEgressLink, r0))
        } else if tag == 3 {
            Ok((DropReasonW::LinkDrop, r0))
        } else if tag == 4 {
            Ok((DropReasonW::SwitchFailed, r0))
        } else if tag == 5 {
            Ok((DropReasonW::Recirculation, r0))
        } else {
            Err(DecodeError::UnknownTag)
        }
    }
}

/// The fields of a switch configuration that the viewer needs.
#[derive(Debug, Clone, Copy, PartialEq, Eq, Hash, Structural)]
pub struct SwitchConfigW {
    pub stages: u32,
    pub processing_delay_ns: u64,
    pub recirculation_enabled: bool,
    pub max_recirculations: u8,
    pub punt_pipe_latency_ns: u64,
    pub punt_pipe_bandwidth_bps: u64,
    pub config_pipe_latency_ns: u64,
    pub config_pipe_bandwidth_bps: u64,
}

impl Wire for SwitchConfigW {
    type V = SwitchConfigW;

    open spec fn val(&self) -> SwitchConfigW {
        *self
    }

    open spec fn bytes(v: SwitchConfigW) -> Seq<u8> {
        u32::bytes(v.stages) + (u64::bytes(v.processing_delay_ns) + (bool::bytes(v.recirculation_enabled) + (u8::bytes(v.max_recirculations) + (u64::bytes(v.punt_pipe_latency_ns) + (u64::bytes(v.punt_pipe_bandwidth_bps) + (u64::bytes(v.config_pipe_latency_ns) + (u64::bytes(v.config_pipe_bandwidth_bps))))))))
    }

    open spec fn parse(b: Seq<u8>) -> Option<(SwitchConfigW, Seq<u8>)> {
        match u32::parse(b) {
            Some((stages, r1)) => match u64::parse(r1) {
                Some((processing_delay_ns, r2)) => match bool::parse(r2) {
                    Some((recirculation_enabled, r3)) => match u8::parse(r3) {
                        Some((max_recirculations, r4)) => match u64::parse(r4) {
                            Some((punt_pipe_latency_ns, r5)) => match u64::parse(r5) {
                                Some((punt_pipe_bandwidth_bps, r6)) => match u64::parse(r6) {
                                    Some((config_pipe_latency_ns, r7)) => match u64::parse(r7) {
                                        Some((config_pipe_bandwidth_bps, r8)) => Some((SwitchConfigW { stages, processing_delay_ns, recirculation_enabled, max_recirculations, punt_pipe_latency_ns, punt_pipe_bandwidth_bps, config_pipe_latency_ns, config_pipe_bandwidth_bps }, r8)),
                                        None => None,
                                    },
                                    None => None,
                                },
                                None => None,
                            },
                            None => None,
                        },
                        None => None,
                    },
                    None => None,
                },
                None => None,
            },
            None => None,
        }
    }

    open spec fn fits(v: SwitchConfigW) -> bool {
        true
    }

    proof fn reads_back(v: SwitchConfigW, rest: Seq<u8>) {
        u32::reads_back(v.stages, u64::bytes(v.processing_delay_ns) + (bool::bytes(v.recirculation_enabled) + (u8::bytes(v.max_recirculations) + (u64::bytes(v.punt_pipe_latency_ns) + (u64::bytes(v.punt_pipe_bandwidth_bps) + (u64::bytes(v.config_pipe_latency_ns) + (u64::bytes(v.config_pipe_bandwidth_bps) + rest)))))));
        u64::reads_back(v.processing_delay_ns, bool::bytes(v.recirculation_enabled) + (u8::bytes(v.max_recirculations) + (u64::bytes(v.punt_pipe_latency_ns) + (u64::bytes(v.punt_pipe_bandwidth_bps) + (u64::bytes(v.config_pipe_latency_ns) + (u64::bytes(v.config_pipe_bandwidth_bps) + rest))))));
        bool::reads_back(v.recirculation_enabled, u8::bytes(v.max_recirculations) + (u64::bytes(v.punt_pipe_latency_ns) + (u64::bytes(v.punt_pipe_bandwidth_bps) + (u64::bytes(v.config_pipe_latency_ns) + (u64::bytes(v.config_pipe_bandwidth_bps) + rest)))));
        u8::reads_back(v.max_recirculations, u64::bytes(v.punt_pipe_latency_ns) + (u64::bytes(v.punt_pipe_bandwidth_bps) + (u64::bytes(v.config_pipe_latency_ns) + (u64::bytes(v.config_pipe_bandwidth_bps) + rest))));
        u64::reads_back(v.punt_pipe_latency_ns, u64::bytes(v.punt_pipe_bandwidth_bps) + (u64::bytes(v.config_pipe_latency_ns) + (u64::bytes(v.config_pipe_bandwidth_bps) + rest)));
        u64::reads_back(v.punt_pipe_bandwidth_bps, u64::bytes(v.config_pipe_latency_ns) + (u64::bytes(v.config_pipe_bandwidth_bps) + rest));
        u64::reads_back(v.config_pipe_latency_ns, u64::bytes(v.config_pipe_bandwidth_bps) + rest);
        u64::reads_back(v.config_pipe_bandwidth_bps, rest);
        lemma_assoc(u64::bytes(v.config_pipe_latency_ns), u64::bytes(v.config_pipe_bandwidth_bps), rest);
        lemma_assoc(u64::bytes(v.punt_pipe_bandwidth_bps), u64::bytes(v.config_pipe_latency_ns) + (u64::bytes(v.config_pipe_bandwidth_bps)), rest);
        lemma_assoc(u64::bytes(v.punt_pipe_latency_ns), u64::bytes(v.punt_pipe_bandwidth_bps) + (u64::bytes(v.config_pipe_latency_ns) + (u64::bytes(v.config_pipe_bandwidth_bps))), rest);
        lemma_assoc(u8::bytes(v.max_recirculations), u64::bytes(v.punt_pipe_latency_ns) + (u64::bytes(v.punt_pipe_bandwidth_bps) + (u64::bytes(v.config_pipe_latency_ns) + (u64::bytes(v.config_pipe_bandwidth_bps)))), rest);
        lemma_assoc(bool::bytes(v.recirculation_enabled), u8::bytes(v.max_recirculations) + (u64::bytes(v.punt_pipe_latency_ns) + (u64::bytes(v.punt_pipe_bandwidth_bps) + (u64::bytes(v.config_pipe_latency_ns) + (u64::bytes(v.config_pipe_bandwidth_bps))))), rest);
        lemma_assoc(u64::bytes(v.processing_delay_ns), bool::bytes(v.recirculation_enabled) + (u8::bytes(v.max_recirculations) + (u64::bytes(v.punt_pipe_latency_ns) + (u64::bytes(v.punt_pipe_bandwidth_bps) + (u64::bytes(v.config_pipe_latency_ns) + (u64::bytes(v.config_pipe_bandwidth_bps)))))), rest);
        lemma_assoc(u32::bytes(v.stages), u64::bytes(v.processing_delay_ns) + (bool::bytes(v.recirculation_enabled) + (u8::bytes(v.max_recirculations) + (u64::bytes(v.punt_pipe_latency_ns) + (u64::bytes(v.punt_pipe_bandwidth_bps) + (u64::bytes(v.config_pipe_latency_ns) + (u64::bytes(v.config_pipe_bandwidth_bps))))))), rest);
    }

    fn put(&self, out: &mut Vec<u8>) {
        self.stages.put(out);
        self.processing_delay_ns.put(out);
        self.recirculation_enabled.put(out);
        self.max_recirculations.put(out);
        self.punt_pipe_latency_ns.put(out);
        self.punt_pipe_bandwidth_bps.put(out);
        self.config_pipe_latency_ns.put(out);
        self.config_pipe_bandwidth_bps.put(out);
        proof {
            lemma_assoc((((((old(out)@ + u32::bytes(self.stages)) + u64::bytes(self.processing_delay_ns)) + bool::bytes(self.recirculation_enabled)) + u8::bytes(self.max_recirculations)) + u64::bytes(self.punt_pipe_latency_ns)) + u64::bytes(self.punt_pipe_bandwidth_bps), u64::bytes(self.config_pipe_latency_ns), u64::bytes(self.config_pipe_bandwidth_bps));
            lemma_assoc(((((old(out)@ + u32::bytes(self.stages)) + u64::bytes(self.processing_delay_ns)) + bool::bytes(self.recirculation_enabled)) + u8::bytes(self.max_recirculations)) + u64::bytes(self.punt_pipe_latency_ns), u64::bytes(self.punt_pipe_bandwidth_bps), u64::bytes(self.config_pipe_latency_ns) + (u64::bytes(self.config_pipe_bandwidth_bps)));
            lemma_assoc((((old(out)@ + u32::bytes(self.stages)) + u64::bytes(self.processing_delay_ns)) + bool::bytes(self.recirculation_enabled)) + u8::bytes(self.max_recirculations), u64::bytes(self.punt_pipe_latency_ns), u64::bytes(self.punt_pipe_bandwidth_bps) + (u64::bytes(self.config_pipe_latency_ns) + (u64::bytes(self.config_pipe_bandwidth_bps))));
            lemma_assoc(((old(out)@ + u32::bytes(self.stages)) + u64::bytes(self.processing_delay_ns)) + bool::bytes(self.recirculation_enabled), u8::bytes(self.max_recirculations), u64::bytes(self.punt_pipe_latency_ns) + (u64::bytes(self.punt_pipe_bandwidth_bps) + (u64::bytes(self.config_pipe_latency_ns) + (u64::bytes(self.config_pipe_bandwidth_bps)))));
            lemma_assoc((old(out)@ + u32::bytes(self.stages)) + u64::bytes(self.processing_delay_ns), bool::bytes(self.recirculation_enabled), u8::bytes(self.max_recirculations) + (u64::bytes(self.punt_pipe_latency_ns) + (u64::bytes(self.punt_pipe_bandwidth_bps) + (u64::bytes(self.config_pipe_latency_ns) + (u64::bytes(self.config_pipe_bandwidth_bps))))));
            lemma_assoc(old(out)@ + u32::bytes(self.stages), u64::bytes(self.processing_delay_ns), bool::bytes(self.recirculation_enabled) + (u8::bytes(self.max_recirculations) + (u64::bytes(self.punt_pipe_latency_ns) + (u64::bytes(self.punt_pipe_bandwidth_bps) + (u64::bytes(self.config_pipe_latency_ns) + (u64::bytes(self.config_pipe_bandwidth_bps)))))));
            lemma_assoc(old(out)@, u32::bytes(self.stages), u64::bytes(self.processing_delay_ns) + (bool::bytes(self.recirculation_enabled) + (u8::bytes(self.max_recirculations) + (u64::bytes(self.punt_pipe_latency_ns) + (u64::bytes(self.punt_pipe_bandwidth_bps) + (u64::bytes(self.config_pipe_latency_ns) + (u64::bytes(self.config_pipe_bandwidth_bps))))))));
        }
    }

    fn get<'a>(b: &'a [u8]) -> (r: Result<(SwitchConfigW, &'a [u8]), DecodeError>) {
        let (stages, r1) = u32::get(b)?;
        let (processing_delay_ns, r2) = u64::get(r1)?;
        let (recirculation_enabled, r3) = bool::get(r2)?;
        let (max_recirculations, r4) = u8::get(r3)?;
        let (punt_pipe_latency_ns, r5) = u64::get(r4)?;
        let (punt_pipe_bandwidth_bps, r6) = u64::get(r5)?;
        let (config_pipe_latency_ns, r7) = u64::get(r6)?;
        let (config_pipe_bandwidth_bps, r8) = u64::get(r7)?;
        Ok((SwitchConfigW { stages, processing_delay_ns, recirculation_enabled, max_recirculations, punt_pipe_latency_ns, punt_pipe_bandwidth_bps, config_pipe_latency_ns, config_pipe_bandwidth_bps }, r8))
    }
}

#[derive(Debug, Clone, Copy, PartialEq, Eq, Hash, Structural)]
pub struct LinkConfigW {
    pub latency_ns: u64,
    pub bandwidth_bps: u64,
    pub queue_capacity_bytes: u64,
}

impl Wire for LinkConfigW {
    type V = LinkConfigW;

    open spec fn val(&self) -> LinkConfigW {
        *self
    }

    open spec fn bytes(v: LinkConfigW) -> Seq<u8> {
        u64::bytes(v.latency_ns) + (u64::bytes(v.bandwidth_bps) + (u64::bytes(v.queue_capacity_bytes)))
    }

    open spec fn parse(b: Seq<u8>) -> Option<(LinkConfigW, Seq<u8>)> {
        match u64::parse(b) {
            Some((latency_ns, r1)) => match u64::parse(r1) {
                Some((bandwidth_bps, r2)) => match u64::parse(r2) {
                    Some((queue_capacity_bytes, r3)) => Some((LinkConfigW { latency_ns, bandwidth_bps, queue_capacity_bytes }, r3)),
                    None => None,
                },
                None => None,
            },
            None => None,
        }
    }

    open spec fn fits(v: LinkConfigW) -> bool {
        true
    }

    proof fn reads_back(v: LinkConfigW, rest: Seq<u8>) {
        u64::reads_back(v.latency_ns, u64::bytes(v.bandwidth_bps) + (u64::bytes(v.queue_capacity_bytes) + rest));
        u64::reads_back(v.bandwidth_bps, u64::bytes(v.queue_capacity_bytes) + rest);
        u64::reads_back(v.queue_capacity_bytes, rest);
        lemma_assoc(u64::bytes(v.bandwidth_bps), u64::bytes(v.queue_capacity_bytes), rest);
        lemma_assoc(u64::bytes(v.latency_ns), u64::bytes(v.bandwidth_bps) + (u64::bytes(v.queue_capacity_bytes)), rest);
    }

    fn put(&self, out: &mut Vec<u8>) {
        self.latency_ns.put(out);
        self.bandwidth_bps.put(out);
        self.queue_capacity_bytes.put(out);
        proof {
            lemma_assoc(old(out)@ + u64::bytes(self.latency_ns), u64::bytes(self.bandwidth_bps), u64::bytes(self.queue_capacity_bytes));
            lemma_assoc(old(out)@, u64::bytes(self.latency_ns), u64::bytes(self.bandwidth_bps) + (u64::bytes(self.queue_capacity_bytes)));
        }
    }

    fn get<'a>(b: &'a [u8]) -> (r: Result<(LinkConfigW, &'a [u8]), DecodeError>) {
        let (latency_ns, r1) = u64::get(b)?;
        let (bandwidth_bps, r2) = u64::get(r1)?;
        let (queue_capacity_bytes, r3) = u64::get(r2)?;
        Ok((LinkConfigW { latency_ns, bandwidth_bps, queue_capacity_bytes }, r3))
    }
}

/// The parts of a packet the viewer shows. Payload bytes are omitted.
#[derive(Debug, Clone, Copy, PartialEq, Eq, Hash, Structural)]
pub struct PacketSnapshotW {
    pub id: u64,
    pub kind: u8,
    pub size_bytes: u64,
    pub ip_src: u32,
    pub ip_dst: u32,
    pub ip_proto: u8,
    pub ip_ttl: u8,
    pub label_top: u32,
    pub label_depth: u32,
}

impl Wire for PacketSnapshotW {
    type V = PacketSnapshotW;

    open spec fn val(&self) -> PacketSnapshotW {
        *self
    }

    open spec fn bytes(v: PacketSnapshotW) -> Seq<u8> {
        u64::bytes(v.id) + (u8::bytes(v.kind) + (u64::bytes(v.size_bytes) + (u32::bytes(v.ip_src) + (u32::bytes(v.ip_dst) + (u8::bytes(v.ip_proto) + (u8::bytes(v.ip_ttl) + (u32::bytes(v.label_top) + (u32::bytes(v.label_depth)))))))))
    }

    open spec fn parse(b: Seq<u8>) -> Option<(PacketSnapshotW, Seq<u8>)> {
        match u64::parse(b) {
            Some((id, r1)) => match u8::parse(r1) {
                Some((kind, r2)) => match u64::parse(r2) {
                    Some((size_bytes, r3)) => match u32::parse(r3) {
                        Some((ip_src, r4)) => match u32::parse(r4) {
                            Some((ip_dst, r5)) => match u8::parse(r5) {
                                Some((ip_proto, r6)) => match u8::parse(r6) {
                                    Some((ip_ttl, r7)) => match u32::parse(r7) {
                                        Some((label_top, r8)) => match u32::parse(r8) {
                                            Some((label_depth, r9)) => Some((PacketSnapshotW { id, kind, size_bytes, ip_src, ip_dst, ip_proto, ip_ttl, label_top, label_depth }, r9)),
                                            None => None,
                                        },
                                        None => None,
                                    },
                                    None => None,
                                },
                                None => None,
                            },
                            None => None,
                        },
                        None => None,
                    },
                    None => None,
                },
                None => None,
            },
            None => None,
        }
    }

    open spec fn fits(v: PacketSnapshotW) -> bool {
        true
    }

    proof fn reads_back(v: PacketSnapshotW, rest: Seq<u8>) {
        u64::reads_back(v.id, u8::bytes(v.kind) + (u64::bytes(v.size_bytes) + (u32::bytes(v.ip_src) + (u32::bytes(v.ip_dst) + (u8::bytes(v.ip_proto) + (u8::bytes(v.ip_ttl) + (u32::bytes(v.label_top) + (u32::bytes(v.label_depth) + rest))))))));
        u8::reads_back(v.kind, u64::bytes(v.size_bytes) + (u32::bytes(v.ip_src) + (u32::bytes(v.ip_dst) + (u8::bytes(v.ip_proto) + (u8::bytes(v.ip_ttl) + (u32::bytes(v.label_top) + (u32::bytes(v.label_depth) + rest)))))));
        u64::reads_back(v.size_bytes, u32::bytes(v.ip_src) + (u32::bytes(v.ip_dst) + (u8::bytes(v.ip_proto) + (u8::bytes(v.ip_ttl) + (u32::bytes(v.label_top) + (u32::bytes(v.label_depth) + rest))))));
        u32::reads_back(v.ip_src, u32::bytes(v.ip_dst) + (u8::bytes(v.ip_proto) + (u8::bytes(v.ip_ttl) + (u32::bytes(v.label_top) + (u32::bytes(v.label_depth) + rest)))));
        u32::reads_back(v.ip_dst, u8::bytes(v.ip_proto) + (u8::bytes(v.ip_ttl) + (u32::bytes(v.label_top) + (u32::bytes(v.label_depth) + rest))));
        u8::reads_back(v.ip_proto, u8::bytes(v.ip_ttl) + (u32::bytes(v.label_top) + (u32::bytes(v.label_depth) + rest)));
        u8::reads_back(v.ip_ttl, u32::bytes(v.label_top) + (u32::bytes(v.label_depth) + rest));
        u32::reads_back(v.label_top, u32::bytes(v.label_depth) + rest);
        u32::reads_back(v.label_depth, rest);
        lemma_assoc(u32::bytes(v.label_top), u32::bytes(v.label_depth), rest);
        lemma_assoc(u8::bytes(v.ip_ttl), u32::bytes(v.label_top) + (u32::bytes(v.label_depth)), rest);
        lemma_assoc(u8::bytes(v.ip_proto), u8::bytes(v.ip_ttl) + (u32::bytes(v.label_top) + (u32::bytes(v.label_depth))), rest);
        lemma_assoc(u32::bytes(v.ip_dst), u8::bytes(v.ip_proto) + (u8::bytes(v.ip_ttl) + (u32::bytes(v.label_top) + (u32::bytes(v.label_depth)))), rest);
        lemma_assoc(u32::bytes(v.ip_src), u32::bytes(v.ip_dst) + (u8::bytes(v.ip_proto) + (u8::bytes(v.ip_ttl) + (u32::bytes(v.label_top) + (u32::bytes(v.label_depth))))), rest);
        lemma_assoc(u64::bytes(v.size_bytes), u32::bytes(v.ip_src) + (u32::bytes(v.ip_dst) + (u8::bytes(v.ip_proto) + (u8::bytes(v.ip_ttl) + (u32::bytes(v.label_top) + (u32::bytes(v.label_depth)))))), rest);
        lemma_assoc(u8::bytes(v.kind), u64::bytes(v.size_bytes) + (u32::bytes(v.ip_src) + (u32::bytes(v.ip_dst) + (u8::bytes(v.ip_proto) + (u8::bytes(v.ip_ttl) + (u32::bytes(v.label_top) + (u32::bytes(v.label_depth))))))), rest);
        lemma_assoc(u64::bytes(v.id), u8::bytes(v.kind) + (u64::bytes(v.size_bytes) + (u32::bytes(v.ip_src) + (u32::bytes(v.ip_dst) + (u8::bytes(v.ip_proto) + (u8::bytes(v.ip_ttl) + (u32::bytes(v.label_top) + (u32::bytes(v.label_depth)))))))), rest);
    }

    fn put(&self, out: &mut Vec<u8>) {
        self.id.put(out);
        self.kind.put(out);
        self.size_bytes.put(out);
        self.ip_src.put(out);
        self.ip_dst.put(out);
        self.ip_proto.put(out);
        self.ip_ttl.put(out);
        self.label_top.put(out);
        self.label_depth.put(out);
        proof {
            lemma_assoc(((((((old(out)@ + u64::bytes(self.id)) + u8::bytes(self.kind)) + u64::bytes(self.size_bytes)) + u32::bytes(self.ip_src)) + u32::bytes(self.ip_dst)) + u8::bytes(self.ip_proto)) + u8::bytes(self.ip_ttl), u32::bytes(self.label_top), u32::bytes(self.label_depth));
            lemma_assoc((((((old(out)@ + u64::bytes(self.id)) + u8::bytes(self.kind)) + u64::bytes(self.size_bytes)) + u32::bytes(self.ip_src)) + u32::bytes(self.ip_dst)) + u8::bytes(self.ip_proto), u8::bytes(self.ip_ttl), u32::bytes(self.label_top) + (u32::bytes(self.label_depth)));
            lemma_assoc(((((old(out)@ + u64::bytes(self.id)) + u8::bytes(self.kind)) + u64::bytes(self.size_bytes)) + u32::bytes(self.ip_src)) + u32::bytes(self.ip_dst), u8::bytes(self.ip_proto), u8::bytes(self.ip_ttl) + (u32::bytes(self.label_top) + (u32::bytes(self.label_depth))));
            lemma_assoc((((old(out)@ + u64::bytes(self.id)) + u8::bytes(self.kind)) + u64::bytes(self.size_bytes)) + u32::bytes(self.ip_src), u32::bytes(self.ip_dst), u8::bytes(self.ip_proto) + (u8::bytes(self.ip_ttl) + (u32::bytes(self.label_top) + (u32::bytes(self.label_depth)))));
            lemma_assoc(((old(out)@ + u64::bytes(self.id)) + u8::bytes(self.kind)) + u64::bytes(self.size_bytes), u32::bytes(self.ip_src), u32::bytes(self.ip_dst) + (u8::bytes(self.ip_proto) + (u8::bytes(self.ip_ttl) + (u32::bytes(self.label_top) + (u32::bytes(self.label_depth))))));
            lemma_assoc((old(out)@ + u64::bytes(self.id)) + u8::bytes(self.kind), u64::bytes(self.size_bytes), u32::bytes(self.ip_src) + (u32::bytes(self.ip_dst) + (u8::bytes(self.ip_proto) + (u8::bytes(self.ip_ttl) + (u32::bytes(self.label_top) + (u32::bytes(self.label_depth)))))));
            lemma_assoc(old(out)@ + u64::bytes(self.id), u8::bytes(self.kind), u64::bytes(self.size_bytes) + (u32::bytes(self.ip_src) + (u32::bytes(self.ip_dst) + (u8::bytes(self.ip_proto) + (u8::bytes(self.ip_ttl) + (u32::bytes(self.label_top) + (u32::bytes(self.label_depth))))))));
            lemma_assoc(old(out)@, u64::bytes(self.id), u8::bytes(self.kind) + (u64::bytes(self.size_bytes) + (u32::bytes(self.ip_src) + (u32::bytes(self.ip_dst) + (u8::bytes(self.ip_proto) + (u8::bytes(self.ip_ttl) + (u32::bytes(self.label_top) + (u32::bytes(self.label_depth)))))))));
        }
    }

    fn get<'a>(b: &'a [u8]) -> (r: Result<(PacketSnapshotW, &'a [u8]), DecodeError>) {
        let (id, r1) = u64::get(b)?;
        let (kind, r2) = u8::get(r1)?;
        let (size_bytes, r3) = u64::get(r2)?;
        let (ip_src, r4) = u32::get(r3)?;
        let (ip_dst, r5) = u32::get(r4)?;
        let (ip_proto, r6) = u8::get(r5)?;
        let (ip_ttl, r7) = u8::get(r6)?;
        let (label_top, r8) = u32::get(r7)?;
        let (label_depth, r9) = u32::get(r8)?;
        Ok((PacketSnapshotW { id, kind, size_bytes, ip_src, ip_dst, ip_proto, ip_ttl, label_top, label_depth }, r9))
    }
}

/// AS info for the BGP overlay.
#[derive(Debug)]
pub struct AsInfoW {
    pub as_id: u32,
    pub border_switch: u32,
    pub bgp_speaker_ip: u32,
    pub owned_prefixes: Vec<(u32, u8)>,
}

/// What a `AsInfoW` says.
#[verifier::ext_equal]
pub struct AsInfoV {
    pub as_id: u32,
    pub border_switch: u32,
    pub bgp_speaker_ip: u32,
    pub owned_prefixes: Seq<(u32, u8)>,
}

impl View for AsInfoW {
    type V = AsInfoV;

    open spec fn view(&self) -> AsInfoV {
        self.val()
    }
}

impl Wire for AsInfoW {
    type V = AsInfoV;

    open spec fn val(&self) -> AsInfoV {
        AsInfoV {
            as_id: self.as_id,
            border_switch: self.border_switch,
            bgp_speaker_ip: self.bgp_speaker_ip,
            owned_prefixes: self.owned_prefixes.val(),
        }
    }

    open spec fn bytes(v: AsInfoV) -> Seq<u8> {
        u32::bytes(v.as_id) + (u32::bytes(v.border_switch) + (u32::bytes(v.bgp_speaker_ip) + (<Vec<(u32, u8)> as Wire>::bytes(v.owned_prefixes))))
    }

    open spec fn parse(b: Seq<u8>) -> Option<(AsInfoV, Seq<u8>)> {
        match u32::parse(b) {
            Some((as_id, r1)) => match u32::parse(r1) {
                Some((border_switch, r2)) => match u32::parse(r2) {
                    Some((bgp_speaker_ip, r3)) => match <Vec<(u32, u8)> as Wire>::parse(r3) {
                        Some((owned_prefixes, r4)) => Some((AsInfoV { as_id, border_switch, bgp_speaker_ip, owned_prefixes }, r4)),
                        None => None,
                    },
                    None => None,
                },
                None => None,
            },
            None => None,
        }
    }

    open spec fn fits(v: AsInfoV) -> bool {
        <Vec<(u32, u8)> as Wire>::fits(v.owned_prefixes)
    }

    proof fn reads_back(v: AsInfoV, rest: Seq<u8>) {
        u32::reads_back(v.as_id, u32::bytes(v.border_switch) + (u32::bytes(v.bgp_speaker_ip) + (<Vec<(u32, u8)> as Wire>::bytes(v.owned_prefixes) + rest)));
        u32::reads_back(v.border_switch, u32::bytes(v.bgp_speaker_ip) + (<Vec<(u32, u8)> as Wire>::bytes(v.owned_prefixes) + rest));
        u32::reads_back(v.bgp_speaker_ip, <Vec<(u32, u8)> as Wire>::bytes(v.owned_prefixes) + rest);
        <Vec<(u32, u8)> as Wire>::reads_back(v.owned_prefixes, rest);
        lemma_assoc(u32::bytes(v.bgp_speaker_ip), <Vec<(u32, u8)> as Wire>::bytes(v.owned_prefixes), rest);
        lemma_assoc(u32::bytes(v.border_switch), u32::bytes(v.bgp_speaker_ip) + (<Vec<(u32, u8)> as Wire>::bytes(v.owned_prefixes)), rest);
        lemma_assoc(u32::bytes(v.as_id), u32::bytes(v.border_switch) + (u32::bytes(v.bgp_speaker_ip) + (<Vec<(u32, u8)> as Wire>::bytes(v.owned_prefixes))), rest);
    }

    fn put(&self, out: &mut Vec<u8>) {
        self.as_id.put(out);
        self.border_switch.put(out);
        self.bgp_speaker_ip.put(out);
        self.owned_prefixes.put(out);
        proof {
            lemma_assoc((old(out)@ + u32::bytes(self.as_id)) + u32::bytes(self.border_switch), u32::bytes(self.bgp_speaker_ip), <Vec<(u32, u8)> as Wire>::bytes(self.owned_prefixes.val()));
            lemma_assoc(old(out)@ + u32::bytes(self.as_id), u32::bytes(self.border_switch), u32::bytes(self.bgp_speaker_ip) + (<Vec<(u32, u8)> as Wire>::bytes(self.owned_prefixes.val())));
            lemma_assoc(old(out)@, u32::bytes(self.as_id), u32::bytes(self.border_switch) + (u32::bytes(self.bgp_speaker_ip) + (<Vec<(u32, u8)> as Wire>::bytes(self.owned_prefixes.val()))));
        }
    }

    fn get<'a>(b: &'a [u8]) -> (r: Result<(AsInfoW, &'a [u8]), DecodeError>) {
        let (as_id, r1) = u32::get(b)?;
        let (border_switch, r2) = u32::get(r1)?;
        let (bgp_speaker_ip, r3) = u32::get(r2)?;
        let (owned_prefixes, r4) = <Vec<(u32, u8)> as Wire>::get(r3)?;
        Ok((AsInfoW { as_id, border_switch, bgp_speaker_ip, owned_prefixes }, r4))
    }
}

/// One match-action table at the moment a program is installed.
#[derive(Debug)]
pub struct TableSnapshotW {
    pub table_id: u32,
    pub kind: MatchKindW,
    pub max_entries: u32,
    pub entries: Vec<TableEntryW>,
}

/// What a `TableSnapshotW` says.
#[verifier::ext_equal]
pub struct TableSnapshotV {
    pub table_id: u32,
    pub kind: MatchKindW,
    pub max_entries: u32,
    pub entries: Seq<TableEntryW>,
}

impl View for TableSnapshotW {
    type V = TableSnapshotV;

    open spec fn view(&self) -> TableSnapshotV {
        self.val()
    }
}

impl Wire for TableSnapshotW {
    type V = TableSnapshotV;

    open spec fn val(&self) -> TableSnapshotV {
        TableSnapshotV {
            table_id: self.table_id,
            kind: self.kind,
            max_entries: self.max_entries,
            entries: self.entries.val(),
        }
    }

    open spec fn bytes(v: TableSnapshotV) -> Seq<u8> {
        u32::bytes(v.table_id) + (MatchKindW::bytes(v.kind) + (u32::bytes(v.max_entries) + (<Vec<TableEntryW> as Wire>::bytes(v.entries))))
    }

    open spec fn parse(b: Seq<u8>) -> Option<(TableSnapshotV, Seq<u8>)> {
        match u32::parse(b) {
            Some((table_id, r1)) => match MatchKindW::parse(r1) {
                Some((kind, r2)) => match u32::parse(r2) {
                    Some((max_entries, r3)) => match <Vec<TableEntryW> as Wire>::parse(r3) {
                        Some((entries, r4)) => Some((TableSnapshotV { table_id, kind, max_entries, entries }, r4)),
                        None => None,
                    },
                    None => None,
                },
                None => None,
            },
            None => None,
        }
    }

    open spec fn fits(v: TableSnapshotV) -> bool {
        <Vec<TableEntryW> as Wire>::fits(v.entries)
    }

    proof fn reads_back(v: TableSnapshotV, rest: Seq<u8>) {
        u32::reads_back(v.table_id, MatchKindW::bytes(v.kind) + (u32::bytes(v.max_entries) + (<Vec<TableEntryW> as Wire>::bytes(v.entries) + rest)));
        MatchKindW::reads_back(v.kind, u32::bytes(v.max_entries) + (<Vec<TableEntryW> as Wire>::bytes(v.entries) + rest));
        u32::reads_back(v.max_entries, <Vec<TableEntryW> as Wire>::bytes(v.entries) + rest);
        <Vec<TableEntryW> as Wire>::reads_back(v.entries, rest);
        lemma_assoc(u32::bytes(v.max_entries), <Vec<TableEntryW> as Wire>::bytes(v.entries), rest);
        lemma_assoc(MatchKindW::bytes(v.kind), u32::bytes(v.max_entries) + (<Vec<TableEntryW> as Wire>::bytes(v.entries)), rest);
        lemma_assoc(u32::bytes(v.table_id), MatchKindW::bytes(v.kind) + (u32::bytes(v.max_entries) + (<Vec<TableEntryW> as Wire>::bytes(v.entries))), rest);
    }

    fn put(&self, out: &mut Vec<u8>) {
        self.table_id.put(out);
        self.kind.put(out);
        self.max_entries.put(out);
        self.entries.put(out);
        proof {
            lemma_assoc((old(out)@ + u32::bytes(self.table_id)) + MatchKindW::bytes(self.kind), u32::bytes(self.max_entries), <Vec<TableEntryW> as Wire>::bytes(self.entries.val()));
            lemma_assoc(old(out)@ + u32::bytes(self.table_id), MatchKindW::bytes(self.kind), u32::bytes(self.max_entries) + (<Vec<TableEntryW> as Wire>::bytes(self.entries.val())));
            lemma_assoc(old(out)@, u32::bytes(self.table_id), MatchKindW::bytes(self.kind) + (u32::bytes(self.max_entries) + (<Vec<TableEntryW> as Wire>::bytes(self.entries.val()))));
        }
    }

    fn get<'a>(b: &'a [u8]) -> (r: Result<(TableSnapshotW, &'a [u8]), DecodeError>) {
        let (table_id, r1) = u32::get(b)?;
        let (kind, r2) = MatchKindW::get(r1)?;
        let (max_entries, r3) = u32::get(r2)?;
        let (entries, r4) = <Vec<TableEntryW> as Wire>::get(r3)?;
        Ok((TableSnapshotW { table_id, kind, max_entries, entries }, r4))
    }
}

#[derive(Debug, Clone, Copy, PartialEq, Eq, Hash, Structural)]
pub struct RegSnapshotW {
    pub array_id: u32,
    pub size: u32,
}

impl Wire for RegSnapshotW {
    type V = RegSnapshotW;

    open spec fn val(&self) -> RegSnapshotW {
        *self
    }

    open spec fn bytes(v: RegSnapshotW) -> Seq<u8> {
        u32::bytes(v.array_id) + (u32::bytes(v.size))
    }

    open spec fn parse(b: Seq<u8>) -> Option<(RegSnapshotW, Seq<u8>)> {
        match u32::parse(b) {
            Some((array_id, r1)) => match u32::parse(r1) {
                Some((size, r2)) => Some((RegSnapshotW { array_id, size }, r2)),
                None => None,
            },
            None => None,
        }
    }

    open spec fn fits(v: RegSnapshotW) -> bool {
        true
    }

    proof fn reads_back(v: RegSnapshotW, rest: Seq<u8>) {
        u32::reads_back(v.array_id, u32::bytes(v.size) + rest);
        u32::reads_back(v.size, rest);
        lemma_assoc(u32::bytes(v.array_id), u32::bytes(v.size), rest);
    }

    fn put(&self, out: &mut Vec<u8>) {
        self.array_id.put(out);
        self.size.put(out);
        proof {
            lemma_assoc(old(out)@, u32::bytes(self.array_id), u32::bytes(self.size));
        }
    }

    fn get<'a>(b: &'a [u8]) -> (r: Result<(RegSnapshotW, &'a [u8]), DecodeError>) {
        let (array_id, r1) = u32::get(b)?;
        let (size, r2) = u32::get(r1)?;
        Ok((RegSnapshotW { array_id, size }, r2))
    }
}

#[derive(Debug, Clone, Copy, PartialEq, Eq, Hash, Structural)]
pub struct CounterSnapshotW {
    pub array_id: u32,
    pub size: u32,
}

impl Wire for CounterSnapshotW {
    type V = CounterSnapshotW;

    open spec fn val(&self) -> CounterSnapshotW {
        *self
    }

    open spec fn bytes(v: CounterSnapshotW) -> Seq<u8> {
        u32::bytes(v.array_id) + (u32::bytes(v.size))
    }

    open spec fn parse(b: Seq<u8>) -> Option<(CounterSnapshotW, Seq<u8>)> {
        match u32::parse(b) {
            Some((array_id, r1)) => match u32::parse(r1) {
                Some((size, r2)) => Some((CounterSnapshotW { array_id, size }, r2)),
                None => None,
            },
            None => None,
        }
    }

    open spec fn fits(v: CounterSnapshotW) -> bool {
        true
    }

    proof fn reads_back(v: CounterSnapshotW, rest: Seq<u8>) {
        u32::reads_back(v.array_id, u32::bytes(v.size) + rest);
        u32::reads_back(v.size, rest);
        lemma_assoc(u32::bytes(v.array_id), u32::bytes(v.size), rest);
    }

    fn put(&self, out: &mut Vec<u8>) {
        self.array_id.put(out);
        self.size.put(out);
        proof {
            lemma_assoc(old(out)@, u32::bytes(self.array_id), u32::bytes(self.size));
        }
    }

    fn get<'a>(b: &'a [u8]) -> (r: Result<(CounterSnapshotW, &'a [u8]), DecodeError>) {
        let (array_id, r1) = u32::get(b)?;
        let (size, r2) = u32::get(r1)?;
        Ok((CounterSnapshotW { array_id, size }, r2))
    }
}

#[allow(inconsistent_fields)]
#[derive(Debug)]
pub enum LogEvent {
    /// File header. Always the first frame; `at_ns` is 0.
    Header { magic: u32, version: u32 },
    AppAdded { id: u32, ip: u32, dst_ip: u32 },
    SwitchAdded { id: u32, owner: Option<u32>, num_ports: u16, config: SwitchConfigW },
    LinkAdded { id: u32, a: NodeRefW, a_port: u16, b: NodeRefW, b_port: u16, config: LinkConfigW },
    BgpConfigured { ases: Vec<AsInfoW> },
    LinkFailed { id: u32 },
    LinkRestored { id: u32 },
    SwitchFailed { id: u32 },
    CpuFailed { id: u32 },
    PacketIngress { switch: u32, port: u16, packet: PacketSnapshotW },
    PacketEgress { switch: u32, port: u16, link: u32, packet_id: u64, size_bytes: u64, arrive_at_ns: u64 },
    PacketDropped { at: NodeRefW, reason: DropReasonW, packet_id: u64 },
    PacketDelivered { app: u32, packet_id: u64 },
    PacketPunted { switch: u32, reason: u32, packet_id: u64 },
    ProgramInstalled { switch: u32, program: TinyProgramW, tables: Vec<TableSnapshotW>, registers: Vec<RegSnapshotW>, counters: Vec<CounterSnapshotW> },
    TableEntryInstalled { switch: u32, table: u32, entry: TableEntryW },
    TableEntryDeleted { switch: u32, table: u32, entry_id: u64 },
    QueueConfigChanged { switch: u32, port: u16, capacity_bytes: u64 },
}

/// What a `LogEvent` says.
#[allow(inconsistent_fields)]
#[verifier::ext_equal]
pub enum LogEventV {
    Header { magic: u32, version: u32 },
    AppAdded { id: u32, ip: u32, dst_ip: u32 },
    SwitchAdded { id: u32, owner: Option<u32>, num_ports: u16, config: SwitchConfigW },
    LinkAdded { id: u32, a: NodeRefW, a_port: u16, b: NodeRefW, b_port: u16, config: LinkConfigW },
    BgpConfigured { ases: Seq<AsInfoV> },
    LinkFailed { id: u32 },
    LinkRestored { id: u32 },
    SwitchFailed { id: u32 },
    CpuFailed { id: u32 },
    PacketIngress { switch: u32, port: u16, packet: PacketSnapshotW },
    PacketEgress { switch: u32, port: u16, link: u32, packet_id: u64, size_bytes: u64, arrive_at_ns: u64 },
    PacketDropped { at: NodeRefW, reason: DropReasonW, packet_id: u64 },
    PacketDelivered { app: u32, packet_id: u64 },
    PacketPunted { switch: u32, reason: u32, packet_id: u64 },
    ProgramInstalled { switch: u32, program: TinyProgramV, tables: Seq<TableSnapshotV>, registers: Seq<RegSnapshotW>, counters: Seq<CounterSnapshotW> },
    TableEntryInstalled { switch: u32, table: u32, entry: TableEntryW },
    TableEntryDeleted { switch: u32, table: u32, entry_id: u64 },
    QueueConfigChanged { switch: u32, port: u16, capacity_bytes: u64 },
}

impl View for LogEvent {
    type V = LogEventV;

    open spec fn view(&self) -> LogEventV {
        self.val()
    }
}

impl Wire for LogEvent {
    type V = LogEventV;

    open spec fn val(&self) -> LogEventV {
        match *self {
            LogEvent::Header { magic, version } => LogEventV::Header { magic, version },
            LogEvent::AppAdded { id, ip, dst_ip } => LogEventV::AppAdded { id, ip, dst_ip },
            LogEvent::SwitchAdded { id, owner, num_ports, config } => LogEventV::SwitchAdded { id, owner, num_ports, config },
            LogEvent::LinkAdded { id, a, a_port, b, b_port, config } => LogEventV::LinkAdded { id, a, a_port, b, b_port, config },
            LogEvent::BgpConfigured { ases } => LogEventV::BgpConfigured { ases: ases.val() },
            LogEvent::LinkFailed { id } => LogEventV::LinkFailed { id },
            LogEvent::LinkRestored { id } => LogEventV::LinkRestored { id },
            LogEvent::SwitchFailed { id } => LogEventV::SwitchFailed { id },
            LogEvent::CpuFailed { id } => LogEventV::CpuFailed { id },
            LogEvent::PacketIngress { switch, port, packet } => LogEventV::PacketIngress { switch, port, packet },
            LogEvent::PacketEgress { switch, port, link, packet_id, size_bytes, arrive_at_ns } => LogEventV::PacketEgress { switch, port, link, packet_id, size_bytes, arrive_at_ns },
            LogEvent::PacketDropped { at, reason, packet_id } => LogEventV::PacketDropped { at, reason, packet_id },
            LogEvent::PacketDelivered { app, packet_id } => LogEventV::PacketDelivered { app, packet_id },
            LogEvent::PacketPunted { switch, reason, packet_id } => LogEventV::PacketPunted { switch, reason, packet_id },
            LogEvent::ProgramInstalled { switch, program, tables, registers, counters } => LogEventV::ProgramInstalled { switch, program: program.val(), tables: tables.val(), registers: registers.val(), counters: counters.val() },
            LogEvent::TableEntryInstalled { switch, table, entry } => LogEventV::TableEntryInstalled { switch, table, entry },
            LogEvent::TableEntryDeleted { switch, table, entry_id } => LogEventV::TableEntryDeleted { switch, table, entry_id },
            LogEvent::QueueConfigChanged { switch, port, capacity_bytes } => LogEventV::QueueConfigChanged { switch, port, capacity_bytes },
        }
    }

    open spec fn bytes(v: LogEventV) -> Seq<u8> {
        match v {
            LogEventV::Header { magic, version } => u32::bytes(0) + (u32::bytes(magic) + (u32::bytes(version))),
            LogEventV::AppAdded { id, ip, dst_ip } => u32::bytes(1) + (u32::bytes(id) + (u32::bytes(ip) + (u32::bytes(dst_ip)))),
            LogEventV::SwitchAdded { id, owner, num_ports, config } => u32::bytes(2) + (u32::bytes(id) + (<Option<u32> as Wire>::bytes(owner) + (u16::bytes(num_ports) + (SwitchConfigW::bytes(config))))),
            LogEventV::LinkAdded { id, a, a_port, b, b_port, config } => u32::bytes(3) + (u32::bytes(id) + (NodeRefW::bytes(a) + (u16::bytes(a_port) + (NodeRefW::bytes(b) + (u16::bytes(b_port) + (LinkConfigW::bytes(config))))))),
            LogEventV::BgpConfigured { ases } => u32::bytes(4) + (<Vec<AsInfoW> as Wire>::bytes(ases)),
            LogEventV::LinkFailed { id } => u32::bytes(5) + (u32::bytes(id)),
            LogEventV::LinkRestored { id } => u32::bytes(6) + (u32::bytes(id)),
            LogEventV::SwitchFailed { id } => u32::bytes(7) + (u32::bytes(id)),
            LogEventV::CpuFailed { id } => u32::bytes(8) + (u32::bytes(id)),
            LogEventV::PacketIngress { switch, port, packet } => u32::bytes(9) + (u32::bytes(switch) + (u16::bytes(port) + (PacketSnapshotW::bytes(packet)))),
            LogEventV::PacketEgress { switch, port, link, packet_id, size_bytes, arrive_at_ns } => u32::bytes(10) + (u32::bytes(switch) + (u16::bytes(port) + (u32::bytes(link) + (u64::bytes(packet_id) + (u64::bytes(size_bytes) + (u64::bytes(arrive_at_ns))))))),
            LogEventV::PacketDropped { at, reason, packet_id } => u32::bytes(11) + (NodeRefW::bytes(at) + (DropReasonW::bytes(reason) + (u64::bytes(packet_id)))),
            LogEventV::PacketDelivered { app, packet_id } => u32::bytes(12) + (u32::bytes(app) + (u64::bytes(packet_id))),
            LogEventV::PacketPunted { switch, reason, packet_id } => u32::bytes(13) + (u32::bytes(switch) + (u32::bytes(reason) + (u64::bytes(packet_id)))),
            LogEventV::ProgramInstalled { switch, program, tables, registers, counters } => u32::bytes(14) + (u32::bytes(switch) + (TinyProgramW::bytes(program) + (<Vec<TableSnapshotW> as Wire>::bytes(tables) + (<Vec<RegSnapshotW> as Wire>::bytes(registers) + (<Vec<CounterSnapshotW> as Wire>::bytes(counters)))))),
            LogEventV::TableEntryInstalled { switch, table, entry } => u32::bytes(15) + (u32::bytes(switch) + (u32::bytes(table) + (TableEntryW::bytes(entry)))),
            LogEventV::TableEntryDeleted { switch, table, entry_id } => u32::bytes(16) + (u32::bytes(switch) + (u32::bytes(table) + (u64::bytes(entry_id)))),
            LogEventV::QueueConfigChanged { switch, port, capacity_bytes } => u32::bytes(17) + (u32::bytes(switch) + (u16::bytes(port) + (u64::bytes(capacity_bytes)))),
        }
    }

    open spec fn parse(b: Seq<u8>) -> Option<(LogEventV, Seq<u8>)> {
        match u32::parse(b) {
            Some((tag, r0)) => if tag == 0 {
                match u32::parse(r0) {
                    Some((magic, r1)) => match u32::parse(r1) {
                        Some((version, r2)) => Some((LogEventV::Header { magic, version }, r2)),
                        None => None,
                    },
                    None => None,
                }
            } else if tag == 1 {
                match u32::parse(r0) {
                    Some((id, r1)) => match u32::parse(r1) {
                        Some((ip, r2)) => match u32::parse(r2) {
                            Some((dst_ip, r3)) => Some((LogEventV::AppAdded { id, ip, dst_ip }, r3)),
                            None => None,
                        },
                        None => None,
                    },
                    None => None,
                }
            } else if tag == 2 {
                match u32::parse(r0) {
                    Some((id, r1)) => match <Option<u32> as Wire>::parse(r1) {
                        Some((owner, r2)) => match u16::parse(r2) {
                            Some((num_ports, r3)) => match SwitchConfigW::parse(r3) {
                                Some((config, r4)) => Some((LogEventV::SwitchAdded { id, owner, num_ports, config }, r4)),
                                None => None,
                            },
                            None => None,
                        },
                        None => None,
                    },
                    None => None,
                }
            } else if tag == 3 {
                match u32::parse(r0) {
                    Some((id, r1)) => match NodeRefW::parse(r1) {
                        Some((a, r2)) => match u16::parse(r2) {
                            Some((a_port, r3)) => match NodeRefW::parse(r3) {
                                Some((b, r4)) => match u16::parse(r4) {
                                    Some((b_port, r5)) => match LinkConfigW::parse(r5) {
                                        Some((config, r6)) => Some((LogEventV::LinkAdded { id, a, a_port, b, b_port, config }, r6)),
                                        None => None,
                                    },
                                    None => None,
                                },
                                None => None,
                            },
                            None => None,
                        },
                        None => None,
                    },
                    None => None,
                }
            } else if tag == 4 {
                match <Vec<AsInfoW> as Wire>::parse(r0) {
                    Some((ases, r1)) => Some((LogEventV::BgpConfigured { ases }, r1)),
                    None => None,
                }
            } else if tag == 5 {
                match u32::parse(r0) {
                    Some((id, r1)) => Some((LogEventV::LinkFailed { id }, r1)),
                    None => None,
                }
            } else if tag == 6 {
                match u32::parse(r0) {
                    Some((id, r1)) => Some((LogEventV::LinkRestored { id }, r1)),
                    None => None,
                }
            } else if tag == 7 {
                match u32::parse(r0) {
                    Some((id, r1)) => Some((LogEventV::SwitchFailed { id }, r1)),
                    None => None,
                }
            } else if tag == 8 {
                match u32::parse(r0) {
                    Some((id, r1)) => Some((LogEventV::CpuFailed { id }, r1)),
                    None => None,
                }
            } else if tag == 9 {
                match u32::parse(r0) {
                    Some((switch, r1)) => match u16::parse(r1) {
                        Some((port, r2)) => match PacketSnapshotW::parse(r2) {
                            Some((packet, r3)) => Some((LogEventV::PacketIngress { switch, port, packet }, r3)),
                            None => None,
                        },
                        None => None,
                    },
                    None => None,
                }
            } else if tag == 10 {
                match u32::parse(r0) {
                    Some((switch, r1)) => match u16::parse(r1) {
                        Some((port, r2)) => match u32::parse(r2) {
                            Some((link, r3)) => match u64::parse(r3) {
                                Some((packet_id, r4)) => match u64::parse(r4) {
                                    Some((size_bytes, r5)) => match u64::parse(r5) {
                                        Some((arrive_at_ns, r6)) => Some((LogEventV::PacketEgress { switch, port, link, packet_id, size_bytes, arrive_at_ns }, r6)),
                                        None => None,
                                    },
                                    None => None,
                                },
                                None => None,
                            },
                            None => None,
                        },
                        None => None,
                    },
                    None => None,
                }
            } else if tag == 11 {
                match NodeRefW::parse(r0) {
                    Some((at, r1)) => match DropReasonW::parse(r1) {
                        Some((reason, r2)) => match u64::parse(r2) {
                            Some((packet_id, r3)) => Some((LogEventV::PacketDropped { at, reason, packet_id }, r3)),
                            None => None,
                        },
                        None => None,
                    },
                    None => None,
                }
            } else if tag == 12 {
                match u32::parse(r0) {
                    Some((app, r1)) => match u64::parse(r1) {
                        Some((packet_id, r2)) => Some((LogEventV::PacketDelivered { app, packet_id }, r2)),
                        None => None,
                    },
                    None => None,
                }
            } else if tag == 13 {
                match u32::parse(r0) {
                    Some((switch, r1)) => match u32::parse(r1) {
                        Some((reason, r2)) => match u64::parse(r2) {
                            Some((packet_id, r3)) => Some((LogEventV::PacketPunted { switch, reason, packet_id }, r3)),
                            None => None,
                        },
                        None => None,
                    },
                    None => None,
                }
            } else if tag == 14 {
                match u32::parse(r0) {
                    Some((switch, r1)) => match TinyProgramW::parse(r1) {
                        Some((program, r2)) => match <Vec<TableSnapshotW> as Wire>::parse(r2) {
                            Some((tables, r3)) => match <Vec<RegSnapshotW> as Wire>::parse(r3) {
                                Some((registers, r4)) => match <Vec<CounterSnapshotW> as Wire>::parse(r4) {
                                    Some((counters, r5)) => Some((LogEventV::ProgramInstalled { switch, program, tables, registers, counters }, r5)),
                                    None => None,
                                },
                                None => None,
                            },
                            None => None,
                        },
                        None => None,
                    },
                    None => None,
                }
            } else if tag == 15 {
                match u32::parse(r0) {
                    Some((switch, r1)) => match u32::parse(r1) {
                        Some((table, r2)) => match TableEntryW::parse(r2) {
                            Some((entry, r3)) => Some((LogEventV::TableEntryInstalled { switch, table, entry }, r3)),
                            None => None,
                        },
                        None => None,
                    },
                    None => None,
                }
            } else if tag == 16 {
                match u32::parse(r0) {
                    Some((switch, r1)) => match u32::parse(r1) {
                        Some((table, r2)) => match u64::parse(r2) {
                            Some((entry_id, r3)) => Some((LogEventV::TableEntryDeleted { switch, table, entry_id }, r3)),
                            None => None,
                        },
                        None => None,
                    },
                    None => None,
                }
            } else if tag == 17 {
                match u32::parse(r0) {
                    Some((switch, r1)) => match u16::parse(r1) {
                        Some((port, r2)) => match u64::parse(r2) {
                            Some((capacity_bytes, r3)) => Some((LogEventV::QueueConfigChanged { switch, port, capacity_bytes }, r3)),
                            None => None,
                        },
                        None => None,
                    },
                    None => None,
                }
            } else {
                None
            },
            None => None,
        }
    }

    open spec fn fits(v: LogEventV) -> bool {
        match v {
            LogEventV::BgpConfigured { ases, .. } => <Vec<AsInfoW> as Wire>::fits(ases),
            LogEventV::ProgramInstalled { program, tables, registers, counters, .. } => TinyProgramW::fits(program) && <Vec<TableSnapshotW> as Wire>::fits(tables) && <Vec<RegSnapshotW> as Wire>::fits(registers) && <Vec<CounterSnapshotW> as Wire>::fits(counters),
            _ => true,
        }
    }

    #[verifier::rlimit(60)]
    proof fn reads_back(v: LogEventV, rest: Seq<u8>) {
        match v {
            LogEventV::Header { magic, version } => {
                u32::reads_back(0, u32::bytes(magic) + (u32::bytes(version) + rest));
                u32::reads_back(magic, u32::bytes(version) + rest);
                u32::reads_back(version, rest);
                lemma_assoc(u32::bytes(magic), u32::bytes(version), rest);
                lemma_assoc(u32::bytes(0), u32::bytes(magic) + (u32::bytes(version)), rest);
            },
            LogEventV::AppAdded { id, ip, dst_ip } => {
                u32::reads_back(1, u32::bytes(id) + (u32::bytes(ip) + (u32::bytes(dst_ip) + rest)));
                u32::reads_back(id, u32::bytes(ip) + (u32::bytes(dst_ip) + rest));
                u32::reads_back(ip, u32::bytes(dst_ip) + rest);
                u32::reads_back(dst_ip, rest);
                lemma_assoc(u32::bytes(ip), u32::bytes(dst_ip), rest);
                lemma_assoc(u32::bytes(id), u32::bytes(ip) + (u32::bytes(dst_ip)), rest);
                lemma_assoc(u32::bytes(1), u32::bytes(id) + (u32::bytes(ip) + (u32::bytes(dst_ip))), rest);
            },
            LogEventV::SwitchAdded { id, owner, num_ports, config } => {
                u32::reads_back(2, u32::bytes(id) + (<Option<u32> as Wire>::bytes(owner) + (u16::bytes(num_ports) + (SwitchConfigW::bytes(config) + rest))));
                u32::reads_back(id, <Option<u32> as Wire>::bytes(owner) + (u16::bytes(num_ports) + (SwitchConfigW::bytes(config) + rest)));
                <Option<u32> as Wire>::reads_back(owner, u16::bytes(num_ports) + (SwitchConfigW::bytes(config) + rest));
                u16::reads_back(num_ports, SwitchConfigW::bytes(config) + rest);
                SwitchConfigW::reads_back(config, rest);
                lemma_assoc(u16::bytes(num_ports), SwitchConfigW::bytes(config), rest);
                lemma_assoc(<Option<u32> as Wire>::bytes(owner), u16::bytes(num_ports) + (SwitchConfigW::bytes(config)), rest);
                lemma_assoc(u32::bytes(id), <Option<u32> as Wire>::bytes(owner) + (u16::bytes(num_ports) + (SwitchConfigW::bytes(config))), rest);
                lemma_assoc(u32::bytes(2), u32::bytes(id) + (<Option<u32> as Wire>::bytes(owner) + (u16::bytes(num_ports) + (SwitchConfigW::bytes(config)))), rest);
            },
            LogEventV::LinkAdded { id, a, a_port, b, b_port, config } => {
                u32::reads_back(3, u32::bytes(id) + (NodeRefW::bytes(a) + (u16::bytes(a_port) + (NodeRefW::bytes(b) + (u16::bytes(b_port) + (LinkConfigW::bytes(config) + rest))))));
                u32::reads_back(id, NodeRefW::bytes(a) + (u16::bytes(a_port) + (NodeRefW::bytes(b) + (u16::bytes(b_port) + (LinkConfigW::bytes(config) + rest)))));
                NodeRefW::reads_back(a, u16::bytes(a_port) + (NodeRefW::bytes(b) + (u16::bytes(b_port) + (LinkConfigW::bytes(config) + rest))));
                u16::reads_back(a_port, NodeRefW::bytes(b) + (u16::bytes(b_port) + (LinkConfigW::bytes(config) + rest)));
                NodeRefW::reads_back(b, u16::bytes(b_port) + (LinkConfigW::bytes(config) + rest));
                u16::reads_back(b_port, LinkConfigW::bytes(config) + rest);
                LinkConfigW::reads_back(config, rest);
                lemma_assoc(u16::bytes(b_port), LinkConfigW::bytes(config), rest);
                lemma_assoc(NodeRefW::bytes(b), u16::bytes(b_port) + (LinkConfigW::bytes(config)), rest);
                lemma_assoc(u16::bytes(a_port), NodeRefW::bytes(b) + (u16::bytes(b_port) + (LinkConfigW::bytes(config))), rest);
                lemma_assoc(NodeRefW::bytes(a), u16::bytes(a_port) + (NodeRefW::bytes(b) + (u16::bytes(b_port) + (LinkConfigW::bytes(config)))), rest);
                lemma_assoc(u32::bytes(id), NodeRefW::bytes(a) + (u16::bytes(a_port) + (NodeRefW::bytes(b) + (u16::bytes(b_port) + (LinkConfigW::bytes(config))))), rest);
                lemma_assoc(u32::bytes(3), u32::bytes(id) + (NodeRefW::bytes(a) + (u16::bytes(a_port) + (NodeRefW::bytes(b) + (u16::bytes(b_port) + (LinkConfigW::bytes(config)))))), rest);
            },
            LogEventV::BgpConfigured { ases } => {
                u32::reads_back(4, <Vec<AsInfoW> as Wire>::bytes(ases) + rest);
                <Vec<AsInfoW> as Wire>::reads_back(ases, rest);
                lemma_assoc(u32::bytes(4), <Vec<AsInfoW> as Wire>::bytes(ases), rest);
            },
            LogEventV::LinkFailed { id } => {
                u32::reads_back(5, u32::bytes(id) + rest);
                u32::reads_back(id, rest);
                lemma_assoc(u32::bytes(5), u32::bytes(id), rest);
            },
            LogEventV::LinkRestored { id } => {
                u32::reads_back(6, u32::bytes(id) + rest);
                u32::reads_back(id, rest);
                lemma_assoc(u32::bytes(6), u32::bytes(id), rest);
            },
            LogEventV::SwitchFailed { id } => {
                u32::reads_back(7, u32::bytes(id) + rest);
                u32::reads_back(id, rest);
                lemma_assoc(u32::bytes(7), u32::bytes(id), rest);
            },
            LogEventV::CpuFailed { id } => {
                u32::reads_back(8, u32::bytes(id) + rest);
                u32::reads_back(id, rest);
                lemma_assoc(u32::bytes(8), u32::bytes(id), rest);
            },
            LogEventV::PacketIngress { switch, port, packet } => {
                u32::reads_back(9, u32::bytes(switch) + (u16::bytes(port) + (PacketSnapshotW::bytes(packet) + rest)));
                u32::reads_back(switch, u16::bytes(port) + (PacketSnapshotW::bytes(packet) + rest));
                u16::reads_back(port, PacketSnapshotW::bytes(packet) + rest);
                PacketSnapshotW::reads_back(packet, rest);
                lemma_assoc(u16::bytes(port), PacketSnapshotW::bytes(packet), rest);
                lemma_assoc(u32::bytes(switch), u16::bytes(port) + (PacketSnapshotW::bytes(packet)), rest);
                lemma_assoc(u32::bytes(9), u32::bytes(switch) + (u16::bytes(port) + (PacketSnapshotW::bytes(packet))), rest);
            },
            LogEventV::PacketEgress { switch, port, link, packet_id, size_bytes, arrive_at_ns } => {
                u32::reads_back(10, u32::bytes(switch) + (u16::bytes(port) + (u32::bytes(link) + (u64::bytes(packet_id) + (u64::bytes(size_bytes) + (u64::bytes(arrive_at_ns) + rest))))));
                u32::reads_back(switch, u16::bytes(port) + (u32::bytes(link) + (u64::bytes(packet_id) + (u64::bytes(size_bytes) + (u64::bytes(arrive_at_ns) + rest)))));
                u16::reads_back(port, u32::bytes(link) + (u64::bytes(packet_id) + (u64::bytes(size_bytes) + (u64::bytes(arrive_at_ns) + rest))));
                u32::reads_back(link, u64::bytes(packet_id) + (u64::bytes(size_bytes) + (u64::bytes(arrive_at_ns) + rest)));
                u64::reads_back(packet_id, u64::bytes(size_bytes) + (u64::bytes(arrive_at_ns) + rest));
                u64::reads_back(size_bytes, u64::bytes(arrive_at_ns) + rest);
                u64::reads_back(arrive_at_ns, rest);
                lemma_assoc(u64::bytes(size_bytes), u64::bytes(arrive_at_ns), rest);
                lemma_assoc(u64::bytes(packet_id), u64::bytes(size_bytes) + (u64::bytes(arrive_at_ns)), rest);
                lemma_assoc(u32::bytes(link), u64::bytes(packet_id) + (u64::bytes(size_bytes) + (u64::bytes(arrive_at_ns))), rest);
                lemma_assoc(u16::bytes(port), u32::bytes(link) + (u64::bytes(packet_id) + (u64::bytes(size_bytes) + (u64::bytes(arrive_at_ns)))), rest);
                lemma_assoc(u32::bytes(switch), u16::bytes(port) + (u32::bytes(link) + (u64::bytes(packet_id) + (u64::bytes(size_bytes) + (u64::bytes(arrive_at_ns))))), rest);
                lemma_assoc(u32::bytes(10), u32::bytes(switch) + (u16::bytes(port) + (u32::bytes(link) + (u64::bytes(packet_id) + (u64::bytes(size_bytes) + (u64::bytes(arrive_at_ns)))))), rest);
            },
            LogEventV::PacketDropped { at, reason, packet_id } => {
                u32::reads_back(11, NodeRefW::bytes(at) + (DropReasonW::bytes(reason) + (u64::bytes(packet_id) + rest)));
                NodeRefW::reads_back(at, DropReasonW::bytes(reason) + (u64::bytes(packet_id) + rest));
                DropReasonW::reads_back(reason, u64::bytes(packet_id) + rest);
                u64::reads_back(packet_id, rest);
                lemma_assoc(DropReasonW::bytes(reason), u64::bytes(packet_id), rest);
                lemma_assoc(NodeRefW::bytes(at), DropReasonW::bytes(reason) + (u64::bytes(packet_id)), rest);
                lemma_assoc(u32::bytes(11), NodeRefW::bytes(at) + (DropReasonW::bytes(reason) + (u64::bytes(packet_id))), rest);
            },
            LogEventV::PacketDelivered { app, packet_id } => {
                u32::reads_back(12, u32::bytes(app) + (u64::bytes(packet_id) + rest));
                u32::reads_back(app, u64::bytes(packet_id) + rest);
                u64::reads_back(packet_id, rest);
                lemma_assoc(u32::bytes(app), u64::bytes(packet_id), rest);
                lemma_assoc(u32::bytes(12), u32::bytes(app) + (u64::bytes(packet_id)), rest);
            },
            LogEventV::PacketPunted { switch, reason, packet_id } => {
                u32::reads_back(13, u32::bytes(switch) + (u32::bytes(reason) + (u64::bytes(packet_id) + rest)));
                u32::reads_back(switch, u32::bytes(reason) + (u64::bytes(packet_id) + rest));
                u32::reads_back(reason, u64::bytes(packet_id) + rest);
                u64::reads_back(packet_id, rest);
                lemma_assoc(u32::bytes(reason), u64::bytes(packet_id), rest);
                lemma_assoc(u32::bytes(switch), u32::bytes(reason) + (u64::bytes(packet_id)), rest);
                lemma_assoc(u32::bytes(13), u32::bytes(switch) + (u32::bytes(reason) + (u64::bytes(packet_id))), rest);
            },
            LogEventV::ProgramInstalled { switch, program, tables, registers, counters } => {
                u32::reads_back(14, u32::bytes(switch) + (TinyProgramW::bytes(program) + (<Vec<TableSnapshotW> as Wire>::bytes(tables) + (<Vec<RegSnapshotW> as Wire>::bytes(registers) + (<Vec<CounterSnapshotW> as Wire>::bytes(counters) + rest)))));
                u32::reads_back(switch, TinyProgramW::bytes(program) + (<Vec<TableSnapshotW> as Wire>::bytes(tables) + (<Vec<RegSnapshotW> as Wire>::bytes(registers) + (<Vec<CounterSnapshotW> as Wire>::bytes(counters) + rest))));
                TinyProgramW::reads_back(program, <Vec<TableSnapshotW> as Wire>::bytes(tables) + (<Vec<RegSnapshotW> as Wire>::bytes(registers) + (<Vec<CounterSnapshotW> as Wire>::bytes(counters) + rest)));
                <Vec<TableSnapshotW> as Wire>::reads_back(tables, <Vec<RegSnapshotW> as Wire>::bytes(registers) + (<Vec<CounterSnapshotW> as Wire>::bytes(counters) + rest));
                <Vec<RegSnapshotW> as Wire>::reads_back(registers, <Vec<CounterSnapshotW> as Wire>::bytes(counters) + rest);
                <Vec<CounterSnapshotW> as Wire>::reads_back(counters, rest);
                lemma_assoc(<Vec<RegSnapshotW> as Wire>::bytes(registers), <Vec<CounterSnapshotW> as Wire>::bytes(counters), rest);
                lemma_assoc(<Vec<TableSnapshotW> as Wire>::bytes(tables), <Vec<RegSnapshotW> as Wire>::bytes(registers) + (<Vec<CounterSnapshotW> as Wire>::bytes(counters)), rest);
                lemma_assoc(TinyProgramW::bytes(program), <Vec<TableSnapshotW> as Wire>::bytes(tables) + (<Vec<RegSnapshotW> as Wire>::bytes(registers) + (<Vec<CounterSnapshotW> as Wire>::bytes(counters))), rest);
                lemma_assoc(u32::bytes(switch), TinyProgramW::bytes(program) + (<Vec<TableSnapshotW> as Wire>::bytes(tables) + (<Vec<RegSnapshotW> as Wire>::bytes(registers) + (<Vec<CounterSnapshotW> as Wire>::bytes(counters)))), rest);
                lemma_assoc(u32::bytes(14), u32::bytes(switch) + (TinyProgramW::bytes(program) + (<Vec<TableSnapshotW> as Wire>::bytes(tables) + (<Vec<RegSnapshotW> as Wire>::bytes(registers) + (<Vec<CounterSnapshotW> as Wire>::bytes(counters))))), rest);
            },
            LogEventV::TableEntryInstalled { switch, table, entry } => {
                u32::reads_back(15, u32::bytes(switch) + (u32::bytes(table) + (TableEntryW::bytes(entry) + rest)));
                u32::reads_back(switch, u32::bytes(table) + (TableEntryW::bytes(entry) + rest));
                u32::reads_back(table, TableEntryW::bytes(entry) + rest);
                TableEntryW::reads_back(entry, rest);
                lemma_assoc(u32::bytes(table), TableEntryW::bytes(entry), rest);
                lemma_assoc(u32::bytes(switch), u32::bytes(table) + (TableEntryW::bytes(entry)), rest);
                lemma_assoc(u32::bytes(15), u32::bytes(switch) + (u32::bytes(table) + (TableEntryW::bytes(entry))), rest);
            },
            LogEventV::TableEntryDeleted { switch, table, entry_id } => {
                u32::reads_back(16, u32::bytes(switch) + (u32::bytes(table) + (u64::bytes(entry_id) + rest)));
                u32::reads_back(switch, u32::bytes(table) + (u64::bytes(entry_id) + rest));
                u32::reads_back(table, u64::bytes(entry_id) + rest);
                u64::reads_back(entry_id, rest);
                lemma_assoc(u32::bytes(table), u64::bytes(entry_id), rest);
                lemma_assoc(u32::bytes(switch), u32::bytes(table) + (u64::bytes(entry_id)), rest);
                lemma_assoc(u32::bytes(16), u32::bytes(switch) + (u32::bytes(table) + (u64::bytes(entry_id))), rest);
            },
            LogEventV::QueueConfigChanged { switch, port, capacity_bytes } => {
                u32::reads_back(17, u32::bytes(switch) + (u16::bytes(port) + (u64::bytes(capacity_bytes) + rest)));
                u32::reads_back(switch, u16::bytes(port) + (u64::bytes(capacity_bytes) + rest));
                u16::reads_back(port, u64::bytes(capacity_bytes) + rest);
                u64::reads_back(capacity_bytes, rest);
                lemma_assoc(u16::bytes(port), u64::bytes(capacity_bytes), rest);
                lemma_assoc(u32::bytes(switch), u16::bytes(port) + (u64::bytes(capacity_bytes)), rest);
                lemma_assoc(u32::bytes(17), u32::bytes(switch) + (u16::bytes(port) + (u64::bytes(capacity_bytes))), rest);
            },
        }
    }

    #[verifier::rlimit(60)]
    fn put(&self, out: &mut Vec<u8>) {
        match self {
            LogEvent::Header { magic, version } => {
                (0u32).put(out);
                magic.put(out);
                version.put(out);
                proof {
                    lemma_assoc(old(out)@ + u32::bytes(0), u32::bytes(*magic), u32::bytes(*version));
                    lemma_assoc(old(out)@, u32::bytes(0), u32::bytes(*magic) + (u32::bytes(*version)));
                }
            },
            LogEvent::AppAdded { id, ip, dst_ip } => {
                (1u32).put(out);
                id.put(out);
                ip.put(out);
                dst_ip.put(out);
                proof {
                    lemma_assoc((old(out)@ + u32::bytes(1)) + u32::bytes(*id), u32::bytes(*ip), u32::bytes(*dst_ip));
                    lemma_assoc(old(out)@ + u32::bytes(1), u32::bytes(*id), u32::bytes(*ip) + (u32::bytes(*dst_ip)));
                    lemma_assoc(old(out)@, u32::bytes(1), u32::bytes(*id) + (u32::bytes(*ip) + (u32::bytes(*dst_ip))));
                }
            },
            LogEvent::SwitchAdded { id, owner, num_ports, config } => {
                (2u32).put(out);
                id.put(out);
                owner.put(out);
                num_ports.put(out);
                config.put(out);
                proof {
                    lemma_assoc(((old(out)@ + u32::bytes(2)) + u32::bytes(*id)) + <Option<u32> as Wire>::bytes(*owner), u16::bytes(*num_ports), SwitchConfigW::bytes(*config));
                    lemma_assoc((old(out)@ + u32::bytes(2)) + u32::bytes(*id), <Option<u32> as Wire>::bytes(*owner), u16::bytes(*num_ports) + (SwitchConfigW::bytes(*config)));
                    lemma_assoc(old(out)@ + u32::bytes(2), u32::bytes(*id), <Option<u32> as Wire>::bytes(*owner) + (u16::bytes(*num_ports) + (SwitchConfigW::bytes(*config))));
                    lemma_assoc(old(out)@, u32::bytes(2), u32::bytes(*id) + (<Option<u32> as Wire>::bytes(*owner) + (u16::bytes(*num_ports) + (SwitchConfigW::bytes(*config)))));
                }
            },
            LogEvent::LinkAdded { id, a, a_port, b, b_port, config } => {
                (3u32).put(out);
                id.put(out);
                a.put(out);
                a_port.put(out);
                b.put(out);
                b_port.put(out);
                config.put(out);
                proof {
                    lemma_assoc(((((old(out)@ + u32::bytes(3)) + u32::bytes(*id)) + NodeRefW::bytes(*a)) + u16::bytes(*a_port)) + NodeRefW::bytes(*b), u16::bytes(*b_port), LinkConfigW::bytes(*config));
                    lemma_assoc((((old(out)@ + u32::bytes(3)) + u32::bytes(*id)) + NodeRefW::bytes(*a)) + u16::bytes(*a_port), NodeRefW::bytes(*b), u16::bytes(*b_port) + (LinkConfigW::bytes(*config)));
                    lemma_assoc(((old(out)@ + u32::bytes(3)) + u32::bytes(*id)) + NodeRefW::bytes(*a), u16::bytes(*a_port), NodeRefW::bytes(*b) + (u16::bytes(*b_port) + (LinkConfigW::bytes(*config))));
                    lemma_assoc((old(out)@ + u32::bytes(3)) + u32::bytes(*id), NodeRefW::bytes(*a), u16::bytes(*a_port) + (NodeRefW::bytes(*b) + (u16::bytes(*b_port) + (LinkConfigW::bytes(*config)))));
                    lemma_assoc(old(out)@ + u32::bytes(3), u32::bytes(*id), NodeRefW::bytes(*a) + (u16::bytes(*a_port) + (NodeRefW::bytes(*b) + (u16::bytes(*b_port) + (LinkConfigW::bytes(*config))))));
                    lemma_assoc(old(out)@, u32::bytes(3), u32::bytes(*id) + (NodeRefW::bytes(*a) + (u16::bytes(*a_port) + (NodeRefW::bytes(*b) + (u16::bytes(*b_port) + (LinkConfigW::bytes(*config)))))));
                }
            },
            LogEvent::BgpConfigured { ases } => {
                (4u32).put(out);
                ases.put(out);
                proof {
                    lemma_assoc(old(out)@, u32::bytes(4), <Vec<AsInfoW> as Wire>::bytes(ases.val()));
                }
            },
            LogEvent::LinkFailed { id } => {
                (5u32).put(out);
                id.put(out);
                proof {
                    lemma_assoc(old(out)@, u32::bytes(5), u32::bytes(*id));
                }
            },
            LogEvent::LinkRestored { id } => {
                (6u32).put(out);
                id.put(out);
                proof {
                    lemma_assoc(old(out)@, u32::bytes(6), u32::bytes(*id));
                }
            },
            LogEvent::SwitchFailed { id } => {
                (7u32).put(out);
                id.put(out);
                proof {
                    lemma_assoc(old(out)@, u32::bytes(7), u32::bytes(*id));
                }
            },
            LogEvent::CpuFailed { id } => {
                (8u32).put(out);
                id.put(out);
                proof {
                    lemma_assoc(old(out)@, u32::bytes(8), u32::bytes(*id));
                }
            },
            LogEvent::PacketIngress { switch, port, packet } => {
                (9u32).put(out);
                switch.put(out);
                port.put(out);
                packet.put(out);
                proof {
                    lemma_assoc((old(out)@ + u32::bytes(9)) + u32::bytes(*switch), u16::bytes(*port), PacketSnapshotW::bytes(*packet));
                    lemma_assoc(old(out)@ + u32::bytes(9), u32::bytes(*switch), u16::bytes(*port) + (PacketSnapshotW::bytes(*packet)));
                    lemma_assoc(old(out)@, u32::bytes(9), u32::bytes(*switch) + (u16::bytes(*port) + (PacketSnapshotW::bytes(*packet))));
                }
            },
            LogEvent::PacketEgress { switch, port, link, packet_id, size_bytes, arrive_at_ns } => {
                (10u32).put(out);
                switch.put(out);
                port.put(out);
                link.put(out);
                packet_id.put(out);
                size_bytes.put(out);
                arrive_at_ns.put(out);
                proof {
                    lemma_assoc(((((old(out)@ + u32::bytes(10)) + u32::bytes(*switch)) + u16::bytes(*port)) + u32::bytes(*link)) + u64::bytes(*packet_id), u64::bytes(*size_bytes), u64::bytes(*arrive_at_ns));
                    lemma_assoc((((old(out)@ + u32::bytes(10)) + u32::bytes(*switch)) + u16::bytes(*port)) + u32::bytes(*link), u64::bytes(*packet_id), u64::bytes(*size_bytes) + (u64::bytes(*arrive_at_ns)));
                    lemma_assoc(((old(out)@ + u32::bytes(10)) + u32::bytes(*switch)) + u16::bytes(*port), u32::bytes(*link), u64::bytes(*packet_id) + (u64::bytes(*size_bytes) + (u64::bytes(*arrive_at_ns))));
                    lemma_assoc((old(out)@ + u32::bytes(10)) + u32::bytes(*switch), u16::bytes(*port), u32::bytes(*link) + (u64::bytes(*packet_id) + (u64::bytes(*size_bytes) + (u64::bytes(*arrive_at_ns)))));
                    lemma_assoc(old(out)@ + u32::bytes(10), u32::bytes(*switch), u16::bytes(*port) + (u32::bytes(*link) + (u64::bytes(*packet_id) + (u64::bytes(*size_bytes) + (u64::bytes(*arrive_at_ns))))));
                    lemma_assoc(old(out)@, u32::bytes(10), u32::bytes(*switch) + (u16::bytes(*port) + (u32::bytes(*link) + (u64::bytes(*packet_id) + (u64::bytes(*size_bytes) + (u64::bytes(*arrive_at_ns)))))));
                }
            },
            LogEvent::PacketDropped { at, reason, packet_id } => {
                (11u32).put(out);
                at.put(out);
                reason.put(out);
                packet_id.put(out);
                proof {
                    lemma_assoc((old(out)@ + u32::bytes(11)) + NodeRefW::bytes(*at), DropReasonW::bytes(*reason), u64::bytes(*packet_id));
                    lemma_assoc(old(out)@ + u32::bytes(11), NodeRefW::bytes(*at), DropReasonW::bytes(*reason) + (u64::bytes(*packet_id)));
                    lemma_assoc(old(out)@, u32::bytes(11), NodeRefW::bytes(*at) + (DropReasonW::bytes(*reason) + (u64::bytes(*packet_id))));
                }
            },
            LogEvent::PacketDelivered { app, packet_id } => {
                (12u32).put(out);
                app.put(out);
                packet_id.put(out);
                proof {
                    lemma_assoc(old(out)@ + u32::bytes(12), u32::bytes(*app), u64::bytes(*packet_id));
                    lemma_assoc(old(out)@, u32::bytes(12), u32::bytes(*app) + (u64::bytes(*packet_id)));
                }
            },
            LogEvent::PacketPunted { switch, reason, packet_id } => {
                (13u32).put(out);
                switch.put(out);
                reason.put(out);
                packet_id.put(out);
                proof {
                    lemma_assoc((old(out)@ + u32::bytes(13)) + u32::bytes(*switch), u32::bytes(*reason), u64::bytes(*packet_id));
                    lemma_assoc(old(out)@ + u32::bytes(13), u32::bytes(*switch), u32::bytes(*reason) + (u64::bytes(*packet_id)));
                    lemma_assoc(old(out)@, u32::bytes(13), u32::bytes(*switch) + (u32::bytes(*reason) + (u64::bytes(*packet_id))));
                }
            },
            LogEvent::ProgramInstalled { switch, program, tables, registers, counters } => {
                (14u32).put(out);
                switch.put(out);
                program.put(out);
                tables.put(out);
                registers.put(out);
                counters.put(out);
                proof {
                    lemma_assoc((((old(out)@ + u32::bytes(14)) + u32::bytes(*switch)) + TinyProgramW::bytes(program.val())) + <Vec<TableSnapshotW> as Wire>::bytes(tables.val()), <Vec<RegSnapshotW> as Wire>::bytes(registers.val()), <Vec<CounterSnapshotW> as Wire>::bytes(counters.val()));
                    lemma_assoc(((old(out)@ + u32::bytes(14)) + u32::bytes(*switch)) + TinyProgramW::bytes(program.val()), <Vec<TableSnapshotW> as Wire>::bytes(tables.val()), <Vec<RegSnapshotW> as Wire>::bytes(registers.val()) + (<Vec<CounterSnapshotW> as Wire>::bytes(counters.val())));
                    lemma_assoc((old(out)@ + u32::bytes(14)) + u32::bytes(*switch), TinyProgramW::bytes(program.val()), <Vec<TableSnapshotW> as Wire>::bytes(tables.val()) + (<Vec<RegSnapshotW> as Wire>::bytes(registers.val()) + (<Vec<CounterSnapshotW> as Wire>::bytes(counters.val()))));
                    lemma_assoc(old(out)@ + u32::bytes(14), u32::bytes(*switch), TinyProgramW::bytes(program.val()) + (<Vec<TableSnapshotW> as Wire>::bytes(tables.val()) + (<Vec<RegSnapshotW> as Wire>::bytes(registers.val()) + (<Vec<CounterSnapshotW> as Wire>::bytes(counters.val())))));
                    lemma_assoc(old(out)@, u32::bytes(14), u32::bytes(*switch) + (TinyProgramW::bytes(program.val()) + (<Vec<TableSnapshotW> as Wire>::bytes(tables.val()) + (<Vec<RegSnapshotW> as Wire>::bytes(registers.val()) + (<Vec<CounterSnapshotW> as Wire>::bytes(counters.val()))))));
                }
            },
            LogEvent::TableEntryInstalled { switch, table, entry } => {
                (15u32).put(out);
                switch.put(out);
                table.put(out);
                entry.put(out);
                proof {
                    lemma_assoc((old(out)@ + u32::bytes(15)) + u32::bytes(*switch), u32::bytes(*table), TableEntryW::bytes(*entry));
                    lemma_assoc(old(out)@ + u32::bytes(15), u32::bytes(*switch), u32::bytes(*table) + (TableEntryW::bytes(*entry)));
                    lemma_assoc(old(out)@, u32::bytes(15), u32::bytes(*switch) + (u32::bytes(*table) + (TableEntryW::bytes(*entry))));
                }
            },
            LogEvent::TableEntryDeleted { switch, table, entry_id } => {
                (16u32).put(out);
                switch.put(out);
                table.put(out);
                entry_id.put(out);
                proof {
                    lemma_assoc((old(out)@ + u32::bytes(16)) + u32::bytes(*switch), u32::bytes(*table), u64::bytes(*entry_id));
                    lemma_assoc(old(out)@ + u32::bytes(16), u32::bytes(*switch), u32::bytes(*table) + (u64::bytes(*entry_id)));
                    lemma_assoc(old(out)@, u32::bytes(16), u32::bytes(*switch) + (u32::bytes(*table) + (u64::bytes(*entry_id))));
                }
            },
            LogEvent::QueueConfigChanged { switch, port, capacity_bytes } => {
                (17u32).put(out);
                switch.put(out);
                port.put(out);
                capacity_bytes.put(out);
                proof {
                    lemma_assoc((old(out)@ + u32::bytes(17)) + u32::bytes(*switch), u16::bytes(*port), u64::bytes(*capacity_bytes));
                    lemma_assoc(old(out)@ + u32::bytes(17), u32::bytes(*switch), u16::bytes(*port) + (u64::bytes(*capacity_bytes)));
                    lemma_assoc(old(out)@, u32::bytes(17), u32::bytes(*switch) + (u16::bytes(*port) + (u64::bytes(*capacity_bytes))));
                }
            },
        }
    }

    #[verifier::rlimit(60)]
    fn get<'a>(b: &'a [u8]) -> (r: Result<(LogEvent, &'a [u8]), DecodeError>) {
        let (tag, r0) = u32::get(b)?;
        if tag == 0 {
            let (magic, r1) = u32::get(r0)?;
            let (version, r2) = u32::get(r1)?;
            Ok((LogEvent::Header { magic, version }, r2))
        } else if tag == 1 {
            let (id, r1) = u32::get(r0)?;
            let (ip, r2) = u32::get(r1)?;
            let (dst_ip, r3) = u32::get(r2)?;
            Ok((LogEvent::AppAdded { id, ip, dst_ip }, r3))
        } else if tag == 2 {
            let (id, r1) = u32::get(r0)?;
            let (owner, r2) = <Option<u32> as Wire>::get(r1)?;
            let (num_ports, r3) = u16::get(r2)?;
            let (config, r4) = SwitchConfigW::get(r3)?;
            Ok((LogEvent::SwitchAdded { id, owner, num_ports, config }, r4))
        } else if tag == 3 {
            let (id, r1) = u32::get(r0)?;
            let (a, r2) = NodeRefW::get(r1)?;
            let (a_port, r3) = u16::get(r2)?;
            let (b, r4) = NodeRefW::get(r3)?;
            let (b_port, r5) = u16::get(r4)?;
            let (config, r6) = LinkConfigW::get(r5)?;
            Ok((LogEvent::LinkAdded { id, a, a_port, b, b_port, config }, r6))
        } else if tag == 4 {
            let (ases, r1) = <Vec<AsInfoW> as Wire>::get(r0)?;
            Ok((LogEvent::BgpConfigured { ases }, r1))
        } else if tag == 5 {
            let (id, r1) = u32::get(r0)?;
            Ok((LogEvent::LinkFailed { id }, r1))
        } else if tag == 6 {
            let (id, r1) = u32::get(r0)?;
            Ok((LogEvent::LinkRestored { id }, r1))
        } else if tag == 7 {
            let (id, r1) = u32::get(r0)?;
            Ok((LogEvent::SwitchFailed { id }, r1))
        } else if tag == 8 {
            let (id, r1) = u32::get(r0)?;
            Ok((LogEvent::CpuFailed { id }, r1))
        } else if tag == 9 {
            let (switch, r1) = u32::get(r0)?;
            let (port, r2) = u16::get(r1)?;
            let (packet, r3) = PacketSnapshotW::get(r2)?;
            Ok((LogEvent::PacketIngress { switch, port, packet }, r3))
        } else if tag == 10 {
            let (switch, r1) = u32::get(r0)?;
            let (port, r2) = u16::get(r1)?;
            let (link, r3) = u32::get(r2)?;
            let (packet_id, r4) = u64::get(r3)?;
            let (size_bytes, r5) = u64::get(r4)?;
            let (arrive_at_ns, r6) = u64::get(r5)?;
            Ok((LogEvent::PacketEgress { switch, port, link, packet_id, size_bytes, arrive_at_ns }, r6))
        } else if tag == 11 {
            let (at, r1) = NodeRefW::get(r0)?;
            let (reason, r2) = DropReasonW::get(r1)?;
            let (packet_id, r3) = u64::get(r2)?;
            Ok((LogEvent::PacketDropped { at, reason, packet_id }, r3))
        } else if tag == 12 {
            let (app, r1) = u32::get(r0)?;
            let (packet_id, r2) = u64::get(r1)?;
            Ok((LogEvent::PacketDelivered { app, packet_id }, r2))
        } else if tag == 13 {
            let (switch, r1) = u32::get(r0)?;
            let (reason, r2) = u32::get(r1)?;
            let (packet_id, r3) = u64::get(r2)?;
            Ok((LogEvent::PacketPunted { switch, reason, packet_id }, r3))
        } else if tag == 14 {
            let (switch, r1) = u32::get(r0)?;
            let (program, r2) = TinyProgramW::get(r1)?;
            let (tables, r3) = <Vec<TableSnapshotW> as Wire>::get(r2)?;
            let (registers, r4) = <Vec<RegSnapshotW> as Wire>::get(r3)?;
            let (counters, r5) = <Vec<CounterSnapshotW> as Wire>::get(r4)?;
            Ok((LogEvent::ProgramInstalled { switch, program, tables, registers, counters }, r5))
        } else if tag == 15 {
            let (switch, r1) = u32::get(r0)?;
            let (table, r2) = u32::get(r1)?;
            let (entry, r3) = TableEntryW::get(r2)?;
            Ok((LogEvent::TableEntryInstalled { switch, table, entry }, r3))
        } else if tag == 16 {
            let (switch, r1) = u32::get(r0)?;
            let (table, r2) = u32::get(r1)?;
            let (entry_id, r3) = u64::get(r2)?;
            Ok((LogEvent::TableEntryDeleted { switch, table, entry_id }, r3))
        } else if tag == 17 {
            let (switch, r1) = u32::get(r0)?;
            let (port, r2) = u16::get(r1)?;
            let (capacity_bytes, r3) = u64::get(r2)?;
            Ok((LogEvent::QueueConfigChanged { switch, port, capacity_bytes }, r3))
        } else {
            Err(DecodeError::UnknownTag)
        }
    }
}

#[derive(Debug)]
pub struct LogFrame {
    pub at_ns: u64,
    pub event: LogEvent,
}

/// What a `LogFrame` says.
#[verifier::ext_equal]
pub struct LogFrameV {
    pub at_ns: u64,
    pub event: LogEventV,
}

impl View for LogFrame {
    type V = LogFrameV;

    open spec fn view(&self) -> LogFrameV {
        self.val()
    }
}

impl Wire for LogFrame {
    type V = LogFrameV;

    open spec fn val(&self) -> LogFrameV {
        LogFrameV {
            at_ns: self.at_ns,
            event: self.event.val(),
        }
    }

    open spec fn bytes(v: LogFrameV) -> Seq<u8> {
        u64::bytes(v.at_ns) + (LogEvent::bytes(v.event))
    }

    open spec fn parse(b: Seq<u8>) -> Option<(LogFrameV, Seq<u8>)> {
        match u64::parse(b) {
            Some((at_ns, r1)) => match LogEvent::parse(r1) {
                Some((event, r2)) => Some((LogFrameV { at_ns, event }, r2)),
                None => None,
            },
            None => None,
        }
    }

    open spec fn fits(v: LogFrameV) -> bool {
        LogEvent::fits(v.event)
    }

    proof fn reads_back(v: LogFrameV, rest: Seq<u8>) {
        u64::reads_back(v.at_ns, LogEvent::bytes(v.event) + rest);
        LogEvent::reads_back(v.event, rest);
        lemma_assoc(u64::bytes(v.at_ns), LogEvent::bytes(v.event), rest);
    }

    fn put(&self, out: &mut Vec<u8>) {
        self.at_ns.put(out);
        self.event.put(out);
        proof {
            lemma_assoc(old(out)@, u64::bytes(self.at_ns), LogEvent::bytes(self.event.val()));
        }
    }

    fn get<'a>(b: &'a [u8]) -> (r: Result<(LogFrame, &'a [u8]), DecodeError>) {
        let (at_ns, r1) = u64::get(b)?;
        let (event, r2) = LogEvent::get(r1)?;
        Ok((LogFrame { at_ns, event }, r2))
    }
}

} // verus!
