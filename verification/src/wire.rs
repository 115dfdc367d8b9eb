//! Wire types shared between the simulator and switch programs.

use crate::codec::{lemma_assoc, DecodeError, Wire};
use vstd::prelude::*;

verus! {

#[derive(Debug, Clone, Copy, PartialEq, Eq, Hash, Structural)]
pub struct PortIdW(pub u16);

impl Wire for PortIdW {
    type V = PortIdW;

    open spec fn val(&self) -> PortIdW {
        *self
    }

    open spec fn bytes(v: PortIdW) -> Seq<u8> {
        u16::bytes(v.0)
    }

    open spec fn parse(b: Seq<u8>) -> Option<(PortIdW, Seq<u8>)> {
        match u16::parse(b) {
            Some((x, r1)) => Some((PortIdW(x), r1)),
            None => None,
        }
    }

    open spec fn fits(v: PortIdW) -> bool {
        true
    }

    proof fn reads_back(v: PortIdW, rest: Seq<u8>) {
        u16::reads_back(v.0, rest);
    }

    fn put(&self, out: &mut Vec<u8>) {
        self.0.put(out);
    }

    fn get<'a>(b: &'a [u8]) -> (r: Result<(PortIdW, &'a [u8]), DecodeError>) {
        let (x, r1) = u16::get(b)?;
        Ok((PortIdW(x), r1))
    }
}

#[derive(Debug, Clone, Copy, PartialEq, Eq, Hash, Structural)]
pub struct QueueIdW(pub u16);

impl Wire for QueueIdW {
    type V = QueueIdW;

    open spec fn val(&self) -> QueueIdW {
        *self
    }

    open spec fn bytes(v: QueueIdW) -> Seq<u8> {
        u16::bytes(v.0)
    }

    open spec fn parse(b: Seq<u8>) -> Option<(QueueIdW, Seq<u8>)> {
        match u16::parse(b) {
            Some((x, r1)) => Some((QueueIdW(x), r1)),
            None => None,
        }
    }

    open spec fn fits(v: QueueIdW) -> bool {
        true
    }

    proof fn reads_back(v: QueueIdW, rest: Seq<u8>) {
        u16::reads_back(v.0, rest);
    }

    fn put(&self, out: &mut Vec<u8>) {
        self.0.put(out);
    }

    fn get<'a>(b: &'a [u8]) -> (r: Result<(QueueIdW, &'a [u8]), DecodeError>) {
        let (x, r1) = u16::get(b)?;
        Ok((QueueIdW(x), r1))
    }
}

#[derive(Debug, Clone, Copy, PartialEq, Eq, Hash, Structural)]
pub struct TableIdW(pub u32);

impl Wire for TableIdW {
    type V = TableIdW;

    open spec fn val(&self) -> TableIdW {
        *self
    }

    open spec fn bytes(v: TableIdW) -> Seq<u8> {
        u32::bytes(v.0)
    }

    open spec fn parse(b: Seq<u8>) -> Option<(TableIdW, Seq<u8>)> {
        match u32::parse(b) {
            Some((x, r1)) => Some((TableIdW(x), r1)),
            None => None,
        }
    }

    open spec fn fits(v: TableIdW) -> bool {
        true
    }

    proof fn reads_back(v: TableIdW, rest: Seq<u8>) {
        u32::reads_back(v.0, rest);
    }

    fn put(&self, out: &mut Vec<u8>) {
        self.0.put(out);
    }

    fn get<'a>(b: &'a [u8]) -> (r: Result<(TableIdW, &'a [u8]), DecodeError>) {
        let (x, r1) = u32::get(b)?;
        Ok((TableIdW(x), r1))
    }
}

#[derive(Debug, Clone, Copy, PartialEq, Eq, Hash, Structural)]
pub struct RegisterArrayIdW(pub u32);

impl Wire for RegisterArrayIdW {
    type V = RegisterArrayIdW;

    open spec fn val(&self) -> RegisterArrayIdW {
        *self
    }

    open spec fn bytes(v: RegisterArrayIdW) -> Seq<u8> {
        u32::bytes(v.0)
    }

    open spec fn parse(b: Seq<u8>) -> Option<(RegisterArrayIdW, Seq<u8>)> {
        match u32::parse(b) {
            Some((x, r1)) => Some((RegisterArrayIdW(x), r1)),
            None => None,
        }
    }

    open spec fn fits(v: RegisterArrayIdW) -> bool {
        true
    }

    proof fn reads_back(v: RegisterArrayIdW, rest: Seq<u8>) {
        u32::reads_back(v.0, rest);
    }

    fn put(&self, out: &mut Vec<u8>) {
        self.0.put(out);
    }

    fn get<'a>(b: &'a [u8]) -> (r: Result<(RegisterArrayIdW, &'a [u8]), DecodeError>) {
        let (x, r1) = u32::get(b)?;
        Ok((RegisterArrayIdW(x), r1))
    }
}

#[derive(Debug, Clone, Copy, PartialEq, Eq, Hash, Structural)]
pub struct CounterArrayIdW(pub u32);

impl Wire for CounterArrayIdW {
    type V = CounterArrayIdW;

    open spec fn val(&self) -> CounterArrayIdW {
        *self
    }

    open spec fn bytes(v: CounterArrayIdW) -> Seq<u8> {
        u32::bytes(v.0)
    }

    open spec fn parse(b: Seq<u8>) -> Option<(CounterArrayIdW, Seq<u8>)> {
        match u32::parse(b) {
            Some((x, r1)) => Some((CounterArrayIdW(x), r1)),
            None => None,
        }
    }

    open spec fn fits(v: CounterArrayIdW) -> bool {
        true
    }

    proof fn reads_back(v: CounterArrayIdW, rest: Seq<u8>) {
        u32::reads_back(v.0, rest);
    }

    fn put(&self, out: &mut Vec<u8>) {
        self.0.put(out);
    }

    fn get<'a>(b: &'a [u8]) -> (r: Result<(CounterArrayIdW, &'a [u8]), DecodeError>) {
        let (x, r1) = u32::get(b)?;
        Ok((CounterArrayIdW(x), r1))
    }
}

#[derive(Debug, Clone, Copy, PartialEq, Eq, Hash, Structural)]
pub struct EntryIdW(pub u64);

impl Wire for EntryIdW {
    type V = EntryIdW;

    open spec fn val(&self) -> EntryIdW {
        *self
    }

    open spec fn bytes(v: EntryIdW) -> Seq<u8> {
        u64::bytes(v.0)
    }

    open spec fn parse(b: Seq<u8>) -> Option<(EntryIdW, Seq<u8>)> {
        match u64::parse(b) {
            Some((x, r1)) => Some((EntryIdW(x), r1)),
            None => None,
        }
    }

    open spec fn fits(v: EntryIdW) -> bool {
        true
    }

    proof fn reads_back(v: EntryIdW, rest: Seq<u8>) {
        u64::reads_back(v.0, rest);
    }

    fn put(&self, out: &mut Vec<u8>) {
        self.0.put(out);
    }

    fn get<'a>(b: &'a [u8]) -> (r: Result<(EntryIdW, &'a [u8]), DecodeError>) {
        let (x, r1) = u64::get(b)?;
        Ok((EntryIdW(x), r1))
    }
}

#[derive(Debug, Clone, Copy, PartialEq, Eq, Hash, Structural)]
pub struct MetaKeyW(pub u32);

impl Wire for MetaKeyW {
    type V = MetaKeyW;

    open spec fn val(&self) -> MetaKeyW {
        *self
    }

    open spec fn bytes(v: MetaKeyW) -> Seq<u8> {
        u32::bytes(v.0)
    }

    open spec fn parse(b: Seq<u8>) -> Option<(MetaKeyW, Seq<u8>)> {
        match u32::parse(b) {
            Some((x, r1)) => Some((MetaKeyW(x), r1)),
            None => None,
        }
    }

    open spec fn fits(v: MetaKeyW) -> bool {
        true
    }

    proof fn reads_back(v: MetaKeyW, rest: Seq<u8>) {
        u32::reads_back(v.0, rest);
    }

    fn put(&self, out: &mut Vec<u8>) {
        self.0.put(out);
    }

    fn get<'a>(b: &'a [u8]) -> (r: Result<(MetaKeyW, &'a [u8]), DecodeError>) {
        let (x, r1) = u32::get(b)?;
        Ok((MetaKeyW(x), r1))
    }
}

#[derive(Debug, Clone, Copy, PartialEq, Eq, Hash, Structural)]
pub struct RegW(pub u8);

impl Wire for RegW {
    type V = RegW;

    open spec fn val(&self) -> RegW {
        *self
    }

    open spec fn bytes(v: RegW) -> Seq<u8> {
        u8::bytes(v.0)
    }

    open spec fn parse(b: Seq<u8>) -> Option<(RegW, Seq<u8>)> {
        match u8::parse(b) {
            Some((x, r1)) => Some((RegW(x), r1)),
            None => None,
        }
    }

    open spec fn fits(v: RegW) -> bool {
        true
    }

    proof fn reads_back(v: RegW, rest: Seq<u8>) {
        u8::reads_back(v.0, rest);
    }

    fn put(&self, out: &mut Vec<u8>) {
        self.0.put(out);
    }

    fn get<'a>(b: &'a [u8]) -> (r: Result<(RegW, &'a [u8]), DecodeError>) {
        let (x, r1) = u8::get(b)?;
        Ok((RegW(x), r1))
    }
}

#[derive(Debug, Clone, Copy, PartialEq, Eq, Hash, Structural)]
pub enum PacketFieldW {
    IpSrc,
    IpDst,
    IpProto,
    IpTtl,
    IpDscp,
    SrcPort,
    DstPort,
    AppId,
    FlowId,
    Custom(u8),
    Size,
    Kind,
    LabelTop,
    LabelDepth,
}

impl Wire for PacketFieldW {
    type V = PacketFieldW;

    open spec fn val(&self) -> PacketFieldW {
        *self
    }

    open spec fn bytes(v: PacketFieldW) -> Seq<u8> {
        match v {
            PacketFieldW::IpSrc => u32::bytes(0),
            PacketFieldW::IpDst => u32::bytes(1),
            PacketFieldW::IpProto => u32::bytes(2),
            PacketFieldW::IpTtl => u32::bytes(3),
            PacketFieldW::IpDscp => u32::bytes(4),
            PacketFieldW::SrcPort => u32::bytes(5),
            PacketFieldW::DstPort => u32::bytes(6),
            PacketFieldW::AppId => u32::bytes(7),
            PacketFieldW::FlowId => u32::bytes(8),
            PacketFieldW::Custom(x0) => u32::bytes(9) + (u8::bytes(x0)),
            PacketFieldW::Size => u32::bytes(10),
            PacketFieldW::Kind => u32::bytes(11),
            PacketFieldW::LabelTop => u32::bytes(12),
            PacketFieldW::LabelDepth => u32::bytes(13),
        }
    }

    open spec fn parse(b: Seq<u8>) -> Option<(PacketFieldW, Seq<u8>)> {
        match u32::parse(b) {
            Some((tag, r0)) => if tag == 0 {
                Some((PacketFieldW::IpSrc, r0))
            } else if tag == 1 {
                Some((PacketFieldW::IpDst, r0))
            } else if tag == 2 {
                Some((PacketFieldW::IpProto, r0))
            } else if tag == 3 {
                Some((PacketFieldW::IpTtl, r0))
            } else if tag == 4 {
                Some((PacketFieldW::IpDscp, r0))
            } else if tag == 5 {
                Some((PacketFieldW::SrcPort, r0))
            } else if tag == 6 {
                Some((PacketFieldW::DstPort, r0))
            } else if tag == 7 {
                Some((PacketFieldW::AppId, r0))
            } else if tag == 8 {
                Some((PacketFieldW::FlowId, r0))
            } else if tag == 9 {
                match u8::parse(r0) {
                    Some((x0, r1)) => Some((PacketFieldW::Custom(x0), r1)),
                    None => None,
                }
            } else if tag == 10 {
                Some((PacketFieldW::Size, r0))
            } else if tag == 11 {
                Some((PacketFieldW::Kind, r0))
            } else if tag == 12 {
                Some((PacketFieldW::LabelTop, r0))
            } else if tag == 13 {
                Some((PacketFieldW::LabelDepth, r0))
            } else {
                None
            },
            None => None,
        }
    }

    open spec fn fits(v: PacketFieldW) -> bool {
        true
    }

    #[verifier::rlimit(60)]
    proof fn reads_back(v: PacketFieldW, rest: Seq<u8>) {
        match v {
            PacketFieldW::IpSrc => {
                u32::reads_back(0, rest);
            },
            PacketFieldW::IpDst => {
                u32::reads_back(1, rest);
            },
            PacketFieldW::IpProto => {
                u32::reads_back(2, rest);
            },
            PacketFieldW::IpTtl => {
                u32::reads_back(3, rest);
            },
            PacketFieldW::IpDscp => {
                u32::reads_back(4, rest);
            },
            PacketFieldW::SrcPort => {
                u32::reads_back(5, rest);
            },
            PacketFieldW::DstPort => {
                u32::reads_back(6, rest);
            },
            PacketFieldW::AppId => {
                u32::reads_back(7, rest);
            },
            PacketFieldW::FlowId => {
                u32::reads_back(8, rest);
            },
            PacketFieldW::Custom(x0) => {
                u32::reads_back(9, u8::bytes(x0) + rest);
                u8::reads_back(x0, rest);
                lemma_assoc(u32::bytes(9), u8::bytes(x0), rest);
            },
            PacketFieldW::Size => {
                u32::reads_back(10, rest);
            },
            PacketFieldW::Kind => {
                u32::reads_back(11, rest);
            },
            PacketFieldW::LabelTop => {
                u32::reads_back(12, rest);
            },
            PacketFieldW::LabelDepth => {
                u32::reads_back(13, rest);
            },
        }
    }

    #[verifier::rlimit(60)]
    fn put(&self, out: &mut Vec<u8>) {
        match self {
            PacketFieldW::IpSrc => {
                (0u32).put(out);
            },
            PacketFieldW::IpDst => {
                (1u32).put(out);
            },
            PacketFieldW::IpProto => {
                (2u32).put(out);
            },
            PacketFieldW::IpTtl => {
                (3u32).put(out);
            },
            PacketFieldW::IpDscp => {
                (4u32).put(out);
            },
            PacketFieldW::SrcPort => {
                (5u32).put(out);
            },
            PacketFieldW::DstPort => {
                (6u32).put(out);
            },
            PacketFieldW::AppId => {
                (7u32).put(out);
            },
            PacketFieldW::FlowId => {
                (8u32).put(out);
            },
            PacketFieldW::Custom(x0) => {
                (9u32).put(out);
                x0.put(out);
                proof {
                    lemma_assoc(old(out)@, u32::bytes(9), u8::bytes(*x0));
                }
            },
            PacketFieldW::Size => {
                (10u32).put(out);
            },
            PacketFieldW::Kind => {
                (11u32).put(out);
            },
            PacketFieldW::LabelTop => {
                (12u32).put(out);
            },
            PacketFieldW::LabelDepth => {
                (13u32).put(out);
            },
        }
    }

    #[verifier::rlimit(60)]
    fn get<'a>(b: &'a [u8]) -> (r: Result<(PacketFieldW, &'a [u8]), DecodeError>) {
        let (tag, r0) = u32::get(b)?;
        if tag == 0 {
            Ok((PacketFieldW::IpSrc, r0))
        } else if tag == 1 {
            Ok((PacketFieldW::IpDst, r0))
        } else if tag == 2 {
            Ok((PacketFieldW::IpProto, r0))
        } else if tag == 3 {
            Ok((PacketFieldW::IpTtl, r0))
        } else if tag == 4 {
            Ok((PacketFieldW::IpDscp, r0))
        } else if tag == 5 {
            Ok((PacketFieldW::SrcPort, r0))
        } else if tag == 6 {
            Ok((PacketFieldW::DstPort, r0))
        } else if tag == 7 {
            Ok((PacketFieldW::AppId, r0))
        } else if tag == 8 {
            Ok((PacketFieldW::FlowId, r0))
        } else if tag == 9 {
            let (x0, r1) = u8::get(r0)?;
            Ok((PacketFieldW::Custom(x0), r1))
        } else if tag == 10 {
            Ok((PacketFieldW::Size, r0))
        } else if tag == 11 {
            Ok((PacketFieldW::Kind, r0))
        } else if tag == 12 {
            Ok((PacketFieldW::LabelTop, r0))
        } else if tag == 13 {
            Ok((PacketFieldW::LabelDepth, r0))
        } else {
            Err(DecodeError::UnknownTag)
        }
    }
}

#[derive(Debug, Clone, Copy, PartialEq, Eq, Hash, Structural)]
pub enum PuntReasonW {
    NoRoute,
    TtlExpired,
    Custom(u32),
}

impl Wire for PuntReasonW {
    type V = PuntReasonW;

    open spec fn val(&self) -> PuntReasonW {
        *self
    }

    open spec fn bytes(v: PuntReasonW) -> Seq<u8> {
        match v {
            PuntReasonW::NoRoute => u32::bytes(0),
            PuntReasonW::TtlExpired => u32::bytes(1),
            PuntReasonW::Custom(x0) => u32::bytes(2) + (u32::bytes(x0)),
        }
    }

    open spec fn parse(b: Seq<u8>) -> Option<(PuntReasonW, Seq<u8>)> {
        match u32::parse(b) {
            Some((tag, r0)) => if tag == 0 {
                Some((PuntReasonW::NoRoute, r0))
            } else if tag == 1 {
                Some((PuntReasonW::TtlExpired, r0))
            } else if tag == 2 {
                match u32::parse(r0) {
                    Some((x0, r1)) => Some((PuntReasonW::Custom(x0), r1)),
                    None => None,
                }
            } else {
                None
            },
            None => None,
        }
    }

    open spec fn fits(v: PuntReasonW) -> bool {
        true
    }

    proof fn reads_back(v: PuntReasonW, rest: Seq<u8>) {
        match v {
            PuntReasonW::NoRoute => {
                u32::reads_back(0, rest);
            },
            PuntReasonW::TtlExpired => {
                u32::reads_back(1, rest);
            },
            PuntReasonW::Custom(x0) => {
                u32::reads_back(2, u32::bytes(x0) + rest);
                u32::reads_back(x0, rest);
                lemma_assoc(u32::bytes(2), u32::bytes(x0), rest);
            },
        }
    }

    fn put(&self, out: &mut Vec<u8>) {
        match self {
            PuntReasonW::NoRoute => {
                (0u32).put(out);
            },
            PuntReasonW::TtlExpired => {
                (1u32).put(out);
            },
            PuntReasonW::Custom(x0) => {
                (2u32).put(out);
                x0.put(out);
                proof {
                    lemma_assoc(old(out)@, u32::bytes(2), u32::bytes(*x0));
                }
            },
        }
    }

    fn get<'a>(b: &'a [u8]) -> (r: Result<(PuntReasonW, &'a [u8]), DecodeError>) {
        let (tag, r0) = u32::get(b)?;
        if tag == 0 {
            Ok((PuntReasonW::NoRoute, r0))
        } else if tag == 1 {
            Ok((PuntReasonW::TtlExpired, r0))
        } else if tag == 2 {
            let (x0, r1) = u32::get(r0)?;
            Ok((PuntReasonW::Custom(x0), r1))
        } else {
            Err(DecodeError::UnknownTag)
        }
    }
}

#[derive(Debug, Clone, Copy, PartialEq, Eq, Hash, Structural)]
pub enum MatchKindW {
    Exact,
    Lpm,
}

impl Wire for MatchKindW {
    type V = MatchKindW;

    open spec fn val(&self) -> MatchKindW {
        *self
    }

    open spec fn bytes(v: MatchKindW) -> Seq<u8> {
        match v {
            MatchKindW::Exact => u32::bytes(0),
            MatchKindW::Lpm => u32::bytes(1),
        }
    }

    open spec fn parse(b: Seq<u8>) -> Option<(MatchKindW, Seq<u8>)> {
        match u32::parse(b) {
            Some((tag, r0)) => if tag == 0 {
                Some((MatchKindW::Exact, r0))
            } else if tag == 1 {
                Some((MatchKindW::Lpm, r0))
            } else {
                None
            },
            None => None,
        }
    }

    open spec fn fits(v: MatchKindW) -> bool {
        true
    }

    proof fn reads_back(v: MatchKindW, rest: Seq<u8>) {
        match v {
            MatchKindW::Exact => {
                u32::reads_back(0, rest);
            },
            MatchKindW::Lpm => {
                u32::reads_back(1, rest);
            },
        }
    }

    fn put(&self, out: &mut Vec<u8>) {
        match self {
            MatchKindW::Exact => {
                (0u32).put(out);
            },
            MatchKindW::Lpm => {
                (1u32).put(out);
            },
        }
    }

    fn get<'a>(b: &'a [u8]) -> (r: Result<(MatchKindW, &'a [u8]), DecodeError>) {
        let (tag, r0) = u32::get(b)?;
        if tag == 0 {
            Ok((MatchKindW::Exact, r0))
        } else if tag == 1 {
            Ok((MatchKindW::Lpm, r0))
        } else {
            Err(DecodeError::UnknownTag)
        }
    }
}

#[allow(inconsistent_fields)]
#[derive(Debug, Clone, Copy, PartialEq, Eq, Hash, Structural)]
pub enum InstrW {
    LoadField { dst: RegW, field: PacketFieldW },
    StoreField { field: PacketFieldW, src: RegW },
    LoadMeta { dst: RegW, key: MetaKeyW },
    StoreMeta { key: MetaKeyW, src: RegW },
    Const { dst: RegW, value: u64 },
    Add { dst: RegW, a: RegW, b: RegW },
    Sub { dst: RegW, a: RegW, b: RegW },
    And { dst: RegW, a: RegW, b: RegW },
    Or { dst: RegW, a: RegW, b: RegW },
    Xor { dst: RegW, a: RegW, b: RegW },
    Eq { dst: RegW, a: RegW, b: RegW },
    Lt { dst: RegW, a: RegW, b: RegW },
    TableLookup { table_id: TableIdW, key_reg: RegW, result_meta: MetaKeyW },
    RegisterRead { array: RegisterArrayIdW, index: RegW, dst: RegW },
    RegisterWrite { array: RegisterArrayIdW, index: RegW, src: RegW },
    CounterAdd { counter: CounterArrayIdW, index: RegW, value: RegW },
    BranchIf { cond: RegW, target: u32 },
    Drop,
    Punt { reason: PuntReasonW },
    SetEgress { port: PortIdW },
    SetQueue { queue: QueueIdW },
    Recirculate,
    Noop,
    PushLabel { label: u32 },
    PopLabel,
    SwapLabel { label: u32 },
    /// Mark the packet so that wherever it ends, a trace reply is delivered to
    /// *this* switch on the egress port the data plane chose.
    MarkTrace,
}

impl Wire for InstrW {
    type V = InstrW;

    open spec fn val(&self) -> InstrW {
        *self
    }

    open spec fn bytes(v: InstrW) -> Seq<u8> {
        match v {
            InstrW::LoadField { dst, field } => u32::bytes(0) + (RegW::bytes(dst) + (PacketFieldW::bytes(field))),
            InstrW::StoreField { field, src } => u32::bytes(1) + (PacketFieldW::bytes(field) + (RegW::bytes(src))),
            InstrW::LoadMeta { dst, key } => u32::bytes(2) + (RegW::bytes(dst) + (MetaKeyW::bytes(key))),
            InstrW::StoreMeta { key, src } => u32::bytes(3) + (MetaKeyW::bytes(key) + (RegW::bytes(src))),
            InstrW::Const { dst, value } => u32::bytes(4) + (RegW::bytes(dst) + (u64::bytes(value))),
            InstrW::Add { dst, a, b } => u32::bytes(5) + (RegW::bytes(dst) + (RegW::bytes(a) + (RegW::bytes(b)))),
            InstrW::Sub { dst, a, b } => u32::bytes(6) + (RegW::bytes(dst) + (RegW::bytes(a) + (RegW::bytes(b)))),
            InstrW::And { dst, a, b } => u32::bytes(7) + (RegW::bytes(dst) + (RegW::bytes(a) + (RegW::bytes(b)))),
            InstrW::Or { dst, a, b } => u32::bytes(8) + (RegW::bytes(dst) + (RegW::bytes(a) + (RegW::bytes(b)))),
            InstrW::Xor { dst, a, b } => u32::bytes(9) + (RegW::bytes(dst) + (RegW::bytes(a) + (RegW::bytes(b)))),
            InstrW::Eq { dst, a, b } => u32::bytes(10) + (RegW::bytes(dst) + (RegW::bytes(a) + (RegW::bytes(b)))),
            InstrW::Lt { dst, a, b } => u32::bytes(11) + (RegW::bytes(dst) + (RegW::bytes(a) + (RegW::bytes(b)))),
            InstrW::TableLookup { table_id, key_reg, result_meta } => u32::bytes(12) + (TableIdW::bytes(table_id) + (RegW::bytes(key_reg) + (MetaKeyW::bytes(result_meta)))),
            InstrW::RegisterRead { array, index, dst } => u32::bytes(13) + (RegisterArrayIdW::bytes(array) + (RegW::bytes(index) + (RegW::bytes(dst)))),
            InstrW::RegisterWrite { array, index, src } => u32::bytes(14) + (RegisterArrayIdW::bytes(array) + (RegW::bytes(index) + (RegW::bytes(src)))),
            InstrW::CounterAdd { counter, index, value } => u32::bytes(15) + (CounterArrayIdW::bytes(counter) + (RegW::bytes(index) + (RegW::bytes(value)))),
            InstrW::BranchIf { cond, target } => u32::bytes(16) + (RegW::bytes(cond) + (u32::bytes(target))),
            InstrW::Drop => u32::bytes(17),
            InstrW::Punt { reason } => u32::bytes(18) + (PuntReasonW::bytes(reason)),
            InstrW::SetEgress { port } => u32::bytes(19) + (PortIdW::bytes(port)),
            InstrW::SetQueue { queue } => u32::bytes(20) + (QueueIdW::bytes(queue)),
            InstrW::Recirculate => u32::bytes(21),
            InstrW::Noop => u32::bytes(22),
            InstrW::PushLabel { label } => u32::bytes(23) + (u32::bytes(label)),
            InstrW::PopLabel => u32::bytes(24),
            InstrW::SwapLabel { label } => u32::bytes(25) + (u32::bytes(label)),
            InstrW::MarkTrace => u32::bytes(26),
        }
    }

    open spec fn parse(b: Seq<u8>) -> Option<(InstrW, Seq<u8>)> {
        match u32::parse(b) {
            Some((tag, r0)) => if tag == 0 {
                match RegW::parse(r0) {
                    Some((dst, r1)) => match PacketFieldW::parse(r1) {
                        Some((field, r2)) => Some((InstrW::LoadField { dst, field }, r2)),
                        None => None,
                    },
                    None => None,
                }
            } else if tag == 1 {
                match PacketFieldW::parse(r0) {
                    Some((field, r1)) => match RegW::parse(r1) {
                        Some((src, r2)) => Some((InstrW::StoreField { field, src }, r2)),
                        None => None,
                    },
                    None => None,
                }
            } else if tag == 2 {
                match RegW::parse(r0) {
                    Some((dst, r1)) => match MetaKeyW::parse(r1) {
                        Some((key, r2)) => Some((InstrW::LoadMeta { dst, key }, r2)),
                        None => None,
                    },
                    None => None,
                }
            } else if tag == 3 {
                match MetaKeyW::parse(r0) {
                    Some((key, r1)) => match RegW::parse(r1) {
                        Some((src, r2)) => Some((InstrW::StoreMeta { key, src }, r2)),
                        None => None,
                    },
                    None => None,
                }
            } else if tag == 4 {
                match RegW::parse(r0) {
                    Some((dst, r1)) => match u64::parse(r1) {
                        Some((value, r2)) => Some((InstrW::Const { dst, value }, r2)),
                        None => None,
                    },
                    None => None,
                }
            } else if tag == 5 {
                match RegW::parse(r0) {
                    Some((dst, r1)) => match RegW::parse(r1) {
                        Some((a, r2)) => match RegW::parse(r2) {
                            Some((b, r3)) => Some((InstrW::Add { dst, a, b }, r3)),
                            None => None,
                        },
                        None => None,
                    },
                    None => None,
                }
            } else if tag == 6 {
                match RegW::parse(r0) {
                    Some((dst, r1)) => match RegW::parse(r1) {
                        Some((a, r2)) => match RegW::parse(r2) {
                            Some((b, r3)) => Some((InstrW::Sub { dst, a, b }, r3)),
                            None => None,
                        },
                        None => None,
                    },
                    None => None,
                }
            } else if tag == 7 {
                match RegW::parse(r0) {
                    Some((dst, r1)) => match RegW::parse(r1) {
                        Some((a, r2)) => match RegW::parse(r2) {
                            Some((b, r3)) => Some((InstrW::And { dst, a, b }, r3)),
                            None => None,
                        },
                        None => None,
                    },
                    None => None,
                }
            } else if tag == 8 {
                match RegW::parse(r0) {
                    Some((dst, r1)) => match RegW::parse(r1) {
                        Some((a, r2)) => match RegW::parse(r2) {
                            Some((b, r3)) => Some((InstrW::Or { dst, a, b }, r3)),
                            None => None,
                        },
                        None => None,
                    },
                    None => None,
                }
            } else if tag == 9 {
                match RegW::parse(r0) {
                    Some((dst, r1)) => match RegW::parse(r1) {
                        Some((a, r2)) => match RegW::parse(r2) {
                            Some((b, r3)) => Some((InstrW::Xor { dst, a, b }, r3)),
                            None => None,
                        },
                        None => None,
                    },
                    None => None,
                }
            } else if tag == 10 {
                match RegW::parse(r0) {
                    Some((dst, r1)) => match RegW::parse(r1) {
                        Some((a, r2)) => match RegW::parse(r2) {
                            Some((b, r3)) => Some((InstrW::Eq { dst, a, b }, r3)),
                            None => None,
                        },
                        None => None,
                    },
                    None => None,
                }
            } else if tag == 11 {
                match RegW::parse(r0) {
                    Some((dst, r1)) => match RegW::parse(r1) {
                        Some((a, r2)) => match RegW::parse(r2) {
                            Some((b, r3)) => Some((InstrW::Lt { dst, a, b }, r3)),
                            None => None,
                        },
                        None => None,
                    },
                    None => None,
                }
            } else if tag == 12 {
                match TableIdW::parse(r0) {
                    Some((table_id, r1)) => match RegW::parse(r1) {
                        Some((key_reg, r2)) => match MetaKeyW::parse(r2) {
                            Some((result_meta, r3)) => Some((InstrW::TableLookup { table_id, key_reg, result_meta }, r3)),
                            None => None,
                        },
                        None => None,
                    },
                    None => None,
                }
            } else if tag == 13 {
                match RegisterArrayIdW::parse(r0) {
                    Some((array, r1)) => match RegW::parse(r1) {
                        Some((index, r2)) => match RegW::parse(r2) {
                            Some((dst, r3)) => Some((InstrW::RegisterRead { array, index, dst }, r3)),
                            None => None,
                        },
                        None => None,
                    },
                    None => None,
                }
            } else if tag == 14 {
                match RegisterArrayIdW::parse(r0) {
                    Some((array, r1)) => match RegW::parse(r1) {
                        Some((index, r2)) => match RegW::parse(r2) {
                            Some((src, r3)) => Some((InstrW::RegisterWrite { array, index, src }, r3)),
                            None => None,
                        },
                        None => None,
                    },
                    None => None,
                }
            } else if tag == 15 {
                match CounterArrayIdW::parse(r0) {
                    Some((counter, r1)) => match RegW::parse(r1) {
                        Some((index, r2)) => match RegW::parse(r2) {
                            Some((value, r3)) => Some((InstrW::CounterAdd { counter, index, value }, r3)),
                            None => None,
                        },
                        None => None,
                    },
                    None => None,
                }
            } else if tag == 16 {
                match RegW::parse(r0) {
                    Some((cond, r1)) => match u32::parse(r1) {
                        Some((target, r2)) => Some((InstrW::BranchIf { cond, target }, r2)),
                        None => None,
                    },
                    None => None,
                }
            } else if tag == 17 {
                Some((InstrW::Drop, r0))
            } else if tag == 18 {
                match PuntReasonW::parse(r0) {
                    Some((reason, r1)) => Some((InstrW::Punt { reason }, r1)),
                    None => None,
                }
            } else if tag == 19 {
                match PortIdW::parse(r0) {
                    Some((port, r1)) => Some((InstrW::SetEgress { port }, r1)),
                    None => None,
                }
            } else if tag == 20 {
                match QueueIdW::parse(r0) {
                    Some((queue, r1)) => Some((InstrW::SetQueue { queue }, r1)),
                    None => None,
                }
            } else if tag == 21 {
                Some((InstrW::Recirculate, r0))
            } else if tag == 22 {
                Some((InstrW::Noop, r0))
            } else if tag == 23 {
                match u32::parse(r0) {
                    Some((label, r1)) => Some((InstrW::PushLabel { label }, r1)),
                    None => None,
                }
            } else if tag == 24 {
                Some((InstrW::PopLabel, r0))
            } else if tag == 25 {
                match u32::parse(r0) {
                    Some((label, r1)) => Some((InstrW::SwapLabel { label }, r1)),
                    None => None,
                }
            } else if tag == 26 {
                Some((InstrW::MarkTrace, r0))
            } else {
                None
            },
            None => None,
        }
    }

    open spec fn fits(v: InstrW) -> bool {
        true
    }

    #[verifier::rlimit(60)]
    proof fn reads_back(v: InstrW, rest: Seq<u8>) {
        match v {
            InstrW::LoadField { dst, field } => {
                u32::reads_back(0, RegW::bytes(dst) + (PacketFieldW::bytes(field) + rest));
                RegW::reads_back(dst, PacketFieldW::bytes(field) + rest);
                PacketFieldW::reads_back(field, rest);
                lemma_assoc(RegW::bytes(dst), PacketFieldW::bytes(field), rest);
                lemma_assoc(u32::bytes(0), RegW::bytes(dst) + (PacketFieldW::bytes(field)), rest);
            },
            InstrW::StoreField { field, src } => {
                u32::reads_back(1, PacketFieldW::bytes(field) + (RegW::bytes(src) + rest));
                PacketFieldW::reads_back(field, RegW::bytes(src) + rest);
                RegW::reads_back(src, rest);
                lemma_assoc(PacketFieldW::bytes(field), RegW::bytes(src), rest);
                lemma_assoc(u32::bytes(1), PacketFieldW::bytes(field) + (RegW::bytes(src)), rest);
            },
            InstrW::LoadMeta { dst, key } => {
                u32::reads_back(2, RegW::bytes(dst) + (MetaKeyW::bytes(key) + rest));
                RegW::reads_back(dst, MetaKeyW::bytes(key) + rest);
                MetaKeyW::reads_back(key, rest);
                lemma_assoc(RegW::bytes(dst), MetaKeyW::bytes(key), rest);
                lemma_assoc(u32::bytes(2), RegW::bytes(dst) + (MetaKeyW::bytes(key)), rest);
            },
            InstrW::StoreMeta { key, src } => {
                u32::reads_back(3, MetaKeyW::bytes(key) + (RegW::bytes(src) + rest));
                MetaKeyW::reads_back(key, RegW::bytes(src) + rest);
                RegW::reads_back(src, rest);
                lemma_assoc(MetaKeyW::bytes(key), RegW::bytes(src), rest);
                lemma_assoc(u32::bytes(3), MetaKeyW::bytes(key) + (RegW::bytes(src)), rest);
            },
            InstrW::Const { dst, value } => {
                u32::reads_back(4, RegW::bytes(dst) + (u64::bytes(value) + rest));
                RegW::reads_back(dst, u64::bytes(value) + rest);
                u64::reads_back(value, rest);
                lemma_assoc(RegW::bytes(dst), u64::bytes(value), rest);
                lemma_assoc(u32::bytes(4), RegW::bytes(dst) + (u64::bytes(value)), rest);
            },
            InstrW::Add { dst, a, b } => {
                u32::reads_back(5, RegW::bytes(dst) + (RegW::bytes(a) + (RegW::bytes(b) + rest)));
                RegW::reads_back(dst, RegW::bytes(a) + (RegW::bytes(b) + rest));
                RegW::reads_back(a, RegW::bytes(b) + rest);
                RegW::reads_back(b, rest);
                lemma_assoc(RegW::bytes(a), RegW::bytes(b), rest);
                lemma_assoc(RegW::bytes(dst), RegW::bytes(a) + (RegW::bytes(b)), rest);
                lemma_assoc(u32::bytes(5), RegW::bytes(dst) + (RegW::bytes(a) + (RegW::bytes(b))), rest);
            },
            InstrW::Sub { dst, a, b } => {
                u32::reads_back(6, RegW::bytes(dst) + (RegW::bytes(a) + (RegW::bytes(b) + rest)));
                RegW::reads_back(dst, RegW::bytes(a) + (RegW::bytes(b) + rest));
                RegW::reads_back(a, RegW::bytes(b) + rest);
                RegW::reads_back(b, rest);
                lemma_assoc(RegW::bytes(a), RegW::bytes(b), rest);
                lemma_assoc(RegW::bytes(dst), RegW::bytes(a) + (RegW::bytes(b)), rest);
                lemma_assoc(u32::bytes(6), RegW::bytes(dst) + (RegW::bytes(a) + (RegW::bytes(b))), rest);
            },
            InstrW::And { dst, a, b } => {
                u32::reads_back(7, RegW::bytes(dst) + (RegW::bytes(a) + (RegW::bytes(b) + rest)));
                RegW::reads_back(dst, RegW::bytes(a) + (RegW::bytes(b) + rest));
                RegW::reads_back(a, RegW::bytes(b) + rest);
                RegW::reads_back(b, rest);
                lemma_assoc(RegW::bytes(a), RegW::bytes(b), rest);
                lemma_assoc(RegW::bytes(dst), RegW::bytes(a) + (RegW::bytes(b)), rest);
                lemma_assoc(u32::bytes(7), RegW::bytes(dst) + (RegW::bytes(a) + (RegW::bytes(b))), rest);
            },
            InstrW::Or { dst, a, b } => {
                u32::reads_back(8, RegW::bytes(dst) + (RegW::bytes(a) + (RegW::bytes(b) + rest)));
                RegW::reads_back(dst, RegW::bytes(a) + (RegW::bytes(b) + rest));
                RegW::reads_back(a, RegW::bytes(b) + rest);
                RegW::reads_back(b, rest);
                lemma_assoc(RegW::bytes(a), RegW::bytes(b), rest);
                lemma_assoc(RegW::bytes(dst), RegW::bytes(a) + (RegW::bytes(b)), rest);
                lemma_assoc(u32::bytes(8), RegW::bytes(dst) + (RegW::bytes(a) + (RegW::bytes(b))), rest);
            },
            InstrW::Xor { dst, a, b } => {
                u32::reads_back(9, RegW::bytes(dst) + (RegW::bytes(a) + (RegW::bytes(b) + rest)));
                RegW::reads_back(dst, RegW::bytes(a) + (RegW::bytes(b) + rest));
                RegW::reads_back(a, RegW::bytes(b) + rest);
                RegW::reads_back(b, rest);
                lemma_assoc(RegW::bytes(a), RegW::bytes(b), rest);
                lemma_assoc(RegW::bytes(dst), RegW::bytes(a) + (RegW::bytes(b)), rest);
                lemma_assoc(u32::bytes(9), RegW::bytes(dst) + (RegW::bytes(a) + (RegW::bytes(b))), rest);
            },
            InstrW::Eq { dst, a, b } => {
                u32::reads_back(10, RegW::bytes(dst) + (RegW::bytes(a) + (RegW::bytes(b) + rest)));
                RegW::reads_back(dst, RegW::bytes(a) + (RegW::bytes(b) + rest));
                RegW::reads_back(a, RegW::bytes(b) + rest);
                RegW::reads_back(b, rest);
                lemma_assoc(RegW::bytes(a), RegW::bytes(b), rest);
                lemma_assoc(RegW::bytes(dst), RegW::bytes(a) + (RegW::bytes(b)), rest);
                lemma_assoc(u32::bytes(10), RegW::bytes(dst) + (RegW::bytes(a) + (RegW::bytes(b))), rest);
            },
            InstrW::Lt { dst, a, b } => {
                u32::reads_back(11, RegW::bytes(dst) + (RegW::bytes(a) + (RegW::bytes(b) + rest)));
                RegW::reads_back(dst, RegW::bytes(a) + (RegW::bytes(b) + rest));
                RegW::reads_back(a, RegW::bytes(b) + rest);
                RegW::reads_back(b, rest);
                lemma_assoc(RegW::bytes(a), RegW::bytes(b), rest);
                lemma_assoc(RegW::bytes(dst), RegW::bytes(a) + (RegW::bytes(b)), rest);
                lemma_assoc(u32::bytes(11), RegW::bytes(dst) + (RegW::bytes(a) + (RegW::bytes(b))), rest);
            },
            InstrW::TableLookup { table_id, key_reg, result_meta } => {
                u32::reads_back(12, TableIdW::bytes(table_id) + (RegW::bytes(key_reg) + (MetaKeyW::bytes(result_meta) + rest)));
                TableIdW::reads_back(table_id, RegW::bytes(key_reg) + (MetaKeyW::bytes(result_meta) + rest));
                RegW::reads_back(key_reg, MetaKeyW::bytes(result_meta) + rest);
                MetaKeyW::reads_back(result_meta, rest);
                lemma_assoc(RegW::bytes(key_reg), MetaKeyW::bytes(result_meta), rest);
                lemma_assoc(TableIdW::bytes(table_id), RegW::bytes(key_reg) + (MetaKeyW::bytes(result_meta)), rest);
                lemma_assoc(u32::bytes(12), TableIdW::bytes(table_id) + (RegW::bytes(key_reg) + (MetaKeyW::bytes(result_meta))), rest);
            },
            InstrW::RegisterRead { array, index, dst } => {
                u32::reads_back(13, RegisterArrayIdW::bytes(array) + (RegW::bytes(index) + (RegW::bytes(dst) + rest)));
                RegisterArrayIdW::reads_back(array, RegW::bytes(index) + (RegW::bytes(dst) + rest));
                RegW::reads_back(index, RegW::bytes(dst) + rest);
                RegW::reads_back(dst, rest);
                lemma_assoc(RegW::bytes(index), RegW::bytes(dst), rest);
                lemma_assoc(RegisterArrayIdW::bytes(array), RegW::bytes(index) + (RegW::bytes(dst)), rest);
                lemma_assoc(u32::bytes(13), RegisterArrayIdW::bytes(array) + (RegW::bytes(index) + (RegW::bytes(dst))), rest);
            },
            InstrW::RegisterWrite { array, index, src } => {
                u32::reads_back(14, RegisterArrayIdW::bytes(array) + (RegW::bytes(index) + (RegW::bytes(src) + rest)));
                RegisterArrayIdW::reads_back(array, RegW::bytes(index) + (RegW::bytes(src) + rest));
                RegW::reads_back(index, RegW::bytes(src) + rest);
                RegW::reads_back(src, rest);
                lemma_assoc(RegW::bytes(index), RegW::bytes(src), rest);
                lemma_assoc(RegisterArrayIdW::bytes(array), RegW::bytes(index) + (RegW::bytes(src)), rest);
                lemma_assoc(u32::bytes(14), RegisterArrayIdW::bytes(array) + (RegW::bytes(index) + (RegW::bytes(src))), rest);
            },
            InstrW::CounterAdd { counter, index, value } => {
                u32::reads_back(15, CounterArrayIdW::bytes(counter) + (RegW::bytes(index) + (RegW::bytes(value) + rest)));
                CounterArrayIdW::reads_back(counter, RegW::bytes(index) + (RegW::bytes(value) + rest));
                RegW::reads_back(index, RegW::bytes(value) + rest);
                RegW::reads_back(value, rest);
                lemma_assoc(RegW::bytes(index), RegW::bytes(value), rest);
                lemma_assoc(CounterArrayIdW::bytes(counter), RegW::bytes(index) + (RegW::bytes(value)), rest);
                lemma_assoc(u32::bytes(15), CounterArrayIdW::bytes(counter) + (RegW::bytes(index) + (RegW::bytes(value))), rest);
            },
            InstrW::BranchIf { cond, target } => {
                u32::reads_back(16, RegW::bytes(cond) + (u32::bytes(target) + rest));
                RegW::reads_back(cond, u32::bytes(target) + rest);
                u32::reads_back(target, rest);
                lemma_assoc(RegW::bytes(cond), u32::bytes(target), rest);
                lemma_assoc(u32::bytes(16), RegW::bytes(cond) + (u32::bytes(target)), rest);
            },
            InstrW::Drop => {
                u32::reads_back(17, rest);
            },
            InstrW::Punt { reason } => {
                u32::reads_back(18, PuntReasonW::bytes(reason) + rest);
                PuntReasonW::reads_back(reason, rest);
                lemma_assoc(u32::bytes(18), PuntReasonW::bytes(reason), rest);
            },
            InstrW::SetEgress { port } => {
                u32::reads_back(19, PortIdW::bytes(port) + rest);
                PortIdW::reads_back(port, rest);
                lemma_assoc(u32::bytes(19), PortIdW::bytes(port), rest);
            },
            InstrW::SetQueue { queue } => {
                u32::reads_back(20, QueueIdW::bytes(queue) + rest);
                QueueIdW::reads_back(queue, rest);
                lemma_assoc(u32::bytes(20), QueueIdW::bytes(queue), rest);
            },
            InstrW::Recirculate => {
                u32::reads_back(21, rest);
            },
            InstrW::Noop => {
                u32::reads_back(22, rest);
            },
            InstrW::PushLabel { label } => {
                u32::reads_back(23, u32::bytes(label) + rest);
                u32::reads_back(label, rest);
                lemma_assoc(u32::bytes(23), u32::bytes(label), rest);
            },
            InstrW::PopLabel => {
                u32::reads_back(24, rest);
            },
            InstrW::SwapLabel { label } => {
                u32::reads_back(25, u32::bytes(label) + rest);
                u32::reads_back(label, rest);
                lemma_assoc(u32::bytes(25), u32::bytes(label), rest);
            },
            InstrW::MarkTrace => {
                u32::reads_back(26, rest);
            },
        }
    }

    #[verifier::rlimit(60)]
    fn put(&self, out: &mut Vec<u8>) {
        match self {
            InstrW::LoadField { dst, field } => {
                (0u32).put(out);
                dst.put(out);
                field.put(out);
                proof {
                    lemma_assoc(old(out)@ + u32::bytes(0), RegW::bytes(*dst), PacketFieldW::bytes(*field));
                    lemma_assoc(old(out)@, u32::bytes(0), RegW::bytes(*dst) + (PacketFieldW::bytes(*field)));
                }
            },
            InstrW::StoreField { field, src } => {
                (1u32).put(out);
                field.put(out);
                src.put(out);
                proof {
                    lemma_assoc(old(out)@ + u32::bytes(1), PacketFieldW::bytes(*field), RegW::bytes(*src));
                    lemma_assoc(old(out)@, u32::bytes(1), PacketFieldW::bytes(*field) + (RegW::bytes(*src)));
                }
            },
            InstrW::LoadMeta { dst, key } => {
                (2u32).put(out);
                dst.put(out);
                key.put(out);
                proof {
                    lemma_assoc(old(out)@ + u32::bytes(2), RegW::bytes(*dst), MetaKeyW::bytes(*key));
                    lemma_assoc(old(out)@, u32::bytes(2), RegW::bytes(*dst) + (MetaKeyW::bytes(*key)));
                }
            },
            InstrW::StoreMeta { key, src } => {
                (3u32).put(out);
                key.put(out);
                src.put(out);
                proof {
                    lemma_assoc(old(out)@ + u32::bytes(3), MetaKeyW::bytes(*key), RegW::bytes(*src));
                    lemma_assoc(old(out)@, u32::bytes(3), MetaKeyW::bytes(*key) + (RegW::bytes(*src)));
                }
            },
            InstrW::Const { dst, value } => {
                (4u32).put(out);
                dst.put(out);
                value.put(out);
                proof {
                    lemma_assoc(old(out)@ + u32::bytes(4), RegW::bytes(*dst), u64::bytes(*value));
                    lemma_assoc(old(out)@, u32::bytes(4), RegW::bytes(*dst) + (u64::bytes(*value)));
                }
            },
            InstrW::Add { dst, a, b } => {
                (5u32).put(out);
                dst.put(out);
                a.put(out);
                b.put(out);
                proof {
                    lemma_assoc((old(out)@ + u32::bytes(5)) + RegW::bytes(*dst), RegW::bytes(*a), RegW::bytes(*b));
                    lemma_assoc(old(out)@ + u32::bytes(5), RegW::bytes(*dst), RegW::bytes(*a) + (RegW::bytes(*b)));
                    lemma_assoc(old(out)@, u32::bytes(5), RegW::bytes(*dst) + (RegW::bytes(*a) + (RegW::bytes(*b))));
                }
            },
            InstrW::Sub { dst, a, b } => {
                (6u32).put(out);
                dst.put(out);
                a.put(out);
                b.put(out);
                proof {
                    lemma_assoc((old(out)@ + u32::bytes(6)) + RegW::bytes(*dst), RegW::bytes(*a), RegW::bytes(*b));
                    lemma_assoc(old(out)@ + u32::bytes(6), RegW::bytes(*dst), RegW::bytes(*a) + (RegW::bytes(*b)));
                    lemma_assoc(old(out)@, u32::bytes(6), RegW::bytes(*dst) + (RegW::bytes(*a) + (RegW::bytes(*b))));
                }
            },
            InstrW::And { dst, a, b } => {
                (7u32).put(out);
                dst.put(out);
                a.put(out);
                b.put(out);
                proof {
                    lemma_assoc((old(out)@ + u32::bytes(7)) + RegW::bytes(*dst), RegW::bytes(*a), RegW::bytes(*b));
                    lemma_assoc(old(out)@ + u32::bytes(7), RegW::bytes(*dst), RegW::bytes(*a) + (RegW::bytes(*b)));
                    lemma_assoc(old(out)@, u32::bytes(7), RegW::bytes(*dst) + (RegW::bytes(*a) + (RegW::bytes(*b))));
                }
            },
            InstrW::Or { dst, a, b } => {
                (8u32).put(out);
                dst.put(out);
                a.put(out);
                b.put(out);
                proof {
                    lemma_assoc((old(out)@ + u32::bytes(8)) + RegW::bytes(*dst), RegW::bytes(*a), RegW::bytes(*b));
                    lemma_assoc(old(out)@ + u32::bytes(8), RegW::bytes(*dst), RegW::bytes(*a) + (RegW::bytes(*b)));
                    lemma_assoc(old(out)@, u32::bytes(8), RegW::bytes(*dst) + (RegW::bytes(*a) + (RegW::bytes(*b))));
                }
            },
            InstrW::Xor { dst, a, b } => {
                (9u32).put(out);
                dst.put(out);
                a.put(out);
                b.put(out);
                proof {
                    lemma_assoc((old(out)@ + u32::bytes(9)) + RegW::bytes(*dst), RegW::bytes(*a), RegW::bytes(*b));
                    lemma_assoc(old(out)@ + u32::bytes(9), RegW::bytes(*dst), RegW::bytes(*a) + (RegW::bytes(*b)));
                    lemma_assoc(old(out)@, u32::bytes(9), RegW::bytes(*dst) + (RegW::bytes(*a) + (RegW::bytes(*b))));
                }
            },
            InstrW::Eq { dst, a, b } => {
                (10u32).put(out);
                dst.put(out);
                a.put(out);
                b.put(out);
                proof {
                    lemma_assoc((old(out)@ + u32::bytes(10)) + RegW::bytes(*dst), RegW::bytes(*a), RegW::bytes(*b));
                    lemma_assoc(old(out)@ + u32::bytes(10), RegW::bytes(*dst), RegW::bytes(*a) + (RegW::bytes(*b)));
                    lemma_assoc(old(out)@, u32::bytes(10), RegW::bytes(*dst) + (RegW::bytes(*a) + (RegW::bytes(*b))));
                }
            },
            InstrW::Lt { dst, a, b } => {
                (11u32).put(out);
                dst.put(out);
                a.put(out);
                b.put(out);
                proof {
                    lemma_assoc((old(out)@ + u32::bytes(11)) + RegW::bytes(*dst), RegW::bytes(*a), RegW::bytes(*b));
                    lemma_assoc(old(out)@ + u32::bytes(11), RegW::bytes(*dst), RegW::bytes(*a) + (RegW::bytes(*b)));
                    lemma_assoc(old(out)@, u32::bytes(11), RegW::bytes(*dst) + (RegW::bytes(*a) + (RegW::bytes(*b))));
                }
            },
            InstrW::TableLookup { table_id, key_reg, result_meta } => {
                (12u32).put(out);
                table_id.put(out);
                key_reg.put(out);
                result_meta.put(out);
                proof {
                    lemma_assoc((old(out)@ + u32::bytes(12)) + TableIdW::bytes(*table_id), RegW::bytes(*key_reg), MetaKeyW::bytes(*result_meta));
                    lemma_assoc(old(out)@ + u32::bytes(12), TableIdW::bytes(*table_id), RegW::bytes(*key_reg) + (MetaKeyW::bytes(*result_meta)));
                    lemma_assoc(old(out)@, u32::bytes(12), TableIdW::bytes(*table_id) + (RegW::bytes(*key_reg) + (MetaKeyW::bytes(*result_meta))));
                }
            },
            InstrW::RegisterRead { array, index, dst } => {
                (13u32).put(out);
                array.put(out);
                index.put(out);
                dst.put(out);
                proof {
                    lemma_assoc((old(out)@ + u32::bytes(13)) + RegisterArrayIdW::bytes(*array), RegW::bytes(*index), RegW::bytes(*dst));
                    lemma_assoc(old(out)@ + u32::bytes(13), RegisterArrayIdW::bytes(*array), RegW::bytes(*index) + (RegW::bytes(*dst)));
                    lemma_assoc(old(out)@, u32::bytes(13), RegisterArrayIdW::bytes(*array) + (RegW::bytes(*index) + (RegW::bytes(*dst))));
                }
            },
            InstrW::RegisterWrite { array, index, src } => {
                (14u32).put(out);
                array.put(out);
                index.put(out);
                src.put(out);
                proof {
                    lemma_assoc((old(out)@ + u32::bytes(14)) + RegisterArrayIdW::bytes(*array), RegW::bytes(*index), RegW::bytes(*src));
                    lemma_assoc(old(out)@ + u32::bytes(14), RegisterArrayIdW::bytes(*array), RegW::bytes(*index) + (RegW::bytes(*src)));
                    lemma_assoc(old(out)@, u32::bytes(14), RegisterArrayIdW::bytes(*array) + (RegW::bytes(*index) + (RegW::bytes(*src))));
                }
            },
            InstrW::CounterAdd { counter, index, value } => {
                (15u32).put(out);
                counter.put(out);
                index.put(out);
                value.put(out);
                proof {
                    lemma_assoc((old(out)@ + u32::bytes(15)) + CounterArrayIdW::bytes(*counter), RegW::bytes(*index), RegW::bytes(*value));
                    lemma_assoc(old(out)@ + u32::bytes(15), CounterArrayIdW::bytes(*counter), RegW::bytes(*index) + (RegW::bytes(*value)));
                    lemma_assoc(old(out)@, u32::bytes(15), CounterArrayIdW::bytes(*counter) + (RegW::bytes(*index) + (RegW::bytes(*value))));
                }
            },
            InstrW::BranchIf { cond, target } => {
                (16u32).put(out);
                cond.put(out);
                target.put(out);
                proof {
                    lemma_assoc(old(out)@ + u32::bytes(16), RegW::bytes(*cond), u32::bytes(*target));
                    lemma_assoc(old(out)@, u32::bytes(16), RegW::bytes(*cond) + (u32::bytes(*target)));
                }
            },
            InstrW::Drop => {
                (17u32).put(out);
            },
            InstrW::Punt { reason } => {
                (18u32).put(out);
                reason.put(out);
                proof {
                    lemma_assoc(old(out)@, u32::bytes(18), PuntReasonW::bytes(*reason));
                }
            },
            InstrW::SetEgress { port } => {
                (19u32).put(out);
                port.put(out);
                proof {
                    lemma_assoc(old(out)@, u32::bytes(19), PortIdW::bytes(*port));
                }
            },
            InstrW::SetQueue { queue } => {
                (20u32).put(out);
                queue.put(out);
                proof {
                    lemma_assoc(old(out)@, u32::bytes(20), QueueIdW::bytes(*queue));
                }
            },
            InstrW::Recirculate => {
                (21u32).put(out);
            },
            InstrW::Noop => {
                (22u32).put(out);
            },
            InstrW::PushLabel { label } => {
                (23u32).put(out);
                label.put(out);
                proof {
                    lemma_assoc(old(out)@, u32::bytes(23), u32::bytes(*label));
                }
            },
            InstrW::PopLabel => {
                (24u32).put(out);
            },
            InstrW::SwapLabel { label } => {
                (25u32).put(out);
                label.put(out);
                proof {
                    lemma_assoc(old(out)@, u32::bytes(25), u32::bytes(*label));
                }
            },
            InstrW::MarkTrace => {
                (26u32).put(out);
            },
        }
    }

    #[verifier::rlimit(60)]
    fn get<'a>(b: &'a [u8]) -> (r: Result<(InstrW, &'a [u8]), DecodeError>) {
        let (tag, r0) = u32::get(b)?;
        if tag == 0 {
            let (dst, r1) = RegW::get(r0)?;
            let (field, r2) = PacketFieldW::get(r1)?;
            Ok((InstrW::LoadField { dst, field }, r2))
        } else if tag == 1 {
            let (field, r1) = PacketFieldW::get(r0)?;
            let (src, r2) = RegW::get(r1)?;
            Ok((InstrW::StoreField { field, src }, r2))
        } else if tag == 2 {
            let (dst, r1) = RegW::get(r0)?;
            let (key, r2) = MetaKeyW::get(r1)?;
            Ok((InstrW::LoadMeta { dst, key }, r2))
        } else if tag == 3 {
            let (key, r1) = MetaKeyW::get(r0)?;
            let (src, r2) = RegW::get(r1)?;
            Ok((InstrW::StoreMeta { key, src }, r2))
        } else if tag == 4 {
            let (dst, r1) = RegW::get(r0)?;
            let (value, r2) = u64::get(r1)?;
            Ok((InstrW::Const { dst, value }, r2))
        } else if tag == 5 {
            let (dst, r1) = RegW::get(r0)?;
            let (a, r2) = RegW::get(r1)?;
            let (b, r3) = RegW::get(r2)?;
            Ok((InstrW::Add { dst, a, b }, r3))
        } else if tag == 6 {
            let (dst, r1) = RegW::get(r0)?;
            let (a, r2) = RegW::get(r1)?;
            let (b, r3) = RegW::get(r2)?;
            Ok((InstrW::Sub { dst, a, b }, r3))
        } else if tag == 7 {
            let (dst, r1) = RegW::get(r0)?;
            let (a, r2) = RegW::get(r1)?;
            let (b, r3) = RegW::get(r2)?;
            Ok((InstrW::And { dst, a, b }, r3))
        } else if tag == 8 {
            let (dst, r1) = RegW::get(r0)?;
            let (a, r2) = RegW::get(r1)?;
            let (b, r3) = RegW::get(r2)?;
            Ok((InstrW::Or { dst, a, b }, r3))
        } else if tag == 9 {
            let (dst, r1) = RegW::get(r0)?;
            let (a, r2) = RegW::get(r1)?;
            let (b, r3) = RegW::get(r2)?;
            Ok((InstrW::Xor { dst, a, b }, r3))
        } else if tag == 10 {
            let (dst, r1) = RegW::get(r0)?;
            let (a, r2) = RegW::get(r1)?;
            let (b, r3) = RegW::get(r2)?;
            Ok((InstrW::Eq { dst, a, b }, r3))
        } else if tag == 11 {
            let (dst, r1) = RegW::get(r0)?;
            let (a, r2) = RegW::get(r1)?;
            let (b, r3) = RegW::get(r2)?;
            Ok((InstrW::Lt { dst, a, b }, r3))
        } else if tag == 12 {
            let (table_id, r1) = TableIdW::get(r0)?;
            let (key_reg, r2) = RegW::get(r1)?;
            let (result_meta, r3) = MetaKeyW::get(r2)?;
            Ok((InstrW::TableLookup { table_id, key_reg, result_meta }, r3))
        } else if tag == 13 {
            let (array, r1) = RegisterArrayIdW::get(r0)?;
            let (index, r2) = RegW::get(r1)?;
            let (dst, r3) = RegW::get(r2)?;
            Ok((InstrW::RegisterRead { array, index, dst }, r3))
        } else if tag == 14 {
            let (array, r1) = RegisterArrayIdW::get(r0)?;
            let (index, r2) = RegW::get(r1)?;
            let (src, r3) = RegW::get(r2)?;
            Ok((InstrW::RegisterWrite { array, index, src }, r3))
        } else if tag == 15 {
            let (counter, r1) = CounterArrayIdW::get(r0)?;
            let (index, r2) = RegW::get(r1)?;
            let (value, r3) = RegW::get(r2)?;
            Ok((InstrW::CounterAdd { counter, index, value }, r3))
        } else if tag == 16 {
            let (cond, r1) = RegW::get(r0)?;
            let (target, r2) = u32::get(r1)?;
            Ok((InstrW::BranchIf { cond, target }, r2))
        } else if tag == 17 {
            Ok((InstrW::Drop, r0))
        } else if tag == 18 {
            let (reason, r1) = PuntReasonW::get(r0)?;
            Ok((InstrW::Punt { reason }, r1))
        } else if tag == 19 {
            let (port, r1) = PortIdW::get(r0)?;
            Ok((InstrW::SetEgress { port }, r1))
        } else if tag == 20 {
            let (queue, r1) = QueueIdW::get(r0)?;
            Ok((InstrW::SetQueue { queue }, r1))
        } else if tag == 21 {
            Ok((InstrW::Recirculate, r0))
        } else if tag == 22 {
            Ok((InstrW::Noop, r0))
        } else if tag == 23 {
            let (label, r1) = u32::get(r0)?;
            Ok((InstrW::PushLabel { label }, r1))
        } else if tag == 24 {
            Ok((InstrW::PopLabel, r0))
        } else if tag == 25 {
            let (label, r1) = u32::get(r0)?;
            Ok((InstrW::SwapLabel { label }, r1))
        } else if tag == 26 {
            Ok((InstrW::MarkTrace, r0))
        } else {
            Err(DecodeError::UnknownTag)
        }
    }
}

#[derive(Debug)]
pub struct StageProgramW {
    pub instrs: Vec<InstrW>,
    pub max_alu_ops: u32,
    pub max_memory_accesses: u8,
}

/// What a `StageProgramW` says.
#[verifier::ext_equal]
pub struct StageProgramV {
    pub instrs: Seq<InstrW>,
    pub max_alu_ops: u32,
    pub max_memory_accesses: u8,
}

impl View for StageProgramW {
    type V = StageProgramV;

    open spec fn view(&self) -> StageProgramV {
        self.val()
    }
}

impl Wire for StageProgramW {
    type V = StageProgramV;

    open spec fn val(&self) -> StageProgramV {
        StageProgramV {
            instrs: self.instrs.val(),
            max_alu_ops: self.max_alu_ops,
            max_memory_accesses: self.max_memory_accesses,
        }
    }

    open spec fn bytes(v: StageProgramV) -> Seq<u8> {
        <Vec<InstrW> as Wire>::bytes(v.instrs) + (u32::bytes(v.max_alu_ops) + (u8::bytes(v.max_memory_accesses)))
    }

    open spec fn parse(b: Seq<u8>) -> Option<(StageProgramV, Seq<u8>)> {
        match <Vec<InstrW> as Wire>::parse(b) {
            Some((instrs, r1)) => match u32::parse(r1) {
                Some((max_alu_ops, r2)) => match u8::parse(r2) {
                    Some((max_memory_accesses, r3)) => Some((StageProgramV { instrs, max_alu_ops, max_memory_accesses }, r3)),
                    None => None,
                },
                None => None,
            },
            None => None,
        }
    }

    open spec fn fits(v: StageProgramV) -> bool {
        <Vec<InstrW> as Wire>::fits(v.instrs)
    }

    proof fn reads_back(v: StageProgramV, rest: Seq<u8>) {
        <Vec<InstrW> as Wire>::reads_back(v.instrs, u32::bytes(v.max_alu_ops) + (u8::bytes(v.max_memory_accesses) + rest));
        u32::reads_back(v.max_alu_ops, u8::bytes(v.max_memory_accesses) + rest);
        u8::reads_back(v.max_memory_accesses, rest);
        lemma_assoc(u32::bytes(v.max_alu_ops), u8::bytes(v.max_memory_accesses), rest);
        lemma_assoc(<Vec<InstrW> as Wire>::bytes(v.instrs), u32::bytes(v.max_alu_ops) + (u8::bytes(v.max_memory_accesses)), rest);
    }

    fn put(&self, out: &mut Vec<u8>) {
        self.instrs.put(out);
        self.max_alu_ops.put(out);
        self.max_memory_accesses.put(out);
        proof {
            lemma_assoc(old(out)@ + <Vec<InstrW> as Wire>::bytes(self.instrs.val()), u32::bytes(self.max_alu_ops), u8::bytes(self.max_memory_accesses));
            lemma_assoc(old(out)@, <Vec<InstrW> as Wire>::bytes(self.instrs.val()), u32::bytes(self.max_alu_ops) + (u8::bytes(self.max_memory_accesses)));
        }
    }

    fn get<'a>(b: &'a [u8]) -> (r: Result<(StageProgramW, &'a [u8]), DecodeError>) {
        let (instrs, r1) = <Vec<InstrW> as Wire>::get(b)?;
        let (max_alu_ops, r2) = u32::get(r1)?;
        let (max_memory_accesses, r3) = u8::get(r2)?;
        Ok((StageProgramW { instrs, max_alu_ops, max_memory_accesses }, r3))
    }
}

#[derive(Debug)]
pub struct TinyProgramW {
    pub stages: Vec<StageProgramW>,
}

/// What a `TinyProgramW` says.
#[verifier::ext_equal]
pub struct TinyProgramV {
    pub stages: Seq<StageProgramV>,
}

impl View for TinyProgramW {
    type V = TinyProgramV;

    open spec fn view(&self) -> TinyProgramV {
        self.val()
    }
}

impl Wire for TinyProgramW {
    type V = TinyProgramV;

    open spec fn val(&self) -> TinyProgramV {
        TinyProgramV {
            stages: self.stages.val(),
        }
    }

    open spec fn bytes(v: TinyProgramV) -> Seq<u8> {
        <Vec<StageProgramW> as Wire>::bytes(v.stages)
    }

    open spec fn parse(b: Seq<u8>) -> Option<(TinyProgramV, Seq<u8>)> {
        match <Vec<StageProgramW> as Wire>::parse(b) {
            Some((stages, r1)) => Some((TinyProgramV { stages }, r1)),
            None => None,
        }
    }

    open spec fn fits(v: TinyProgramV) -> bool {
        <Vec<StageProgramW> as Wire>::fits(v.stages)
    }

    proof fn reads_back(v: TinyProgramV, rest: Seq<u8>) {
        <Vec<StageProgramW> as Wire>::reads_back(v.stages, rest);
    }

    fn put(&self, out: &mut Vec<u8>) {
        self.stages.put(out);
    }

    fn get<'a>(b: &'a [u8]) -> (r: Result<(TinyProgramW, &'a [u8]), DecodeError>) {
        let (stages, r1) = <Vec<StageProgramW> as Wire>::get(b)?;
        Ok((TinyProgramW { stages }, r1))
    }
}

#[derive(Debug, Clone, Copy, PartialEq, Eq, Hash, Structural)]
pub enum TableActionW {
    SetMeta { key: MetaKeyW, value: u64 },
    SetEgress { port: PortIdW },
    SetQueue { queue: QueueIdW },
    Drop,
    Punt { reason: PuntReasonW },
}

impl Wire for TableActionW {
    type V = TableActionW;

    open spec fn val(&self) -> TableActionW {
        *self
    }

    open spec fn bytes(v: TableActionW) -> Seq<u8> {
        match v {
            TableActionW::SetMeta { key, value } => u32::bytes(0) + (MetaKeyW::bytes(key) + (u64::bytes(value))),
            TableActionW::SetEgress { port } => u32::bytes(1) + (PortIdW::bytes(port)),
            TableActionW::SetQueue { queue } => u32::bytes(2) + (QueueIdW::bytes(queue)),
            TableActionW::Drop => u32::bytes(3),
            TableActionW::Punt { reason } => u32::bytes(4) + (PuntReasonW::bytes(reason)),
        }
    }

    open spec fn parse(b: Seq<u8>) -> Option<(TableActionW, Seq<u8>)> {
        match u32::parse(b) {
            Some((tag, r0)) => if tag == 0 {
                match MetaKeyW::parse(r0) {
                    Some((key, r1)) => match u64::parse(r1) {
                        Some((value, r2)) => Some((TableActionW::SetMeta { key, value }, r2)),
                        None => None,
                    },
                    None => None,
                }
            } else if tag == 1 {
                match PortIdW::parse(r0) {
                    Some((port, r1)) => Some((TableActionW::SetEgress { port }, r1)),
                    None => None,
                }
            } else if tag == 2 {
                match QueueIdW::parse(r0) {
                    Some((queue, r1)) => Some((TableActionW::SetQueue { queue }, r1)),
                    None => None,
                }
            } else if tag == 3 {
                Some((TableActionW::Drop, r0))
            } else if tag == 4 {
                match PuntReasonW::parse(r0) {
                    Some((reason, r1)) => Some((TableActionW::Punt { reason }, r1)),
                    None => None,
                }
            } else {
                None
            },
            None => None,
        }
    }

    open spec fn fits(v: TableActionW) -> bool {
        true
    }

    proof fn reads_back(v: TableActionW, rest: Seq<u8>) {
        match v {
            TableActionW::SetMeta { key, value } => {
                u32::reads_back(0, MetaKeyW::bytes(key) + (u64::bytes(value) + rest));
                MetaKeyW::reads_back(key, u64::bytes(value) + rest);
                u64::reads_back(value, rest);
                lemma_assoc(MetaKeyW::bytes(key), u64::bytes(value), rest);
                lemma_assoc(u32::bytes(0), MetaKeyW::bytes(key) + (u64::bytes(value)), rest);
            },
            TableActionW::SetEgress { port } => {
                u32::reads_back(1, PortIdW::bytes(port) + rest);
                PortIdW::reads_back(port, rest);
                lemma_assoc(u32::bytes(1), PortIdW::bytes(port), rest);
            },
            TableActionW::SetQueue { queue } => {
                u32::reads_back(2, QueueIdW::bytes(queue) + rest);
                QueueIdW::reads_back(queue, rest);
                lemma_assoc(u32::bytes(2), QueueIdW::bytes(queue), rest);
            },
            TableActionW::Drop => {
                u32::reads_back(3, rest);
            },
            TableActionW::Punt { reason } => {
                u32::reads_back(4, PuntReasonW::bytes(reason) + rest);
                PuntReasonW::reads_back(reason, rest);
                lemma_assoc(u32::bytes(4), PuntReasonW::bytes(reason), rest);
            },
        }
    }

    fn put(&self, out: &mut Vec<u8>) {
        match self {
            TableActionW::SetMeta { key, value } => {
                (0u32).put(out);
                key.put(out);
                value.put(out);
                proof {
                    lemma_assoc(old(out)@ + u32::bytes(0), MetaKeyW::bytes(*key), u64::bytes(*value));
                    lemma_assoc(old(out)@, u32::bytes(0), MetaKeyW::bytes(*key) + (u64::bytes(*value)));
                }
            },
            TableActionW::SetEgress { port } => {
                (1u32).put(out);
                port.put(out);
                proof {
                    lemma_assoc(old(out)@, u32::bytes(1), PortIdW::bytes(*port));
                }
            },
            TableActionW::SetQueue { queue } => {
                (2u32).put(out);
                queue.put(out);
                proof {
                    lemma_assoc(old(out)@, u32::bytes(2), QueueIdW::bytes(*queue));
                }
            },
            TableActionW::Drop => {
                (3u32).put(out);
            },
            TableActionW::Punt { reason } => {
                (4u32).put(out);
                reason.put(out);
                proof {
                    lemma_assoc(old(out)@, u32::bytes(4), PuntReasonW::bytes(*reason));
                }
            },
        }
    }

    fn get<'a>(b: &'a [u8]) -> (r: Result<(TableActionW, &'a [u8]), DecodeError>) {
        let (tag, r0) = u32::get(b)?;
        if tag == 0 {
            let (key, r1) = MetaKeyW::get(r0)?;
            let (value, r2) = u64::get(r1)?;
            Ok((TableActionW::SetMeta { key, value }, r2))
        } else if tag == 1 {
            let (port, r1) = PortIdW::get(r0)?;
            Ok((TableActionW::SetEgress { port }, r1))
        } else if tag == 2 {
            let (queue, r1) = QueueIdW::get(r0)?;
            Ok((TableActionW::SetQueue { queue }, r1))
        } else if tag == 3 {
            Ok((TableActionW::Drop, r0))
        } else if tag == 4 {
            let (reason, r1) = PuntReasonW::get(r0)?;
            Ok((TableActionW::Punt { reason }, r1))
        } else {
            Err(DecodeError::UnknownTag)
        }
    }
}

#[derive(Debug, Clone, Copy, PartialEq, Eq, Hash, Structural)]
pub struct TableEntryW {
    pub id: EntryIdW,
    pub key: u64,
    pub prefix_len: u8,
    pub priority: i32,
    pub action: TableActionW,
}

impl Wire for TableEntryW {
    type V = TableEntryW;

    open spec fn val(&self) -> TableEntryW {
        *self
    }

    open spec fn bytes(v: TableEntryW) -> Seq<u8> {
        EntryIdW::bytes(v.id) + (u64::bytes(v.key) + (u8::bytes(v.prefix_len) + (i32::bytes(v.priority) + (TableActionW::bytes(v.action)))))
    }

    open spec fn parse(b: Seq<u8>) -> Option<(TableEntryW, Seq<u8>)> {
        match EntryIdW::parse(b) {
            Some((id, r1)) => match u64::parse(r1) {
                Some((key, r2)) => match u8::parse(r2) {
                    Some((prefix_len, r3)) => match i32::parse(r3) {
                        Some((priority, r4)) => match TableActionW::parse(r4) {
                            Some((action, r5)) => Some((TableEntryW { id, key, prefix_len, priority, action }, r5)),
                            None => None,
                        },
                        None => None,
                    },
                    None => None,
                },
                None => None,
            },
            None => None,
        }
    }

    open spec fn fits(v: TableEntryW) -> bool {
        true
    }

    proof fn reads_back(v: TableEntryW, rest: Seq<u8>) {
        EntryIdW::reads_back(v.id, u64::bytes(v.key) + (u8::bytes(v.prefix_len) + (i32::bytes(v.priority) + (TableActionW::bytes(v.action) + rest))));
        u64::reads_back(v.key, u8::bytes(v.prefix_len) + (i32::bytes(v.priority) + (TableActionW::bytes(v.action) + rest)));
        u8::reads_back(v.prefix_len, i32::bytes(v.priority) + (TableActionW::bytes(v.action) + rest));
        i32::reads_back(v.priority, TableActionW::bytes(v.action) + rest);
        TableActionW::reads_back(v.action, rest);
        lemma_assoc(i32::bytes(v.priority), TableActionW::bytes(v.action), rest);
        lemma_assoc(u8::bytes(v.prefix_len), i32::bytes(v.priority) + (TableActionW::bytes(v.action)), rest);
        lemma_assoc(u64::bytes(v.key), u8::bytes(v.prefix_len) + (i32::bytes(v.priority) + (TableActionW::bytes(v.action))), rest);
        lemma_assoc(EntryIdW::bytes(v.id), u64::bytes(v.key) + (u8::bytes(v.prefix_len) + (i32::bytes(v.priority) + (TableActionW::bytes(v.action)))), rest);
    }

    fn put(&self, out: &mut Vec<u8>) {
        self.id.put(out);
        self.key.put(out);
        self.prefix_len.put(out);
        self.priority.put(out);
        self.action.put(out);
        proof {
            lemma_assoc(((old(out)@ + EntryIdW::bytes(self.id)) + u64::bytes(self.key)) + u8::bytes(self.prefix_len), i32::bytes(self.priority), TableActionW::bytes(self.action));
            lemma_assoc((old(out)@ + EntryIdW::bytes(self.id)) + u64::bytes(self.key), u8::bytes(self.prefix_len), i32::bytes(self.priority) + (TableActionW::bytes(self.action)));
            lemma_assoc(old(out)@ + EntryIdW::bytes(self.id), u64::bytes(self.key), u8::bytes(self.prefix_len) + (i32::bytes(self.priority) + (TableActionW::bytes(self.action))));
            lemma_assoc(old(out)@, EntryIdW::bytes(self.id), u64::bytes(self.key) + (u8::bytes(self.prefix_len) + (i32::bytes(self.priority) + (TableActionW::bytes(self.action)))));
        }
    }

    fn get<'a>(b: &'a [u8]) -> (r: Result<(TableEntryW, &'a [u8]), DecodeError>) {
        let (id, r1) = EntryIdW::get(b)?;
        let (key, r2) = u64::get(r1)?;
        let (prefix_len, r3) = u8::get(r2)?;
        let (priority, r4) = i32::get(r3)?;
        let (action, r5) = TableActionW::get(r4)?;
        Ok((TableEntryW { id, key, prefix_len, priority, action }, r5))
    }
}

#[derive(Debug)]
pub struct TableDeclW {
    pub id: TableIdW,
    pub kind: MatchKindW,
    pub max_entries: u32,
    pub initial_entries: Vec<TableEntryW>,
}

/// What a `TableDeclW` says.
#[verifier::ext_equal]
pub struct TableDeclV {
    pub id: TableIdW,
    pub kind: MatchKindW,
    pub max_entries: u32,
    pub initial_entries: Seq<TableEntryW>,
}

impl View for TableDeclW {
    type V = TableDeclV;

    open spec fn view(&self) -> TableDeclV {
        self.val()
    }
}

impl Wire for TableDeclW {
    type V = TableDeclV;

    open spec fn val(&self) -> TableDeclV {
        TableDeclV {
            id: self.id,
            kind: self.kind,
            max_entries: self.max_entries,
            initial_entries: self.initial_entries.val(),
        }
    }

    open spec fn bytes(v: TableDeclV) -> Seq<u8> {
        TableIdW::bytes(v.id) + (MatchKindW::bytes(v.kind) + (u32::bytes(v.max_entries) + (<Vec<TableEntryW> as Wire>::bytes(v.initial_entries))))
    }

    open spec fn parse(b: Seq<u8>) -> Option<(TableDeclV, Seq<u8>)> {
        match TableIdW::parse(b) {
            Some((id, r1)) => match MatchKindW::parse(r1) {
                Some((kind, r2)) => match u32::parse(r2) {
                    Some((max_entries, r3)) => match <Vec<TableEntryW> as Wire>::parse(r3) {
                        Some((initial_entries, r4)) => Some((TableDeclV { id, kind, max_entries, initial_entries }, r4)),
                        None => None,
                    },
                    None => None,
                },
                None => None,
            },
            None => None,
        }
    }

    open spec fn fits(v: TableDeclV) -> bool {
        <Vec<TableEntryW> as Wire>::fits(v.initial_entries)
    }

    proof fn reads_back(v: TableDeclV, rest: Seq<u8>) {
        TableIdW::reads_back(v.id, MatchKindW::bytes(v.kind) + (u32::bytes(v.max_entries) + (<Vec<TableEntryW> as Wire>::bytes(v.initial_entries) + rest)));
        MatchKindW::reads_back(v.kind, u32::bytes(v.max_entries) + (<Vec<TableEntryW> as Wire>::bytes(v.initial_entries) + rest));
        u32::reads_back(v.max_entries, <Vec<TableEntryW> as Wire>::bytes(v.initial_entries) + rest);
        <Vec<TableEntryW> as Wire>::reads_back(v.initial_entries, rest);
        lemma_assoc(u32::bytes(v.max_entries), <Vec<TableEntryW> as Wire>::bytes(v.initial_entries), rest);
        lemma_assoc(MatchKindW::bytes(v.kind), u32::bytes(v.max_entries) + (<Vec<TableEntryW> as Wire>::bytes(v.initial_entries)), rest);
        lemma_assoc(TableIdW::bytes(v.id), MatchKindW::bytes(v.kind) + (u32::bytes(v.max_entries) + (<Vec<TableEntryW> as Wire>::bytes(v.initial_entries))), rest);
    }

    fn put(&self, out: &mut Vec<u8>) {
        self.id.put(out);
        self.kind.put(out);
        self.max_entries.put(out);
        self.initial_entries.put(out);
        proof {
            lemma_assoc((old(out)@ + TableIdW::bytes(self.id)) + MatchKindW::bytes(self.kind), u32::bytes(self.max_entries), <Vec<TableEntryW> as Wire>::bytes(self.initial_entries.val()));
            lemma_assoc(old(out)@ + TableIdW::bytes(self.id), MatchKindW::bytes(self.kind), u32::bytes(self.max_entries) + (<Vec<TableEntryW> as Wire>::bytes(self.initial_entries.val())));
            lemma_assoc(old(out)@, TableIdW::bytes(self.id), MatchKindW::bytes(self.kind) + (u32::bytes(self.max_entries) + (<Vec<TableEntryW> as Wire>::bytes(self.initial_entries.val()))));
        }
    }

    fn get<'a>(b: &'a [u8]) -> (r: Result<(TableDeclW, &'a [u8]), DecodeError>) {
        let (id, r1) = TableIdW::get(b)?;
        let (kind, r2) = MatchKindW::get(r1)?;
        let (max_entries, r3) = u32::get(r2)?;
        let (initial_entries, r4) = <Vec<TableEntryW> as Wire>::get(r3)?;
        Ok((TableDeclW { id, kind, max_entries, initial_entries }, r4))
    }
}

#[derive(Debug, Clone, Copy, PartialEq, Eq, Hash, Structural)]
pub struct RegisterDeclW {
    pub id: RegisterArrayIdW,
    pub size: u32,
}

impl Wire for RegisterDeclW {
    type V = RegisterDeclW;

    open spec fn val(&self) -> RegisterDeclW {
        *self
    }

    open spec fn bytes(v: RegisterDeclW) -> Seq<u8> {
        RegisterArrayIdW::bytes(v.id) + (u32::bytes(v.size))
    }

    open spec fn parse(b: Seq<u8>) -> Option<(RegisterDeclW, Seq<u8>)> {
        match RegisterArrayIdW::parse(b) {
            Some((id, r1)) => match u32::parse(r1) {
                Some((size, r2)) => Some((RegisterDeclW { id, size }, r2)),
                None => None,
            },
            None => None,
        }
    }

    open spec fn fits(v: RegisterDeclW) -> bool {
        true
    }

    proof fn reads_back(v: RegisterDeclW, rest: Seq<u8>) {
        RegisterArrayIdW::reads_back(v.id, u32::bytes(v.size) + rest);
        u32::reads_back(v.size, rest);
        lemma_assoc(RegisterArrayIdW::bytes(v.id), u32::bytes(v.size), rest);
    }

    fn put(&self, out: &mut Vec<u8>) {
        self.id.put(out);
        self.size.put(out);
        proof {
            lemma_assoc(old(out)@, RegisterArrayIdW::bytes(self.id), u32::bytes(self.size));
        }
    }

    fn get<'a>(b: &'a [u8]) -> (r: Result<(RegisterDeclW, &'a [u8]), DecodeError>) {
        let (id, r1) = RegisterArrayIdW::get(b)?;
        let (size, r2) = u32::get(r1)?;
        Ok((RegisterDeclW { id, size }, r2))
    }
}

#[derive(Debug, Clone, Copy, PartialEq, Eq, Hash, Structural)]
pub struct CounterDeclW {
    pub id: CounterArrayIdW,
    pub size: u32,
}

impl Wire for CounterDeclW {
    type V = CounterDeclW;

    open spec fn val(&self) -> CounterDeclW {
        *self
    }

    open spec fn bytes(v: CounterDeclW) -> Seq<u8> {
        CounterArrayIdW::bytes(v.id) + (u32::bytes(v.size))
    }

    open spec fn parse(b: Seq<u8>) -> Option<(CounterDeclW, Seq<u8>)> {
        match CounterArrayIdW::parse(b) {
            Some((id, r1)) => match u32::parse(r1) {
                Some((size, r2)) => Some((CounterDeclW { id, size }, r2)),
                None => None,
            },
            None => None,
        }
    }

    open spec fn fits(v: CounterDeclW) -> bool {
        true
    }

    proof fn reads_back(v: CounterDeclW, rest: Seq<u8>) {
        CounterArrayIdW::reads_back(v.id, u32::bytes(v.size) + rest);
        u32::reads_back(v.size, rest);
        lemma_assoc(CounterArrayIdW::bytes(v.id), u32::bytes(v.size), rest);
    }

    fn put(&self, out: &mut Vec<u8>) {
        self.id.put(out);
        self.size.put(out);
        proof {
            lemma_assoc(old(out)@, CounterArrayIdW::bytes(self.id), u32::bytes(self.size));
        }
    }

    fn get<'a>(b: &'a [u8]) -> (r: Result<(CounterDeclW, &'a [u8]), DecodeError>) {
        let (id, r1) = CounterArrayIdW::get(b)?;
        let (size, r2) = u32::get(r1)?;
        Ok((CounterDeclW { id, size }, r2))
    }
}

/// What `init` returns: the data plane's program plus state declarations.
#[derive(Debug)]
pub struct ProgramSetupW {
    pub program: TinyProgramW,
    pub tables: Vec<TableDeclW>,
    pub registers: Vec<RegisterDeclW>,
    pub counters: Vec<CounterDeclW>,
}

/// What a `ProgramSetupW` says.
#[verifier::ext_equal]
pub struct ProgramSetupV {
    pub program: TinyProgramV,
    pub tables: Seq<TableDeclV>,
    pub registers: Seq<RegisterDeclW>,
    pub counters: Seq<CounterDeclW>,
}

impl View for ProgramSetupW {
    type V = ProgramSetupV;

    open spec fn view(&self) -> ProgramSetupV {
        self.val()
    }
}

impl Wire for ProgramSetupW {
    type V = ProgramSetupV;

    open spec fn val(&self) -> ProgramSetupV {
        ProgramSetupV {
            program: self.program.val(),
            tables: self.tables.val(),
            registers: self.registers.val(),
            counters: self.counters.val(),
        }
    }

    open spec fn bytes(v: ProgramSetupV) -> Seq<u8> {
        TinyProgramW::bytes(v.program) + (<Vec<TableDeclW> as Wire>::bytes(v.tables) + (<Vec<RegisterDeclW> as Wire>::bytes(v.registers) + (<Vec<CounterDeclW> as Wire>::bytes(v.counters))))
    }

    open spec fn parse(b: Seq<u8>) -> Option<(ProgramSetupV, Seq<u8>)> {
        match TinyProgramW::parse(b) {
            Some((program, r1)) => match <Vec<TableDeclW> as Wire>::parse(r1) {
                Some((tables, r2)) => match <Vec<RegisterDeclW> as Wire>::parse(r2) {
                    Some((registers, r3)) => match <Vec<CounterDeclW> as Wire>::parse(r3) {
                        Some((counters, r4)) => Some((ProgramSetupV { program, tables, registers, counters }, r4)),
                        None => None,
                    },
                    None => None,
                },
                None => None,
            },
            None => None,
        }
    }

    open spec fn fits(v: ProgramSetupV) -> bool {
        TinyProgramW::fits(v.program) && <Vec<TableDeclW> as Wire>::fits(v.tables) && <Vec<RegisterDeclW> as Wire>::fits(v.registers) && <Vec<CounterDeclW> as Wire>::fits(v.counters)
    }

    proof fn reads_back(v: ProgramSetupV, rest: Seq<u8>) {
        TinyProgramW::reads_back(v.program, <Vec<TableDeclW> as Wire>::bytes(v.tables) + (<Vec<RegisterDeclW> as Wire>::bytes(v.registers) + (<Vec<CounterDeclW> as Wire>::bytes(v.counters) + rest)));
        <Vec<TableDeclW> as Wire>::reads_back(v.tables, <Vec<RegisterDeclW> as Wire>::bytes(v.registers) + (<Vec<CounterDeclW> as Wire>::bytes(v.counters) + rest));
        <Vec<RegisterDeclW> as Wire>::reads_back(v.registers, <Vec<CounterDeclW> as Wire>::bytes(v.counters) + rest);
        <Vec<CounterDeclW> as Wire>::reads_back(v.counters, rest);
        lemma_assoc(<Vec<RegisterDeclW> as Wire>::bytes(v.registers), <Vec<CounterDeclW> as Wire>::bytes(v.counters), rest);
        lemma_assoc(<Vec<TableDeclW> as Wire>::bytes(v.tables), <Vec<RegisterDeclW> as Wire>::bytes(v.registers) + (<Vec<CounterDeclW> as Wire>::bytes(v.counters)), rest);
        lemma_assoc(TinyProgramW::bytes(v.program), <Vec<TableDeclW> as Wire>::bytes(v.tables) + (<Vec<RegisterDeclW> as Wire>::bytes(v.registers) + (<Vec<CounterDeclW> as Wire>::bytes(v.counters))), rest);
    }

    fn put(&self, out: &mut Vec<u8>) {
        self.program.put(out);
        self.tables.put(out);
        self.registers.put(out);
        self.counters.put(out);
        proof {
            lemma_assoc((old(out)@ + TinyProgramW::bytes(self.program.val())) + <Vec<TableDeclW> as Wire>::bytes(self.tables.val()), <Vec<RegisterDeclW> as Wire>::bytes(self.registers.val()), <Vec<CounterDeclW> as Wire>::bytes(self.counters.val()));
            lemma_assoc(old(out)@ + TinyProgramW::bytes(self.program.val()), <Vec<TableDeclW> as Wire>::bytes(self.tables.val()), <Vec<RegisterDeclW> as Wire>::bytes(self.registers.val()) + (<Vec<CounterDeclW> as Wire>::bytes(self.counters.val())));
            lemma_assoc(old(out)@, TinyProgramW::bytes(self.program.val()), <Vec<TableDeclW> as Wire>::bytes(self.tables.val()) + (<Vec<RegisterDeclW> as Wire>::bytes(self.registers.val()) + (<Vec<CounterDeclW> as Wire>::bytes(self.counters.val()))));
        }
    }

    fn get<'a>(b: &'a [u8]) -> (r: Result<(ProgramSetupW, &'a [u8]), DecodeError>) {
        let (program, r1) = TinyProgramW::get(b)?;
        let (tables, r2) = <Vec<TableDeclW> as Wire>::get(r1)?;
        let (registers, r3) = <Vec<RegisterDeclW> as Wire>::get(r2)?;
        let (counters, r4) = <Vec<CounterDeclW> as Wire>::get(r3)?;
        Ok((ProgramSetupW { program, tables, registers, counters }, r4))
    }
}

#[derive(Debug)]
pub struct InitInputW {
    pub switch_id: u32,
    /// Local port ids that have a link attached. Which port leads where is not
    /// said.
    pub local_ports: Vec<u16>,
}

/// What a `InitInputW` says.
#[verifier::ext_equal]
pub struct InitInputV {
    pub switch_id: u32,
    pub local_ports: Seq<u16>,
}

impl View for InitInputW {
    type V = InitInputV;

    open spec fn view(&self) -> InitInputV {
        self.val()
    }
}

impl Wire for InitInputW {
    type V = InitInputV;

    open spec fn val(&self) -> InitInputV {
        InitInputV {
            switch_id: self.switch_id,
            local_ports: self.local_ports.val(),
        }
    }

    open spec fn bytes(v: InitInputV) -> Seq<u8> {
        u32::bytes(v.switch_id) + (<Vec<u16> as Wire>::bytes(v.local_ports))
    }

    open spec fn parse(b: Seq<u8>) -> Option<(InitInputV, Seq<u8>)> {
        match u32::parse(b) {
            Some((switch_id, r1)) => match <Vec<u16> as Wire>::parse(r1) {
                Some((local_ports, r2)) => Some((InitInputV { switch_id, local_ports }, r2)),
                None => None,
            },
            None => None,
        }
    }

    open spec fn fits(v: InitInputV) -> bool {
        <Vec<u16> as Wire>::fits(v.local_ports)
    }

    proof fn reads_back(v: InitInputV, rest: Seq<u8>) {
        u32::reads_back(v.switch_id, <Vec<u16> as Wire>::bytes(v.local_ports) + rest);
        <Vec<u16> as Wire>::reads_back(v.local_ports, rest);
        lemma_assoc(u32::bytes(v.switch_id), <Vec<u16> as Wire>::bytes(v.local_ports), rest);
    }

    fn put(&self, out: &mut Vec<u8>) {
        self.switch_id.put(out);
        self.local_ports.put(out);
        proof {
            lemma_assoc(old(out)@, u32::bytes(self.switch_id), <Vec<u16> as Wire>::bytes(self.local_ports.val()));
        }
    }

    fn get<'a>(b: &'a [u8]) -> (r: Result<(InitInputW, &'a [u8]), DecodeError>) {
        let (switch_id, r1) = u32::get(b)?;
        let (local_ports, r2) = <Vec<u16> as Wire>::get(r1)?;
        Ok((InitInputW { switch_id, local_ports }, r2))
    }
}

#[derive(Debug)]
pub struct PuntEventW {
    pub now_ns: u64,
    pub switch_id: u32,
    pub ingress_port: u16,
    pub reason: PuntReasonW,
    pub packet_size: u64,
    pub ip_src: u32,
    pub ip_dst: u32,
    pub ip_proto: u8,
    pub ip_ttl: u8,
    pub payload: Vec<u8>,
}

/// What a `PuntEventW` says.
#[verifier::ext_equal]
pub struct PuntEventV {
    pub now_ns: u64,
    pub switch_id: u32,
    pub ingress_port: u16,
    pub reason: PuntReasonW,
    pub packet_size: u64,
    pub ip_src: u32,
    pub ip_dst: u32,
    pub ip_proto: u8,
    pub ip_ttl: u8,
    pub payload: Seq<u8>,
}

impl View for PuntEventW {
    type V = PuntEventV;

    open spec fn view(&self) -> PuntEventV {
        self.val()
    }
}

impl Wire for PuntEventW {
    type V = PuntEventV;

    open spec fn val(&self) -> PuntEventV {
        PuntEventV {
            now_ns: self.now_ns,
            switch_id: self.switch_id,
            ingress_port: self.ingress_port,
            reason: self.reason,
            packet_size: self.packet_size,
            ip_src: self.ip_src,
            ip_dst: self.ip_dst,
            ip_proto: self.ip_proto,
            ip_ttl: self.ip_ttl,
            payload: self.payload.val(),
        }
    }

    open spec fn bytes(v: PuntEventV) -> Seq<u8> {
        u64::bytes(v.now_ns) + (u32::bytes(v.switch_id) + (u16::bytes(v.ingress_port) + (PuntReasonW::bytes(v.reason) + (u64::bytes(v.packet_size) + (u32::bytes(v.ip_src) + (u32::bytes(v.ip_dst) + (u8::bytes(v.ip_proto) + (u8::bytes(v.ip_ttl) + (<Vec<u8> as Wire>::bytes(v.payload))))))))))
    }

    open spec fn parse(b: Seq<u8>) -> Option<(PuntEventV, Seq<u8>)> {
        match u64::parse(b) {
            Some((now_ns, r1)) => match u32::parse(r1) {
                Some((switch_id, r2)) => match u16::parse(r2) {
                    Some((ingress_port, r3)) => match PuntReasonW::parse(r3) {
                        Some((reason, r4)) => match u64::parse(r4) {
                            Some((packet_size, r5)) => match u32::parse(r5) {
                                Some((ip_src, r6)) => match u32::parse(r6) {
                                    Some((ip_dst, r7)) => match u8::parse(r7) {
                                        Some((ip_proto, r8)) => match u8::parse(r8) {
                                            Some((ip_ttl, r9)) => match <Vec<u8> as Wire>::parse(r9) {
                                                Some((payload, r10)) => Some((PuntEventV { now_ns, switch_id, ingress_port, reason, packet_size, ip_src, ip_dst, ip_proto, ip_ttl, payload }, r10)),
                                                None => None,
                                            },
                                            None => None,
                                        },
                                        None => None,
                                    },
                                    None => None,
                                },
                                None => None,
                            },
                            None => None,
                        },
                        None => None,
                    },
                    None => None,
                },
                None => None,
            },
            None => None,
        }
    }

    open spec fn fits(v: PuntEventV) -> bool {
        <Vec<u8> as Wire>::fits(v.payload)
    }

    proof fn reads_back(v: PuntEventV, rest: Seq<u8>) {
        u64::reads_back(v.now_ns, u32::bytes(v.switch_id) + (u16::bytes(v.ingress_port) + (PuntReasonW::bytes(v.reason) + (u64::bytes(v.packet_size) + (u32::bytes(v.ip_src) + (u32::bytes(v.ip_dst) + (u8::bytes(v.ip_proto) + (u8::bytes(v.ip_ttl) + (<Vec<u8> as Wire>::bytes(v.payload) + rest)))))))));
        u32::reads_back(v.switch_id, u16::bytes(v.ingress_port) + (PuntReasonW::bytes(v.reason) + (u64::bytes(v.packet_size) + (u32::bytes(v.ip_src) + (u32::bytes(v.ip_dst) + (u8::bytes(v.ip_proto) + (u8::bytes(v.ip_ttl) + (<Vec<u8> as Wire>::bytes(v.payload) + rest))))))));
        u16::reads_back(v.ingress_port, PuntReasonW::bytes(v.reason) + (u64::bytes(v.packet_size) + (u32::bytes(v.ip_src) + (u32::bytes(v.ip_dst) + (u8::bytes(v.ip_proto) + (u8::bytes(v.ip_ttl) + (<Vec<u8> as Wire>::bytes(v.payload) + rest)))))));
        PuntReasonW::reads_back(v.reason, u64::bytes(v.packet_size) + (u32::bytes(v.ip_src) + (u32::bytes(v.ip_dst) + (u8::bytes(v.ip_proto) + (u8::bytes(v.ip_ttl) + (<Vec<u8> as Wire>::bytes(v.payload) + rest))))));
        u64::reads_back(v.packet_size, u32::bytes(v.ip_src) + (u32::bytes(v.ip_dst) + (u8::bytes(v.ip_proto) + (u8::bytes(v.ip_ttl) + (<Vec<u8> as Wire>::bytes(v.payload) + rest)))));
        u32::reads_back(v.ip_src, u32::bytes(v.ip_dst) + (u8::bytes(v.ip_proto) + (u8::bytes(v.ip_ttl) + (<Vec<u8> as Wire>::bytes(v.payload) + rest))));
        u32::reads_back(v.ip_dst, u8::bytes(v.ip_proto) + (u8::bytes(v.ip_ttl) + (<Vec<u8> as Wire>::bytes(v.payload) + rest)));
        u8::reads_back(v.ip_proto, u8::bytes(v.ip_ttl) + (<Vec<u8> as Wire>::bytes(v.payload) + rest));
        u8::reads_back(v.ip_ttl, <Vec<u8> as Wire>::bytes(v.payload) + rest);
        <Vec<u8> as Wire>::reads_back(v.payload, rest);
        lemma_assoc(u8::bytes(v.ip_ttl), <Vec<u8> as Wire>::bytes(v.payload), rest);
        lemma_assoc(u8::bytes(v.ip_proto), u8::bytes(v.ip_ttl) + (<Vec<u8> as Wire>::bytes(v.payload)), rest);
        lemma_assoc(u32::bytes(v.ip_dst), u8::bytes(v.ip_proto) + (u8::bytes(v.ip_ttl) + (<Vec<u8> as Wire>::bytes(v.payload))), rest);
        lemma_assoc(u32::bytes(v.ip_src), u32::bytes(v.ip_dst) + (u8::bytes(v.ip_proto) + (u8::bytes(v.ip_ttl) + (<Vec<u8> as Wire>::bytes(v.payload)))), rest);
        lemma_assoc(u64::bytes(v.packet_size), u32::bytes(v.ip_src) + (u32::bytes(v.ip_dst) + (u8::bytes(v.ip_proto) + (u8::bytes(v.ip_ttl) + (<Vec<u8> as Wire>::bytes(v.payload))))), rest);
        lemma_assoc(PuntReasonW::bytes(v.reason), u64::bytes(v.packet_size) + (u32::bytes(v.ip_src) + (u32::bytes(v.ip_dst) + (u8::bytes(v.ip_proto) + (u8::bytes(v.ip_ttl) + (<Vec<u8> as Wire>::bytes(v.payload)))))), rest);
        lemma_assoc(u16::bytes(v.ingress_port), PuntReasonW::bytes(v.reason) + (u64::bytes(v.packet_size) + (u32::bytes(v.ip_src) + (u32::bytes(v.ip_dst) + (u8::bytes(v.ip_proto) + (u8::bytes(v.ip_ttl) + (<Vec<u8> as Wire>::bytes(v.payload))))))), rest);
        lemma_assoc(u32::bytes(v.switch_id), u16::bytes(v.ingress_port) + (PuntReasonW::bytes(v.reason) + (u64::bytes(v.packet_size) + (u32::bytes(v.ip_src) + (u32::bytes(v.ip_dst) + (u8::bytes(v.ip_proto) + (u8::bytes(v.ip_ttl) + (<Vec<u8> as Wire>::bytes(v.payload)))))))), rest);
        lemma_assoc(u64::bytes(v.now_ns), u32::bytes(v.switch_id) + (u16::bytes(v.ingress_port) + (PuntReasonW::bytes(v.reason) + (u64::bytes(v.packet_size) + (u32::bytes(v.ip_src) + (u32::bytes(v.ip_dst) + (u8::bytes(v.ip_proto) + (u8::bytes(v.ip_ttl) + (<Vec<u8> as Wire>::bytes(v.payload))))))))), rest);
    }

    fn put(&self, out: &mut Vec<u8>) {
        self.now_ns.put(out);
        self.switch_id.put(out);
        self.ingress_port.put(out);
        self.reason.put(out);
        self.packet_size.put(out);
        self.ip_src.put(out);
        self.ip_dst.put(out);
        self.ip_proto.put(out);
        self.ip_ttl.put(out);
        self.payload.put(out);
        proof {
            lemma_assoc((((((((old(out)@ + u64::bytes(self.now_ns)) + u32::bytes(self.switch_id)) + u16::bytes(self.ingress_port)) + PuntReasonW::bytes(self.reason)) + u64::bytes(self.packet_size)) + u32::bytes(self.ip_src)) + u32::bytes(self.ip_dst)) + u8::bytes(self.ip_proto), u8::bytes(self.ip_ttl), <Vec<u8> as Wire>::bytes(self.payload.val()));
            lemma_assoc(((((((old(out)@ + u64::bytes(self.now_ns)) + u32::bytes(self.switch_id)) + u16::bytes(self.ingress_port)) + PuntReasonW::bytes(self.reason)) + u64::bytes(self.packet_size)) + u32::bytes(self.ip_src)) + u32::bytes(self.ip_dst), u8::bytes(self.ip_proto), u8::bytes(self.ip_ttl) + (<Vec<u8> as Wire>::bytes(self.payload.val())));
            lemma_assoc((((((old(out)@ + u64::bytes(self.now_ns)) + u32::bytes(self.switch_id)) + u16::bytes(self.ingress_port)) + PuntReasonW::bytes(self.reason)) + u64::bytes(self.packet_size)) + u32::bytes(self.ip_src), u32::bytes(self.ip_dst), u8::bytes(self.ip_proto) + (u8::bytes(self.ip_ttl) + (<Vec<u8> as Wire>::bytes(self.payload.val()))));
            lemma_assoc(((((old(out)@ + u64::bytes(self.now_ns)) + u32::bytes(self.switch_id)) + u16::bytes(self.ingress_port)) + PuntReasonW::bytes(self.reason)) + u64::bytes(self.packet_size), u32::bytes(self.ip_src), u32::bytes(self.ip_dst) + (u8::bytes(self.ip_proto) + (u8::bytes(self.ip_ttl) + (<Vec<u8> as Wire>::bytes(self.payload.val())))));
            lemma_assoc((((old(out)@ + u64::bytes(self.now_ns)) + u32::bytes(self.switch_id)) + u16::bytes(self.ingress_port)) + PuntReasonW::bytes(self.reason), u64::bytes(self.packet_size), u32::bytes(self.ip_src) + (u32::bytes(self.ip_dst) + (u8::bytes(self.ip_proto) + (u8::bytes(self.ip_ttl) + (<Vec<u8> as Wire>::bytes(self.payload.val()))))));
            lemma_assoc(((old(out)@ + u64::bytes(self.now_ns)) + u32::bytes(self.switch_id)) + u16::bytes(self.ingress_port), PuntReasonW::bytes(self.reason), u64::bytes(self.packet_size) + (u32::bytes(self.ip_src) + (u32::bytes(self.ip_dst) + (u8::bytes(self.ip_proto) + (u8::bytes(self.ip_ttl) + (<Vec<u8> as Wire>::bytes(self.payload.val())))))));
            lemma_assoc((old(out)@ + u64::bytes(self.now_ns)) + u32::bytes(self.switch_id), u16::bytes(self.ingress_port), PuntReasonW::bytes(self.reason) + (u64::bytes(self.packet_size) + (u32::bytes(self.ip_src) + (u32::bytes(self.ip_dst) + (u8::bytes(self.ip_proto) + (u8::bytes(self.ip_ttl) + (<Vec<u8> as Wire>::bytes(self.payload.val()))))))));
            lemma_assoc(old(out)@ + u64::bytes(self.now_ns), u32::bytes(self.switch_id), u16::bytes(self.ingress_port) + (PuntReasonW::bytes(self.reason) + (u64::bytes(self.packet_size) + (u32::bytes(self.ip_src) + (u32::bytes(self.ip_dst) + (u8::bytes(self.ip_proto) + (u8::bytes(self.ip_ttl) + (<Vec<u8> as Wire>::bytes(self.payload.val())))))))));
            lemma_assoc(old(out)@, u64::bytes(self.now_ns), u32::bytes(self.switch_id) + (u16::bytes(self.ingress_port) + (PuntReasonW::bytes(self.reason) + (u64::bytes(self.packet_size) + (u32::bytes(self.ip_src) + (u32::bytes(self.ip_dst) + (u8::bytes(self.ip_proto) + (u8::bytes(self.ip_ttl) + (<Vec<u8> as Wire>::bytes(self.payload.val()))))))))));
        }
    }

    fn get<'a>(b: &'a [u8]) -> (r: Result<(PuntEventW, &'a [u8]), DecodeError>) {
        let (now_ns, r1) = u64::get(b)?;
        let (switch_id, r2) = u32::get(r1)?;
        let (ingress_port, r3) = u16::get(r2)?;
        let (reason, r4) = PuntReasonW::get(r3)?;
        let (packet_size, r5) = u64::get(r4)?;
        let (ip_src, r6) = u32::get(r5)?;
        let (ip_dst, r7) = u32::get(r6)?;
        let (ip_proto, r8) = u8::get(r7)?;
        let (ip_ttl, r9) = u8::get(r8)?;
        let (payload, r10) = <Vec<u8> as Wire>::get(r9)?;
        Ok((PuntEventW { now_ns, switch_id, ingress_port, reason, packet_size, ip_src, ip_dst, ip_proto, ip_ttl, payload }, r10))
    }
}

#[derive(Debug, Clone, Copy, PartialEq, Eq, Hash, Structural)]
pub struct LinkEventW {
    /// 0 = up, 1 = down
    pub kind: u8,
    pub port: u16,
}

impl Wire for LinkEventW {
    type V = LinkEventW;

    open spec fn val(&self) -> LinkEventW {
        *self
    }

    open spec fn bytes(v: LinkEventW) -> Seq<u8> {
        u8::bytes(v.kind) + (u16::bytes(v.port))
    }

    open spec fn parse(b: Seq<u8>) -> Option<(LinkEventW, Seq<u8>)> {
        match u8::parse(b) {
            Some((kind, r1)) => match u16::parse(r1) {
                Some((port, r2)) => Some((LinkEventW { kind, port }, r2)),
                None => None,
            },
            None => None,
        }
    }

    open spec fn fits(v: LinkEventW) -> bool {
        true
    }

    proof fn reads_back(v: LinkEventW, rest: Seq<u8>) {
        u8::reads_back(v.kind, u16::bytes(v.port) + rest);
        u16::reads_back(v.port, rest);
        lemma_assoc(u8::bytes(v.kind), u16::bytes(v.port), rest);
    }

    fn put(&self, out: &mut Vec<u8>) {
        self.kind.put(out);
        self.port.put(out);
        proof {
            lemma_assoc(old(out)@, u8::bytes(self.kind), u16::bytes(self.port));
        }
    }

    fn get<'a>(b: &'a [u8]) -> (r: Result<(LinkEventW, &'a [u8]), DecodeError>) {
        let (kind, r1) = u8::get(b)?;
        let (port, r2) = u16::get(r1)?;
        Ok((LinkEventW { kind, port }, r2))
    }
}

#[derive(Debug, Clone, Copy, PartialEq, Eq, Hash, Structural)]
pub struct TimerEventW {
    pub now_ns: u64,
}

impl Wire for TimerEventW {
    type V = TimerEventW;

    open spec fn val(&self) -> TimerEventW {
        *self
    }

    open spec fn bytes(v: TimerEventW) -> Seq<u8> {
        u64::bytes(v.now_ns)
    }

    open spec fn parse(b: Seq<u8>) -> Option<(TimerEventW, Seq<u8>)> {
        match u64::parse(b) {
            Some((now_ns, r1)) => Some((TimerEventW { now_ns }, r1)),
            None => None,
        }
    }

    open spec fn fits(v: TimerEventW) -> bool {
        true
    }

    proof fn reads_back(v: TimerEventW, rest: Seq<u8>) {
        u64::reads_back(v.now_ns, rest);
    }

    fn put(&self, out: &mut Vec<u8>) {
        self.now_ns.put(out);
    }

    fn get<'a>(b: &'a [u8]) -> (r: Result<(TimerEventW, &'a [u8]), DecodeError>) {
        let (now_ns, r1) = u64::get(b)?;
        Ok((TimerEventW { now_ns }, r1))
    }
}

#[derive(Debug)]
pub enum ActionW {
    InstallTableEntry { table_id: TableIdW, entry: TableEntryW },
    DeleteTableEntry { table_id: TableIdW, entry_id: EntryIdW },
    SetQueueConfig { port: PortIdW, capacity_bytes: u64 },
    /// `kind` is 0 for data, 1 for SimpleBGP, 2 for a trace probe, 3 for a trace
    /// reply.
    InjectPacket { port: PortIdW, ip_src: u32, ip_dst: u32, ip_proto: u8, ip_ttl: u8, kind: u8, size_bytes: u64, payload: Vec<u8> },
    /// Schedule a controller-timer callback `delay_ns` after now.
    ScheduleTimer { delay_ns: u64 },
}

/// What a `ActionW` says.
#[verifier::ext_equal]
pub enum ActionV {
    InstallTableEntry { table_id: TableIdW, entry: TableEntryW },
    DeleteTableEntry { table_id: TableIdW, entry_id: EntryIdW },
    SetQueueConfig { port: PortIdW, capacity_bytes: u64 },
    InjectPacket { port: PortIdW, ip_src: u32, ip_dst: u32, ip_proto: u8, ip_ttl: u8, kind: u8, size_bytes: u64, payload: Seq<u8> },
    ScheduleTimer { delay_ns: u64 },
}

impl View for ActionW {
    type V = ActionV;

    open spec fn view(&self) -> ActionV {
        self.val()
    }
}

impl Wire for ActionW {
    type V = ActionV;

    open spec fn val(&self) -> ActionV {
        match *self {
            ActionW::InstallTableEntry { table_id, entry } => ActionV::InstallTableEntry { table_id, entry },
            ActionW::DeleteTableEntry { table_id, entry_id } => ActionV::DeleteTableEntry { table_id, entry_id },
            ActionW::SetQueueConfig { port, capacity_bytes } => ActionV::SetQueueConfig { port, capacity_bytes },
            ActionW::InjectPacket { port, ip_src, ip_dst, ip_proto, ip_ttl, kind, size_bytes, payload } => ActionV::InjectPacket { port, ip_src, ip_dst, ip_proto, ip_ttl, kind, size_bytes, payload: payload.val() },
            ActionW::ScheduleTimer { delay_ns } => ActionV::ScheduleTimer { delay_ns },
        }
    }

    open spec fn bytes(v: ActionV) -> Seq<u8> {
        match v {
            ActionV::InstallTableEntry { table_id, entry } => u32::bytes(0) + (TableIdW::bytes(table_id) + (TableEntryW::bytes(entry))),
            ActionV::DeleteTableEntry { table_id, entry_id } => u32::bytes(1) + (TableIdW::bytes(table_id) + (EntryIdW::bytes(entry_id))),
            ActionV::SetQueueConfig { port, capacity_bytes } => u32::bytes(2) + (PortIdW::bytes(port) + (u64::bytes(capacity_bytes))),
            ActionV::InjectPacket { port, ip_src, ip_dst, ip_proto, ip_ttl, kind, size_bytes, payload } => u32::bytes(3) + (PortIdW::bytes(port) + (u32::bytes(ip_src) + (u32::bytes(ip_dst) + (u8::bytes(ip_proto) + (u8::bytes(ip_ttl) + (u8::bytes(kind) + (u64::bytes(size_bytes) + (<Vec<u8> as Wire>::bytes(payload))))))))),
            ActionV::ScheduleTimer { delay_ns } => u32::bytes(4) + (u64::bytes(delay_ns)),
        }
    }

    open spec fn parse(b: Seq<u8>) -> Option<(ActionV, Seq<u8>)> {
        match u32::parse(b) {
            Some((tag, r0)) => if tag == 0 {
                match TableIdW::parse(r0) {
                    Some((table_id, r1)) => match TableEntryW::parse(r1) {
                        Some((entry, r2)) => Some((ActionV::InstallTableEntry { table_id, entry }, r2)),
                        None => None,
                    },
                    None => None,
                }
            } else if tag == 1 {
                match TableIdW::parse(r0) {
                    Some((table_id, r1)) => match EntryIdW::parse(r1) {
                        Some((entry_id, r2)) => Some((ActionV::DeleteTableEntry { table_id, entry_id }, r2)),
                        None => None,
                    },
                    None => None,
                }
            } else if tag == 2 {
                match PortIdW::parse(r0) {
                    Some((port, r1)) => match u64::parse(r1) {
                        Some((capacity_bytes, r2)) => Some((ActionV::SetQueueConfig { port, capacity_bytes }, r2)),
                        None => None,
                    },
                    None => None,
                }
            } else if tag == 3 {
                match PortIdW::parse(r0) {
                    Some((port, r1)) => match u32::parse(r1) {
                        Some((ip_src, r2)) => match u32::parse(r2) {
                            Some((ip_dst, r3)) => match u8::parse(r3) {
                                Some((ip_proto, r4)) => match u8::parse(r4) {
                                    Some((ip_ttl, r5)) => match u8::parse(r5) {
                                        Some((kind, r6)) => match u64::parse(r6) {
                                            Some((size_bytes, r7)) => match <Vec<u8> as Wire>::parse(r7) {
                                                Some((payload, r8)) => Some((ActionV::InjectPacket { port, ip_src, ip_dst, ip_proto, ip_ttl, kind, size_bytes, payload }, r8)),
                                                None => None,
                                            },
                                            None => None,
                                        },
                                        None => None,
                                    },
                                    None => None,
                                },
                                None => None,
                            },
                            None => None,
                        },
                        None => None,
                    },
                    None => None,
                }
            } else if tag == 4 {
                match u64::parse(r0) {
                    Some((delay_ns, r1)) => Some((ActionV::ScheduleTimer { delay_ns }, r1)),
                    None => None,
                }
            } else {
                None
            },
            None => None,
        }
    }

    open spec fn fits(v: ActionV) -> bool {
        match v {
            ActionV::InjectPacket { payload, .. } => <Vec<u8> as Wire>::fits(payload),
            _ => true,
        }
    }

    proof fn reads_back(v: ActionV, rest: Seq<u8>) {
        match v {
            ActionV::InstallTableEntry { table_id, entry } => {
                u32::reads_back(0, TableIdW::bytes(table_id) + (TableEntryW::bytes(entry) + rest));
                TableIdW::reads_back(table_id, TableEntryW::bytes(entry) + rest);
                TableEntryW::reads_back(entry, rest);
                lemma_assoc(TableIdW::bytes(table_id), TableEntryW::bytes(entry), rest);
                lemma_assoc(u32::bytes(0), TableIdW::bytes(table_id) + (TableEntryW::bytes(entry)), rest);
            },
            ActionV::DeleteTableEntry { table_id, entry_id } => {
                u32::reads_back(1, TableIdW::bytes(table_id) + (EntryIdW::bytes(entry_id) + rest));
                TableIdW::reads_back(table_id, EntryIdW::bytes(entry_id) + rest);
                EntryIdW::reads_back(entry_id, rest);
                lemma_assoc(TableIdW::bytes(table_id), EntryIdW::bytes(entry_id), rest);
                lemma_assoc(u32::bytes(1), TableIdW::bytes(table_id) + (EntryIdW::bytes(entry_id)), rest);
            },
            ActionV::SetQueueConfig { port, capacity_bytes } => {
                u32::reads_back(2, PortIdW::bytes(port) + (u64::bytes(capacity_bytes) + rest));
                PortIdW::reads_back(port, u64::bytes(capacity_bytes) + rest);
                u64::reads_back(capacity_bytes, rest);
                lemma_assoc(PortIdW::bytes(port), u64::bytes(capacity_bytes), rest);
                lemma_assoc(u32::bytes(2), PortIdW::bytes(port) + (u64::bytes(capacity_bytes)), rest);
            },
            ActionV::InjectPacket { port, ip_src, ip_dst, ip_proto, ip_ttl, kind, size_bytes, payload } => {
                u32::reads_back(3, PortIdW::bytes(port) + (u32::bytes(ip_src) + (u32::bytes(ip_dst) + (u8::bytes(ip_proto) + (u8::bytes(ip_ttl) + (u8::bytes(kind) + (u64::bytes(size_bytes) + (<Vec<u8> as Wire>::bytes(payload) + rest))))))));
                PortIdW::reads_back(port, u32::bytes(ip_src) + (u32::bytes(ip_dst) + (u8::bytes(ip_proto) + (u8::bytes(ip_ttl) + (u8::bytes(kind) + (u64::bytes(size_bytes) + (<Vec<u8> as Wire>::bytes(payload) + rest)))))));
                u32::reads_back(ip_src, u32::bytes(ip_dst) + (u8::bytes(ip_proto) + (u8::bytes(ip_ttl) + (u8::bytes(kind) + (u64::bytes(size_bytes) + (<Vec<u8> as Wire>::bytes(payload) + rest))))));
                u32::reads_back(ip_dst, u8::bytes(ip_proto) + (u8::bytes(ip_ttl) + (u8::bytes(kind) + (u64::bytes(size_bytes) + (<Vec<u8> as Wire>::bytes(payload) + rest)))));
                u8::reads_back(ip_proto, u8::bytes(ip_ttl) + (u8::bytes(kind) + (u64::bytes(size_bytes) + (<Vec<u8> as Wire>::bytes(payload) + rest))));
                u8::reads_back(ip_ttl, u8::bytes(kind) + (u64::bytes(size_bytes) + (<Vec<u8> as Wire>::bytes(payload) + rest)));
                u8::reads_back(kind, u64::bytes(size_bytes) + (<Vec<u8> as Wire>::bytes(payload) + rest));
                u64::reads_back(size_bytes, <Vec<u8> as Wire>::bytes(payload) + rest);
                <Vec<u8> as Wire>::reads_back(payload, rest);
                lemma_assoc(u64::bytes(size_bytes), <Vec<u8> as Wire>::bytes(payload), rest);
                lemma_assoc(u8::bytes(kind), u64::bytes(size_bytes) + (<Vec<u8> as Wire>::bytes(payload)), rest);
                lemma_assoc(u8::bytes(ip_ttl), u8::bytes(kind) + (u64::bytes(size_bytes) + (<Vec<u8> as Wire>::bytes(payload))), rest);
                lemma_assoc(u8::bytes(ip_proto), u8::bytes(ip_ttl) + (u8::bytes(kind) + (u64::bytes(size_bytes) + (<Vec<u8> as Wire>::bytes(payload)))), rest);
                lemma_assoc(u32::bytes(ip_dst), u8::bytes(ip_proto) + (u8::bytes(ip_ttl) + (u8::bytes(kind) + (u64::bytes(size_bytes) + (<Vec<u8> as Wire>::bytes(payload))))), rest);
                lemma_assoc(u32::bytes(ip_src), u32::bytes(ip_dst) + (u8::bytes(ip_proto) + (u8::bytes(ip_ttl) + (u8::bytes(kind) + (u64::bytes(size_bytes) + (<Vec<u8> as Wire>::bytes(payload)))))), rest);
                lemma_assoc(PortIdW::bytes(port), u32::bytes(ip_src) + (u32::bytes(ip_dst) + (u8::bytes(ip_proto) + (u8::bytes(ip_ttl) + (u8::bytes(kind) + (u64::bytes(size_bytes) + (<Vec<u8> as Wire>::bytes(payload))))))), rest);
                lemma_assoc(u32::bytes(3), PortIdW::bytes(port) + (u32::bytes(ip_src) + (u32::bytes(ip_dst) + (u8::bytes(ip_proto) + (u8::bytes(ip_ttl) + (u8::bytes(kind) + (u64::bytes(size_bytes) + (<Vec<u8> as Wire>::bytes(payload)))))))), rest);
            },
            ActionV::ScheduleTimer { delay_ns } => {
                u32::reads_back(4, u64::bytes(delay_ns) + rest);
                u64::reads_back(delay_ns, rest);
                lemma_assoc(u32::bytes(4), u64::bytes(delay_ns), rest);
            },
        }
    }

    fn put(&self, out: &mut Vec<u8>) {
        match self {
            ActionW::InstallTableEntry { table_id, entry } => {
                (0u32).put(out);
                table_id.put(out);
                entry.put(out);
                proof {
                    lemma_assoc(old(out)@ + u32::bytes(0), TableIdW::bytes(*table_id), TableEntryW::bytes(*entry));
                    lemma_assoc(old(out)@, u32::bytes(0), TableIdW::bytes(*table_id) + (TableEntryW::bytes(*entry)));
                }
            },
            ActionW::DeleteTableEntry { table_id, entry_id } => {
                (1u32).put(out);
                table_id.put(out);
                entry_id.put(out);
                proof {
                    lemma_assoc(old(out)@ + u32::bytes(1), TableIdW::bytes(*table_id), EntryIdW::bytes(*entry_id));
                    lemma_assoc(old(out)@, u32::bytes(1), TableIdW::bytes(*table_id) + (EntryIdW::bytes(*entry_id)));
                }
            },
            ActionW::SetQueueConfig { port, capacity_bytes } => {
                (2u32).put(out);
                port.put(out);
                capacity_bytes.put(out);
                proof {
                    lemma_assoc(old(out)@ + u32::bytes(2), PortIdW::bytes(*port), u64::bytes(*capacity_bytes));
                    lemma_assoc(old(out)@, u32::bytes(2), PortIdW::bytes(*port) + (u64::bytes(*capacity_bytes)));
                }
            },
            ActionW::InjectPacket { port, ip_src, ip_dst, ip_proto, ip_ttl, kind, size_bytes, payload } => {
                (3u32).put(out);
                port.put(out);
                ip_src.put(out);
                ip_dst.put(out);
                ip_proto.put(out);
                ip_ttl.put(out);
                kind.put(out);
                size_bytes.put(out);
                payload.put(out);
                proof {
                    lemma_assoc(((((((old(out)@ + u32::bytes(3)) + PortIdW::bytes(*port)) + u32::bytes(*ip_src)) + u32::bytes(*ip_dst)) + u8::bytes(*ip_proto)) + u8::bytes(*ip_ttl)) + u8::bytes(*kind), u64::bytes(*size_bytes), <Vec<u8> as Wire>::bytes(payload.val()));
                    lemma_assoc((((((old(out)@ + u32::bytes(3)) + PortIdW::bytes(*port)) + u32::bytes(*ip_src)) + u32::bytes(*ip_dst)) + u8::bytes(*ip_proto)) + u8::bytes(*ip_ttl), u8::bytes(*kind), u64::bytes(*size_bytes) + (<Vec<u8> as Wire>::bytes(payload.val())));
                    lemma_assoc(((((old(out)@ + u32::bytes(3)) + PortIdW::bytes(*port)) + u32::bytes(*ip_src)) + u32::bytes(*ip_dst)) + u8::bytes(*ip_proto), u8::bytes(*ip_ttl), u8::bytes(*kind) + (u64::bytes(*size_bytes) + (<Vec<u8> as Wire>::bytes(payload.val()))));
                    lemma_assoc((((old(out)@ + u32::bytes(3)) + PortIdW::bytes(*port)) + u32::bytes(*ip_src)) + u32::bytes(*ip_dst), u8::bytes(*ip_proto), u8::bytes(*ip_ttl) + (u8::bytes(*kind) + (u64::bytes(*size_bytes) + (<Vec<u8> as Wire>::bytes(payload.val())))));
                    lemma_assoc(((old(out)@ + u32::bytes(3)) + PortIdW::bytes(*port)) + u32::bytes(*ip_src), u32::bytes(*ip_dst), u8::bytes(*ip_proto) + (u8::bytes(*ip_ttl) + (u8::bytes(*kind) + (u64::bytes(*size_bytes) + (<Vec<u8> as Wire>::bytes(payload.val()))))));
                    lemma_assoc((old(out)@ + u32::bytes(3)) + PortIdW::bytes(*port), u32::bytes(*ip_src), u32::bytes(*ip_dst) + (u8::bytes(*ip_proto) + (u8::bytes(*ip_ttl) + (u8::bytes(*kind) + (u64::bytes(*size_bytes) + (<Vec<u8> as Wire>::bytes(payload.val())))))));
                    lemma_assoc(old(out)@ + u32::bytes(3), PortIdW::bytes(*port), u32::bytes(*ip_src) + (u32::bytes(*ip_dst) + (u8::bytes(*ip_proto) + (u8::bytes(*ip_ttl) + (u8::bytes(*kind) + (u64::bytes(*size_bytes) + (<Vec<u8> as Wire>::bytes(payload.val()))))))));
                    lemma_assoc(old(out)@, u32::bytes(3), PortIdW::bytes(*port) + (u32::bytes(*ip_src) + (u32::bytes(*ip_dst) + (u8::bytes(*ip_proto) + (u8::bytes(*ip_ttl) + (u8::bytes(*kind) + (u64::bytes(*size_bytes) + (<Vec<u8> as Wire>::bytes(payload.val())))))))));
                }
            },
            ActionW::ScheduleTimer { delay_ns } => {
                (4u32).put(out);
                delay_ns.put(out);
                proof {
                    lemma_assoc(old(out)@, u32::bytes(4), u64::bytes(*delay_ns));
                }
            },
        }
    }

    fn get<'a>(b: &'a [u8]) -> (r: Result<(ActionW, &'a [u8]), DecodeError>) {
        let (tag, r0) = u32::get(b)?;
        if tag == 0 {
            let (table_id, r1) = TableIdW::get(r0)?;
            let (entry, r2) = TableEntryW::get(r1)?;
            Ok((ActionW::InstallTableEntry { table_id, entry }, r2))
        } else if tag == 1 {
            let (table_id, r1) = TableIdW::get(r0)?;
            let (entry_id, r2) = EntryIdW::get(r1)?;
            Ok((ActionW::DeleteTableEntry { table_id, entry_id }, r2))
        } else if tag == 2 {
            let (port, r1) = PortIdW::get(r0)?;
            let (capacity_bytes, r2) = u64::get(r1)?;
            Ok((ActionW::SetQueueConfig { port, capacity_bytes }, r2))
        } else if tag == 3 {
            let (port, r1) = PortIdW::get(r0)?;
            let (ip_src, r2) = u32::get(r1)?;
            let (ip_dst, r3) = u32::get(r2)?;
            let (ip_proto, r4) = u8::get(r3)?;
            let (ip_ttl, r5) = u8::get(r4)?;
            let (kind, r6) = u8::get(r5)?;
            let (size_bytes, r7) = u64::get(r6)?;
            let (payload, r8) = <Vec<u8> as Wire>::get(r7)?;
            Ok((ActionW::InjectPacket { port, ip_src, ip_dst, ip_proto, ip_ttl, kind, size_bytes, payload }, r8))
        } else if tag == 4 {
            let (delay_ns, r1) = u64::get(r0)?;
            Ok((ActionW::ScheduleTimer { delay_ns }, r1))
        } else {
            Err(DecodeError::UnknownTag)
        }
    }
}

#[derive(Debug, Clone, Copy, PartialEq, Eq, Hash, Structural)]
pub struct TraceHopW {
    pub switch_id: u32,
    pub arrived_at_ns: u64,
}

impl Wire for TraceHopW {
    type V = TraceHopW;

    open spec fn val(&self) -> TraceHopW {
        *self
    }

    open spec fn bytes(v: TraceHopW) -> Seq<u8> {
        u32::bytes(v.switch_id) + (u64::bytes(v.arrived_at_ns))
    }

    open spec fn parse(b: Seq<u8>) -> Option<(TraceHopW, Seq<u8>)> {
        match u32::parse(b) {
            Some((switch_id, r1)) => match u64::parse(r1) {
                Some((arrived_at_ns, r2)) => Some((TraceHopW { switch_id, arrived_at_ns }, r2)),
                None => None,
            },
            None => None,
        }
    }

    open spec fn fits(v: TraceHopW) -> bool {
        true
    }

    proof fn reads_back(v: TraceHopW, rest: Seq<u8>) {
        u32::reads_back(v.switch_id, u64::bytes(v.arrived_at_ns) + rest);
        u64::reads_back(v.arrived_at_ns, rest);
        lemma_assoc(u32::bytes(v.switch_id), u64::bytes(v.arrived_at_ns), rest);
    }

    fn put(&self, out: &mut Vec<u8>) {
        self.switch_id.put(out);
        self.arrived_at_ns.put(out);
        proof {
            lemma_assoc(old(out)@, u32::bytes(self.switch_id), u64::bytes(self.arrived_at_ns));
        }
    }

    fn get<'a>(b: &'a [u8]) -> (r: Result<(TraceHopW, &'a [u8]), DecodeError>) {
        let (switch_id, r1) = u32::get(b)?;
        let (arrived_at_ns, r2) = u64::get(r1)?;
        Ok((TraceHopW { switch_id, arrived_at_ns }, r2))
    }
}

#[derive(Debug)]
pub struct TraceReplyW {
    /// The switch that asked for the trace by running `MarkTrace`.
    pub mark_switch: u32,
    /// The port on `mark_switch` where the reply is arriving.
    pub mark_port: u16,
    /// Switches the packet visited, in order.
    pub hops: Vec<TraceHopW>,
    /// Whether the packet was delivered (true) or dropped.
    pub delivered: bool,
    /// 0 = delivered, 1 = ttl, 2 = no_route, 3 = no_egress_link, 4 = link_drop,
    /// 5 = switch_failed, 6 = recirc.
    pub drop_reason: u8,
}

/// What a `TraceReplyW` says.
#[verifier::ext_equal]
pub struct TraceReplyV {
    pub mark_switch: u32,
    pub mark_port: u16,
    pub hops: Seq<TraceHopW>,
    pub delivered: bool,
    pub drop_reason: u8,
}

impl View for TraceReplyW {
    type V = TraceReplyV;

    open spec fn view(&self) -> TraceReplyV {
        self.val()
    }
}

impl Wire for TraceReplyW {
    type V = TraceReplyV;

    open spec fn val(&self) -> TraceReplyV {
        TraceReplyV {
            mark_switch: self.mark_switch,
            mark_port: self.mark_port,
            hops: self.hops.val(),
            delivered: self.delivered,
            drop_reason: self.drop_reason,
        }
    }

    open spec fn bytes(v: TraceReplyV) -> Seq<u8> {
        u32::bytes(v.mark_switch) + (u16::bytes(v.mark_port) + (<Vec<TraceHopW> as Wire>::bytes(v.hops) + (bool::bytes(v.delivered) + (u8::bytes(v.drop_reason)))))
    }

    open spec fn parse(b: Seq<u8>) -> Option<(TraceReplyV, Seq<u8>)> {
        match u32::parse(b) {
            Some((mark_switch, r1)) => match u16::parse(r1) {
                Some((mark_port, r2)) => match <Vec<TraceHopW> as Wire>::parse(r2) {
                    Some((hops, r3)) => match bool::parse(r3) {
                        Some((delivered, r4)) => match u8::parse(r4) {
                            Some((drop_reason, r5)) => Some((TraceReplyV { mark_switch, mark_port, hops, delivered, drop_reason }, r5)),
                            None => None,
                        },
                        None => None,
                    },
                    None => None,
                },
                None => None,
            },
            None => None,
        }
    }

    open spec fn fits(v: TraceReplyV) -> bool {
        <Vec<TraceHopW> as Wire>::fits(v.hops)
    }

    proof fn reads_back(v: TraceReplyV, rest: Seq<u8>) {
        u32::reads_back(v.mark_switch, u16::bytes(v.mark_port) + (<Vec<TraceHopW> as Wire>::bytes(v.hops) + (bool::bytes(v.delivered) + (u8::bytes(v.drop_reason) + rest))));
        u16::reads_back(v.mark_port, <Vec<TraceHopW> as Wire>::bytes(v.hops) + (bool::bytes(v.delivered) + (u8::bytes(v.drop_reason) + rest)));
        <Vec<TraceHopW> as Wire>::reads_back(v.hops, bool::bytes(v.delivered) + (u8::bytes(v.drop_reason) + rest));
        bool::reads_back(v.delivered, u8::bytes(v.drop_reason) + rest);
        u8::reads_back(v.drop_reason, rest);
        lemma_assoc(bool::bytes(v.delivered), u8::bytes(v.drop_reason), rest);
        lemma_assoc(<Vec<TraceHopW> as Wire>::bytes(v.hops), bool::bytes(v.delivered) + (u8::bytes(v.drop_reason)), rest);
        lemma_assoc(u16::bytes(v.mark_port), <Vec<TraceHopW> as Wire>::bytes(v.hops) + (bool::bytes(v.delivered) + (u8::bytes(v.drop_reason))), rest);
        lemma_assoc(u32::bytes(v.mark_switch), u16::bytes(v.mark_port) + (<Vec<TraceHopW> as Wire>::bytes(v.hops) + (bool::bytes(v.delivered) + (u8::bytes(v.drop_reason)))), rest);
    }

    fn put(&self, out: &mut Vec<u8>) {
        self.mark_switch.put(out);
        self.mark_port.put(out);
        self.hops.put(out);
        self.delivered.put(out);
        self.drop_reason.put(out);
        proof {
            lemma_assoc(((old(out)@ + u32::bytes(self.mark_switch)) + u16::bytes(self.mark_port)) + <Vec<TraceHopW> as Wire>::bytes(self.hops.val()), bool::bytes(self.delivered), u8::bytes(self.drop_reason));
            lemma_assoc((old(out)@ + u32::bytes(self.mark_switch)) + u16::bytes(self.mark_port), <Vec<TraceHopW> as Wire>::bytes(self.hops.val()), bool::bytes(self.delivered) + (u8::bytes(self.drop_reason)));
            lemma_assoc(old(out)@ + u32::bytes(self.mark_switch), u16::bytes(self.mark_port), <Vec<TraceHopW> as Wire>::bytes(self.hops.val()) + (bool::bytes(self.delivered) + (u8::bytes(self.drop_reason))));
            lemma_assoc(old(out)@, u32::bytes(self.mark_switch), u16::bytes(self.mark_port) + (<Vec<TraceHopW> as Wire>::bytes(self.hops.val()) + (bool::bytes(self.delivered) + (u8::bytes(self.drop_reason)))));
        }
    }

    fn get<'a>(b: &'a [u8]) -> (r: Result<(TraceReplyW, &'a [u8]), DecodeError>) {
        let (mark_switch, r1) = u32::get(b)?;
        let (mark_port, r2) = u16::get(r1)?;
        let (hops, r3) = <Vec<TraceHopW> as Wire>::get(r2)?;
        let (delivered, r4) = bool::get(r3)?;
        let (drop_reason, r5) = u8::get(r4)?;
        Ok((TraceReplyW { mark_switch, mark_port, hops, delivered, drop_reason }, r5))
    }
}

#[derive(Debug)]
pub enum WireError {
    Decode(String),
}

impl WireError {
    pub fn decode(e: &DecodeError) -> (r: WireError)
        ensures
            r matches WireError::Decode(m) && m@ == e.words(),
    {
        WireError::Decode(e.text())
    }
}

impl Default for TinyProgramW {
    fn default() -> (r: TinyProgramW)
        ensures
            r@.stages.len() == 0,
    {
        TinyProgramW { stages: Vec::new() }
    }
}

impl Default for ProgramSetupW {
    fn default() -> (r: ProgramSetupW)
        ensures
            r@.program.stages.len() == 0,
            r@.tables.len() == 0,
            r@.registers.len() == 0,
            r@.counters.len() == 0,
    {
        ProgramSetupW {
            program: TinyProgramW::default(),
            tables: Vec::new(),
            registers: Vec::new(),
            counters: Vec::new(),
        }
    }
}

} // verus!
