//! Wire types for SimpleBGP.
//!
//! A SimpleBGP packet carries one encoded `BgpEnvelopeW` as its payload.

use crate::codec::{from_bytes, lemma_assoc, to_bytes, DecodeError, Wire};
use vstd::prelude::*;

verus! {

#[derive(Debug, Clone, Copy, PartialEq, Eq, Hash, Structural)]
pub struct AsIdW(pub u32);

impl Wire for AsIdW {
    type V = AsIdW;

    open spec fn val(&self) -> AsIdW {
        *self
    }

    open spec fn bytes(v: AsIdW) -> Seq<u8> {
        u32::bytes(v.0)
    }

    open spec fn parse(b: Seq<u8>) -> Option<(AsIdW, Seq<u8>)> {
        match u32::parse(b) {
            Some((x, r1)) => Some((AsIdW(x), r1)),
            None => None,
        }
    }

    open spec fn fits(v: AsIdW) -> bool {
        true
    }

    proof fn reads_back(v: AsIdW, rest: Seq<u8>) {
        u32::reads_back(v.0, rest);
    }

    fn put(&self, out: &mut Vec<u8>) {
        self.0.put(out);
    }

    fn get<'a>(b: &'a [u8]) -> (r: Result<(AsIdW, &'a [u8]), DecodeError>) {
        let (x, r1) = u32::get(b)?;
        Ok((AsIdW(x), r1))
    }
}

#[derive(Debug, Clone, Copy, PartialEq, Eq, Hash, Structural)]
pub struct PrefixW {
    pub addr: u32,
    pub len: u8,
}

impl Wire for PrefixW {
    type V = PrefixW;

    open spec fn val(&self) -> PrefixW {
        *self
    }

    open spec fn bytes(v: PrefixW) -> Seq<u8> {
        u32::bytes(v.addr) + (u8::bytes(v.len))
    }

    open spec fn parse(b: Seq<u8>) -> Option<(PrefixW, Seq<u8>)> {
        match u32::parse(b) {
            Some((addr, r1)) => match u8::parse(r1) {
                Some((len, r2)) => Some((PrefixW { addr, len }, r2)),
                None => None,
            },
            None => None,
        }
    }

    open spec fn fits(v: PrefixW) -> bool {
        true
    }

    proof fn reads_back(v: PrefixW, rest: Seq<u8>) {
        u32::reads_back(v.addr, u8::bytes(v.len) + rest);
        u8::reads_back(v.len, rest);
        lemma_assoc(u32::bytes(v.addr), u8::bytes(v.len), rest);
    }

    fn put(&self, out: &mut Vec<u8>) {
        self.addr.put(out);
        self.len.put(out);
        proof {
            lemma_assoc(old(out)@, u32::bytes(self.addr), u8::bytes(self.len));
        }
    }

    fn get<'a>(b: &'a [u8]) -> (r: Result<(PrefixW, &'a [u8]), DecodeError>) {
        let (addr, r1) = u32::get(b)?;
        let (len, r2) = u8::get(r1)?;
        Ok((PrefixW { addr, len }, r2))
    }
}

#[derive(Debug, Clone, Copy, PartialEq, Eq, Hash, Structural)]
pub enum TrafficClassW {
    BestEffort,
    LowLatency,
    Throughput,
    UptimeSensitive,
    LowLatencyThroughput,
    Vod,
    Gaming,
    Enterprise,
    Backup,
    Hft,
}

impl Wire for TrafficClassW {
    type V = TrafficClassW;

    open spec fn val(&self) -> TrafficClassW {
        *self
    }

    open spec fn bytes(v: TrafficClassW) -> Seq<u8> {
        match v {
            TrafficClassW::BestEffort => u32::bytes(0),
            TrafficClassW::LowLatency => u32::bytes(1),
            TrafficClassW::Throughput => u32::bytes(2),
            TrafficClassW::UptimeSensitive => u32::bytes(3),
            TrafficClassW::LowLatencyThroughput => u32::bytes(4),
            TrafficClassW::Vod => u32::bytes(5),
            TrafficClassW::Gaming => u32::bytes(6),
            TrafficClassW::Enterprise => u32::bytes(7),
            TrafficClassW::Backup => u32::bytes(8),
            TrafficClassW::Hft => u32::bytes(9),
        }
    }

    open spec fn parse(b: Seq<u8>) -> Option<(TrafficClassW, Seq<u8>)> {
        match u32::parse(b) {
            Some((tag, r0)) => if tag == 0 {
                Some((TrafficClassW::BestEffort, r0))
            } else if tag == 1 {
                Some((TrafficClassW::LowLatency, r0))
            } else if tag == 2 {
                Some((TrafficClassW::Throughput, r0))
            } else if tag == 3 {
                Some((TrafficClassW::UptimeSensitive, r0))
            } else if tag == 4 {
                Some((TrafficClassW::LowLatencyThroughput, r0))
            } else if tag == 5 {
                Some((TrafficClassW::Vod, r0))
            } else if tag == 6 {
                Some((TrafficClassW::Gaming, r0))
            } else if tag == 7 {
                Some((TrafficClassW::Enterprise, r0))
            } else if tag == 8 {
                Some((TrafficClassW::Backup, r0))
            } else if tag == 9 {
                Some((TrafficClassW::Hft, r0))
            } else {
                None
            },
            None => None,
        }
    }

    open spec fn fits(v: TrafficClassW) -> bool {
        true
    }

    proof fn reads_back(v: TrafficClassW, rest: Seq<u8>) {
        match v {
            TrafficClassW::BestEffort => {
                u32::reads_back(0, rest);
            },
            TrafficClassW::LowLatency => {
                u32::reads_back(1, rest);
            },
            TrafficClassW::Throughput => {
                u32::reads_back(2, rest);
            },
            TrafficClassW::UptimeSensitive => {
                u32::reads_back(3, rest);
            },
            TrafficClassW::LowLatencyThroughput => {
                u32::reads_back(4, rest);
            },
            TrafficClassW::Vod => {
                u32::reads_back(5, rest);
            },
            TrafficClassW::Gaming => {
                u32::reads_back(6, rest);
            },
            TrafficClassW::Enterprise => {
                u32::reads_back(7, rest);
            },
            TrafficClassW::Backup => {
                u32::reads_back(8, rest);
            },
            TrafficClassW::Hft => {
                u32::reads_back(9, rest);
            },
        }
    }

    fn put(&self, out: &mut Vec<u8>) {
        match self {
            TrafficClassW::BestEffort => {
                (0u32).put(out);
            },
            TrafficClassW::LowLatency => {
                (1u32).put(out);
            },
            TrafficClassW::Throughput => {
                (2u32).put(out);
            },
            TrafficClassW::UptimeSensitive => {
                (3u32).put(out);
            },
            TrafficClassW::LowLatencyThroughput => {
                (4u32).put(out);
            },
            TrafficClassW::Vod => {
                (5u32).put(out);
            },
            TrafficClassW::Gaming => {
                (6u32).put(out);
            },
            TrafficClassW::Enterprise => {
                (7u32).put(out);
            },
            TrafficClassW::Backup => {
                (8u32).put(out);
            },
            TrafficClassW::Hft => {
                (9u32).put(out);
            },
        }
    }

    fn get<'a>(b: &'a [u8]) -> (r: Result<(TrafficClassW, &'a [u8]), DecodeError>) {
        let (tag, r0) = u32::get(b)?;
        if tag == 0 {
            Ok((TrafficClassW::BestEffort, r0))
        } else if tag == 1 {
            Ok((TrafficClassW::LowLatency, r0))
        } else if tag == 2 {
            Ok((TrafficClassW::Throughput, r0))
        } else if tag == 3 {
            Ok((TrafficClassW::UptimeSensitive, r0))
        } else if tag == 4 {
            Ok((TrafficClassW::LowLatencyThroughput, r0))
        } else if tag == 5 {
            Ok((TrafficClassW::Vod, r0))
        } else if tag == 6 {
            Ok((TrafficClassW::Gaming, r0))
        } else if tag == 7 {
            Ok((TrafficClassW::Enterprise, r0))
        } else if tag == 8 {
            Ok((TrafficClassW::Backup, r0))
        } else if tag == 9 {
            Ok((TrafficClassW::Hft, r0))
        } else {
            Err(DecodeError::UnknownTag)
        }
    }
}

#[derive(Debug)]
pub struct AsPathW {
    pub ases: Vec<AsIdW>,
}

/// What a `AsPathW` says.
#[verifier::ext_equal]
pub struct AsPathV {
    pub ases: Seq<AsIdW>,
}

impl View for AsPathW {
    type V = AsPathV;

    open spec fn view(&self) -> AsPathV {
        self.val()
    }
}

impl Wire for AsPathW {
    type V = AsPathV;

    open spec fn val(&self) -> AsPathV {
        AsPathV {
            ases: self.ases.val(),
        }
    }

    open spec fn bytes(v: AsPathV) -> Seq<u8> {
        <Vec<AsIdW> as Wire>::bytes(v.ases)
    }

    open spec fn parse(b: Seq<u8>) -> Option<(AsPathV, Seq<u8>)> {
        match <Vec<AsIdW> as Wire>::parse(b) {
            Some((ases, r1)) => Some((AsPathV { ases }, r1)),
            None => None,
        }
    }

    open spec fn fits(v: AsPathV) -> bool {
        <Vec<AsIdW> as Wire>::fits(v.ases)
    }

    proof fn reads_back(v: AsPathV, rest: Seq<u8>) {
        <Vec<AsIdW> as Wire>::reads_back(v.ases, rest);
    }

    fn put(&self, out: &mut Vec<u8>) {
        self.ases.put(out);
    }

    fn get<'a>(b: &'a [u8]) -> (r: Result<(AsPathW, &'a [u8]), DecodeError>) {
        let (ases, r1) = <Vec<AsIdW> as Wire>::get(b)?;
        Ok((AsPathW { ases }, r1))
    }
}

#[derive(Debug, Clone, Copy, PartialEq, Eq, Hash, Structural)]
pub enum BgpTagW {
    NoExport,
    BackupOnly,
    LowLatencyHint,
    BulkOkay,
    Blackhole,
    Experimental(u32),
}

impl Wire for BgpTagW {
    type V = BgpTagW;

    open spec fn val(&self) -> BgpTagW {
        *self
    }

    open spec fn bytes(v: BgpTagW) -> Seq<u8> {
        match v {
            BgpTagW::NoExport => u32::bytes(0),
            BgpTagW::BackupOnly => u32::bytes(1),
            BgpTagW::LowLatencyHint => u32::bytes(2),
            BgpTagW::BulkOkay => u32::bytes(3),
            BgpTagW::Blackhole => u32::bytes(4),
            BgpTagW::Experimental(x0) => u32::bytes(5) + (u32::bytes(x0)),
        }
    }

    open spec fn parse(b: Seq<u8>) -> Option<(BgpTagW, Seq<u8>)> {
        match u32::parse(b) {
            Some((tag, r0)) => if tag == 0 {
                Some((BgpTagW::NoExport, r0))
            } else if tag == 1 {
                Some((BgpTagW::BackupOnly, r0))
            } else if tag == 2 {
                Some((BgpTagW::LowLatencyHint, r0))
            } else if tag == 3 {
                Some((BgpTagW::BulkOkay, r0))
            } else if tag == 4 {
                Some((BgpTagW::Blackhole, r0))
            } else if tag == 5 {
                match u32::parse(r0) {
                    Some((x0, r1)) => Some((BgpTagW::Experimental(x0), r1)),
                    None => None,
                }
            } else {
                None
            },
            None => None,
        }
    }

    open spec fn fits(v: BgpTagW) -> bool {
        true
    }

    proof fn reads_back(v: BgpTagW, rest: Seq<u8>) {
        match v {
            BgpTagW::NoExport => {
                u32::reads_back(0, rest);
            },
            BgpTagW::BackupOnly => {
                u32::reads_back(1, rest);
            },
            BgpTagW::LowLatencyHint => {
                u32::reads_back(2, rest);
            },
            BgpTagW::BulkOkay => {
                u32::reads_back(3, rest);
            },
            BgpTagW::Blackhole => {
                u32::reads_back(4, rest);
            },
            BgpTagW::Experimental(x0) => {
                u32::reads_back(5, u32::bytes(x0) + rest);
                u32::reads_back(x0, rest);
                lemma_assoc(u32::bytes(5), u32::bytes(x0), rest);
            },
        }
    }

    fn put(&self, out: &mut Vec<u8>) {
        match self {
            BgpTagW::NoExport => {
                (0u32).put(out);
            },
            BgpTagW::BackupOnly => {
                (1u32).put(out);
            },
            BgpTagW::LowLatencyHint => {
                (2u32).put(out);
            },
            BgpTagW::BulkOkay => {
                (3u32).put(out);
            },
            BgpTagW::Blackhole => {
                (4u32).put(out);
            },
            BgpTagW::Experimental(x0) => {
                (5u32).put(out);
                x0.put(out);
                proof {
                    lemma_assoc(old(out)@, u32::bytes(5), u32::bytes(*x0));
                }
            },
        }
    }

    fn get<'a>(b: &'a [u8]) -> (r: Result<(BgpTagW, &'a [u8]), DecodeError>) {
        let (tag, r0) = u32::get(b)?;
        if tag == 0 {
            Ok((BgpTagW::NoExport, r0))
        } else if tag == 1 {
            Ok((BgpTagW::BackupOnly, r0))
        } else if tag == 2 {
            Ok((BgpTagW::LowLatencyHint, r0))
        } else if tag == 3 {
            Ok((BgpTagW::BulkOkay, r0))
        } else if tag == 4 {
            Ok((BgpTagW::Blackhole, r0))
        } else if tag == 5 {
            let (x0, r1) = u32::get(r0)?;
            Ok((BgpTagW::Experimental(x0), r1))
        } else {
            Err(DecodeError::UnknownTag)
        }
    }
}

#[derive(Debug, Clone, Copy, PartialEq, Eq, Hash, Structural)]
pub struct KeepAliveW {
    pub nonce: u64,
}

impl Wire for KeepAliveW {
    type V = KeepAliveW;

    open spec fn val(&self) -> KeepAliveW {
        *self
    }

    open spec fn bytes(v: KeepAliveW) -> Seq<u8> {
        u64::bytes(v.nonce)
    }

    open spec fn parse(b: Seq<u8>) -> Option<(KeepAliveW, Seq<u8>)> {
        match u64::parse(b) {
            Some((nonce, r1)) => Some((KeepAliveW { nonce }, r1)),
            None => None,
        }
    }

    open spec fn fits(v: KeepAliveW) -> bool {
        true
    }

    proof fn reads_back(v: KeepAliveW, rest: Seq<u8>) {
        u64::reads_back(v.nonce, rest);
    }

    fn put(&self, out: &mut Vec<u8>) {
        self.nonce.put(out);
    }

    fn get<'a>(b: &'a [u8]) -> (r: Result<(KeepAliveW, &'a [u8]), DecodeError>) {
        let (nonce, r1) = u64::get(b)?;
        Ok((KeepAliveW { nonce }, r1))
    }
}

#[derive(Debug, Clone, Copy, PartialEq, Eq, Hash, Structural)]
pub struct AckW {
    pub acked_msg_id: u64,
}

impl Wire for AckW {
    type V = AckW;

    open spec fn val(&self) -> AckW {
        *self
    }

    open spec fn bytes(v: AckW) -> Seq<u8> {
        u64::bytes(v.acked_msg_id)
    }

    open spec fn parse(b: Seq<u8>) -> Option<(AckW, Seq<u8>)> {
        match u64::parse(b) {
            Some((acked_msg_id, r1)) => Some((AckW { acked_msg_id }, r1)),
            None => None,
        }
    }

    open spec fn fits(v: AckW) -> bool {
        true
    }

    proof fn reads_back(v: AckW, rest: Seq<u8>) {
        u64::reads_back(v.acked_msg_id, rest);
    }

    fn put(&self, out: &mut Vec<u8>) {
        self.acked_msg_id.put(out);
    }

    fn get<'a>(b: &'a [u8]) -> (r: Result<(AckW, &'a [u8]), DecodeError>) {
        let (acked_msg_id, r1) = u64::get(b)?;
        Ok((AckW { acked_msg_id }, r1))
    }
}

#[derive(Debug)]
pub struct RoutePromiseW {
    pub promise_id: u64,
    pub prefix: PrefixW,
    pub traffic_class: Option<TrafficClassW>,
    pub promised_paths: Vec<AsPathW>,
    pub tags: Vec<BgpTagW>,
    pub valid_until_ns: Option<u64>,
}

/// What a `RoutePromiseW` says.
#[verifier::ext_equal]
pub struct RoutePromiseV {
    pub promise_id: u64,
    pub prefix: PrefixW,
    pub traffic_class: Option<TrafficClassW>,
    pub promised_paths: Seq<AsPathV>,
    pub tags: Seq<BgpTagW>,
    pub valid_until_ns: Option<u64>,
}

impl View for RoutePromiseW {
    type V = RoutePromiseV;

    open spec fn view(&self) -> RoutePromiseV {
        self.val()
    }
}

impl Wire for RoutePromiseW {
    type V = RoutePromiseV;

    open spec fn val(&self) -> RoutePromiseV {
        RoutePromiseV {
            promise_id: self.promise_id,
            prefix: self.prefix,
            traffic_class: self.traffic_class,
            promised_paths: self.promised_paths.val(),
            tags: self.tags.val(),
            valid_until_ns: self.valid_until_ns,
        }
    }

    open spec fn bytes(v: RoutePromiseV) -> Seq<u8> {
        u64::bytes(v.promise_id) + (PrefixW::bytes(v.prefix) + (<Option<TrafficClassW> as Wire>::bytes(v.traffic_class) + (<Vec<AsPathW> as Wire>::bytes(v.promised_paths) + (<Vec<BgpTagW> as Wire>::bytes(v.tags) + (<Option<u64> as Wire>::bytes(v.valid_until_ns))))))
    }

    open spec fn parse(b: Seq<u8>) -> Option<(RoutePromiseV, Seq<u8>)> {
        match u64::parse(b) {
            Some((promise_id, r1)) => match PrefixW::parse(r1) {
                Some((prefix, r2)) => match <Option<TrafficClassW> as Wire>::parse(r2) {
                    Some((traffic_class, r3)) => match <Vec<AsPathW> as Wire>::parse(r3) {
                        Some((promised_paths, r4)) => match <Vec<BgpTagW> as Wire>::parse(r4) {
                            Some((tags, r5)) => match <Option<u64> as Wire>::parse(r5) {
                                Some((valid_until_ns, r6)) => Some((RoutePromiseV { promise_id, prefix, traffic_class, promised_paths, tags, valid_until_ns }, r6)),
                                None => None,
                            },
                            None => None,
                        },
                        None => None,
                    },
                    None => None,
                },
                None => None,
            },
            None => None,
        }
    }

    open spec fn fits(v: RoutePromiseV) -> bool {
        <Vec<AsPathW> as Wire>::fits(v.promised_paths) && <Vec<BgpTagW> as Wire>::fits(v.tags)
    }

    proof fn reads_back(v: RoutePromiseV, rest: Seq<u8>) {
        u64::reads_back(v.promise_id, PrefixW::bytes(v.prefix) + (<Option<TrafficClassW> as Wire>::bytes(v.traffic_class) + (<Vec<AsPathW> as Wire>::bytes(v.promised_paths) + (<Vec<BgpTagW> as Wire>::bytes(v.tags) + (<Option<u64> as Wire>::bytes(v.valid_until_ns) + rest)))));
        PrefixW::reads_back(v.prefix, <Option<TrafficClassW> as Wire>::bytes(v.traffic_class) + (<Vec<AsPathW> as Wire>::bytes(v.promised_paths) + (<Vec<BgpTagW> as Wire>::bytes(v.tags) + (<Option<u64> as Wire>::bytes(v.valid_until_ns) + rest))));
        <Option<TrafficClassW> as Wire>::reads_back(v.traffic_class, <Vec<AsPathW> as Wire>::bytes(v.promised_paths) + (<Vec<BgpTagW> as Wire>::bytes(v.tags) + (<Option<u64> as Wire>::bytes(v.valid_until_ns) + rest)));
        <Vec<AsPathW> as Wire>::reads_back(v.promised_paths, <Vec<BgpTagW> as Wire>::bytes(v.tags) + (<Option<u64> as Wire>::bytes(v.valid_until_ns) + rest));
        <Vec<BgpTagW> as Wire>::reads_back(v.tags, <Option<u64> as Wire>::bytes(v.valid_until_ns) + rest);
        <Option<u64> as Wire>::reads_back(v.valid_until_ns, rest);
        lemma_assoc(<Vec<BgpTagW> as Wire>::bytes(v.tags), <Option<u64> as Wire>::bytes(v.valid_until_ns), rest);
        lemma_assoc(<Vec<AsPathW> as Wire>::bytes(v.promised_paths), <Vec<BgpTagW> as Wire>::bytes(v.tags) + (<Option<u64> as Wire>::bytes(v.valid_until_ns)), rest);
        lemma_assoc(<Option<TrafficClassW> as Wire>::bytes(v.traffic_class), <Vec<AsPathW> as Wire>::bytes(v.promised_paths) + (<Vec<BgpTagW> as Wire>::bytes(v.tags) + (<Option<u64> as Wire>::bytes(v.valid_until_ns))), rest);
        lemma_assoc(PrefixW::bytes(v.prefix), <Option<TrafficClassW> as Wire>::bytes(v.traffic_class) + (<Vec<AsPathW> as Wire>::bytes(v.promised_paths) + (<Vec<BgpTagW> as Wire>::bytes(v.tags) + (<Option<u64> as Wire>::bytes(v.valid_until_ns)))), rest);
        lemma_assoc(u64::bytes(v.promise_id), PrefixW::bytes(v.prefix) + (<Option<TrafficClassW> as Wire>::bytes(v.traffic_class) + (<Vec<AsPathW> as Wire>::bytes(v.promised_paths) + (<Vec<BgpTagW> as Wire>::bytes(v.tags) + (<Option<u64> as Wire>::bytes(v.valid_until_ns))))), rest);
    }

    fn put(&self, out: &mut Vec<u8>) {
        self.promise_id.put(out);
        self.prefix.put(out);
        self.traffic_class.put(out);
        self.promised_paths.put(out);
        self.tags.put(out);
        self.valid_until_ns.put(out);
        proof {
            lemma_assoc((((old(out)@ + u64::bytes(self.promise_id)) + PrefixW::bytes(self.prefix)) + <Option<TrafficClassW> as Wire>::bytes(self.traffic_class)) + <Vec<AsPathW> as Wire>::bytes(self.promised_paths.val()), <Vec<BgpTagW> as Wire>::bytes(self.tags.val()), <Option<u64> as Wire>::bytes(self.valid_until_ns));
            lemma_assoc(((old(out)@ + u64::bytes(self.promise_id)) + PrefixW::bytes(self.prefix)) + <Option<TrafficClassW> as Wire>::bytes(self.traffic_class), <Vec<AsPathW> as Wire>::bytes(self.promised_paths.val()), <Vec<BgpTagW> as Wire>::bytes(self.tags.val()) + (<Option<u64> as Wire>::bytes(self.valid_until_ns)));
            lemma_assoc((old(out)@ + u64::bytes(self.promise_id)) + PrefixW::bytes(self.prefix), <Option<TrafficClassW> as Wire>::bytes(self.traffic_class), <Vec<AsPathW> as Wire>::bytes(self.promised_paths.val()) + (<Vec<BgpTagW> as Wire>::bytes(self.tags.val()) + (<Option<u64> as Wire>::bytes(self.valid_until_ns))));
            lemma_assoc(old(out)@ + u64::bytes(self.promise_id), PrefixW::bytes(self.prefix), <Option<TrafficClassW> as Wire>::bytes(self.traffic_class) + (<Vec<AsPathW> as Wire>::bytes(self.promised_paths.val()) + (<Vec<BgpTagW> as Wire>::bytes(self.tags.val()) + (<Option<u64> as Wire>::bytes(self.valid_until_ns)))));
            lemma_assoc(old(out)@, u64::bytes(self.promise_id), PrefixW::bytes(self.prefix) + (<Option<TrafficClassW> as Wire>::bytes(self.traffic_class) + (<Vec<AsPathW> as Wire>::bytes(self.promised_paths.val()) + (<Vec<BgpTagW> as Wire>::bytes(self.tags.val()) + (<Option<u64> as Wire>::bytes(self.valid_until_ns))))));
        }
    }

    fn get<'a>(b: &'a [u8]) -> (r: Result<(RoutePromiseW, &'a [u8]), DecodeError>) {
        let (promise_id, r1) = u64::get(b)?;
        let (prefix, r2) = PrefixW::get(r1)?;
        let (traffic_class, r3) = <Option<TrafficClassW> as Wire>::get(r2)?;
        let (promised_paths, r4) = <Vec<AsPathW> as Wire>::get(r3)?;
        let (tags, r5) = <Vec<BgpTagW> as Wire>::get(r4)?;
        let (valid_until_ns, r6) = <Option<u64> as Wire>::get(r5)?;
        Ok((RoutePromiseW { promise_id, prefix, traffic_class, promised_paths, tags, valid_until_ns }, r6))
    }
}

#[derive(Debug, Clone, Copy, PartialEq, Eq, Hash, Structural)]
pub struct RouteWithdrawW {
    pub withdrawn_promise_id: Option<u64>,
    pub prefix: Option<PrefixW>,
    pub traffic_class: Option<TrafficClassW>,
}

impl Wire for RouteWithdrawW {
    type V = RouteWithdrawW;

    open spec fn val(&self) -> RouteWithdrawW {
        *self
    }

    open spec fn bytes(v: RouteWithdrawW) -> Seq<u8> {
        <Option<u64> as Wire>::bytes(v.withdrawn_promise_id) + (<Option<PrefixW> as Wire>::bytes(v.prefix) + (<Option<TrafficClassW> as Wire>::bytes(v.traffic_class)))
    }

    open spec fn parse(b: Seq<u8>) -> Option<(RouteWithdrawW, Seq<u8>)> {
        match <Option<u64> as Wire>::parse(b) {
            Some((withdrawn_promise_id, r1)) => match <Option<PrefixW> as Wire>::parse(r1) {
                Some((prefix, r2)) => match <Option<TrafficClassW> as Wire>::parse(r2) {
                    Some((traffic_class, r3)) => Some((RouteWithdrawW { withdrawn_promise_id, prefix, traffic_class }, r3)),
                    None => None,
                },
                None => None,
            },
            None => None,
        }
    }

    open spec fn fits(v: RouteWithdrawW) -> bool {
        true
    }

    proof fn reads_back(v: RouteWithdrawW, rest: Seq<u8>) {
        <Option<u64> as Wire>::reads_back(v.withdrawn_promise_id, <Option<PrefixW> as Wire>::bytes(v.prefix) + (<Option<TrafficClassW> as Wire>::bytes(v.traffic_class) + rest));
        <Option<PrefixW> as Wire>::reads_back(v.prefix, <Option<TrafficClassW> as Wire>::bytes(v.traffic_class) + rest);
        <Option<TrafficClassW> as Wire>::reads_back(v.traffic_class, rest);
        lemma_assoc(<Option<PrefixW> as Wire>::bytes(v.prefix), <Option<TrafficClassW> as Wire>::bytes(v.traffic_class), rest);
        lemma_assoc(<Option<u64> as Wire>::bytes(v.withdrawn_promise_id), <Option<PrefixW> as Wire>::bytes(v.prefix) + (<Option<TrafficClassW> as Wire>::bytes(v.traffic_class)), rest);
    }

    fn put(&self, out: &mut Vec<u8>) {
        self.withdrawn_promise_id.put(out);
        self.prefix.put(out);
        self.traffic_class.put(out);
        proof {
            lemma_assoc(old(out)@ + <Option<u64> as Wire>::bytes(self.withdrawn_promise_id), <Option<PrefixW> as Wire>::bytes(self.prefix), <Option<TrafficClassW> as Wire>::bytes(self.traffic_class));
            lemma_assoc(old(out)@, <Option<u64> as Wire>::bytes(self.withdrawn_promise_id), <Option<PrefixW> as Wire>::bytes(self.prefix) + (<Option<TrafficClassW> as Wire>::bytes(self.traffic_class)));
        }
    }

    fn get<'a>(b: &'a [u8]) -> (r: Result<(RouteWithdrawW, &'a [u8]), DecodeError>) {
        let (withdrawn_promise_id, r1) = <Option<u64> as Wire>::get(b)?;
        let (prefix, r2) = <Option<PrefixW> as Wire>::get(r1)?;
        let (traffic_class, r3) = <Option<TrafficClassW> as Wire>::get(r2)?;
        Ok((RouteWithdrawW { withdrawn_promise_id, prefix, traffic_class }, r3))
    }
}

#[derive(Debug)]
pub enum SimpleBgpMessageW {
    KeepAlive(KeepAliveW),
    Ack(AckW),
    Promise(RoutePromiseW),
    Withdraw(RouteWithdrawW),
}

/// What a `SimpleBgpMessageW` says.
#[verifier::ext_equal]
pub enum SimpleBgpMessageV {
    KeepAlive(KeepAliveW),
    Ack(AckW),
    Promise(RoutePromiseV),
    Withdraw(RouteWithdrawW),
}

impl View for SimpleBgpMessageW {
    type V = SimpleBgpMessageV;

    open spec fn view(&self) -> SimpleBgpMessageV {
        self.val()
    }
}

impl Wire for SimpleBgpMessageW {
    type V = SimpleBgpMessageV;

    open spec fn val(&self) -> SimpleBgpMessageV {
        match *self {
            SimpleBgpMessageW::KeepAlive(x0) => SimpleBgpMessageV::KeepAlive(x0),
            SimpleBgpMessageW::Ack(x0) => SimpleBgpMessageV::Ack(x0),
            SimpleBgpMessageW::Promise(x0) => SimpleBgpMessageV::Promise(x0.val()),
            SimpleBgpMessageW::Withdraw(x0) => SimpleBgpMessageV::Withdraw(x0),
        }
    }

    open spec fn bytes(v: SimpleBgpMessageV) -> Seq<u8> {
        match v {
            SimpleBgpMessageV::KeepAlive(x0) => u32::bytes(0) + (KeepAliveW::bytes(x0)),
            SimpleBgpMessageV::Ack(x0) => u32::bytes(1) + (AckW::bytes(x0)),
            SimpleBgpMessageV::Promise(x0) => u32::bytes(2) + (RoutePromiseW::bytes(x0)),
            SimpleBgpMessageV::Withdraw(x0) => u32::bytes(3) + (RouteWithdrawW::bytes(x0)),
        }
    }

    open spec fn parse(b: Seq<u8>) -> Option<(SimpleBgpMessageV, Seq<u8>)> {
        match u32::parse(b) {
            Some((tag, r0)) => if tag == 0 {
                match KeepAliveW::parse(r0) {
                    Some((x0, r1)) => Some((SimpleBgpMessageV::KeepAlive(x0), r1)),
                    None => None,
                }
            } else if tag == 1 {
                match AckW::parse(r0) {
                    Some((x0, r1)) => Some((SimpleBgpMessageV::Ack(x0), r1)),
                    None => None,
                }
            } else if tag == 2 {
                match RoutePromiseW::parse(r0) {
                    Some((x0, r1)) => Some((SimpleBgpMessageV::Promise(x0), r1)),
                    None => None,
                }
            } else if tag == 3 {
                match RouteWithdrawW::parse(r0) {
                    Some((x0, r1)) => Some((SimpleBgpMessageV::Withdraw(x0), r1)),
                    None => None,
                }
            } else {
                None
            },
            None => None,
        }
    }

    open spec fn fits(v: SimpleBgpMessageV) -> bool {
        match v {
            SimpleBgpMessageV::Promise(x0) => RoutePromiseW::fits(x0),
            _ => true,
        }
    }

    proof fn reads_back(v: SimpleBgpMessageV, rest: Seq<u8>) {
        match v {
            SimpleBgpMessageV::KeepAlive(x0) => {
                u32::reads_back(0, KeepAliveW::bytes(x0) + rest);
                KeepAliveW::reads_back(x0, rest);
                lemma_assoc(u32::bytes(0), KeepAliveW::bytes(x0), rest);
            },
            SimpleBgpMessageV::Ack(x0) => {
                u32::reads_back(1, AckW::bytes(x0) + rest);
                AckW::reads_back(x0, rest);
                lemma_assoc(u32::bytes(1), AckW::bytes(x0), rest);
            },
            SimpleBgpMessageV::Promise(x0) => {
                u32::reads_back(2, RoutePromiseW::bytes(x0) + rest);
                RoutePromiseW::reads_back(x0, rest);
                lemma_assoc(u32::bytes(2), RoutePromiseW::bytes(x0), rest);
            },
            SimpleBgpMessageV::Withdraw(x0) => {
                u32::reads_back(3, RouteWithdrawW::bytes(x0) + rest);
                RouteWithdrawW::reads_back(x0, rest);
                lemma_assoc(u32::bytes(3), RouteWithdrawW::bytes(x0), rest);
            },
        }
    }

    fn put(&self, out: &mut Vec<u8>) {
        match self {
            SimpleBgpMessageW::KeepAlive(x0) => {
                (0u32).put(out);
                x0.put(out);
                proof {
                    lemma_assoc(old(out)@, u32::bytes(0), KeepAliveW::bytes(*x0));
                }
            },
            SimpleBgpMessageW::Ack(x0) => {
                (1u32).put(out);
                x0.put(out);
                proof {
                    lemma_assoc(old(out)@, u32::bytes(1), AckW::bytes(*x0));
                }
            },
            SimpleBgpMessageW::Promise(x0) => {
                (2u32).put(out);
                x0.put(out);
                proof {
                    lemma_assoc(old(out)@, u32::bytes(2), RoutePromiseW::bytes(x0.val()));
                }
            },
            SimpleBgpMessageW::Withdraw(x0) => {
                (3u32).put(out);
                x0.put(out);
                proof {
                    lemma_assoc(old(out)@, u32::bytes(3), RouteWithdrawW::bytes(*x0));
                }
            },
        }
    }

    fn get<'a>(b: &'a [u8]) -> (r: Result<(SimpleBgpMessageW, &'a [u8]), DecodeError>) {
        let (tag, r0) = u32::get(b)?;
        if tag == 0 {
            let (x0, r1) = KeepAliveW::get(r0)?;
            Ok((SimpleBgpMessageW::KeepAlive(x0), r1))
        } else if tag == 1 {
            let (x0, r1) = AckW::get(r0)?;
            Ok((SimpleBgpMessageW::Ack(x0), r1))
        } else if tag == 2 {
            let (x0, r1) = RoutePromiseW::get(r0)?;
            Ok((SimpleBgpMessageW::Promise(x0), r1))
        } else if tag == 3 {
            let (x0, r1) = RouteWithdrawW::get(r0)?;
            Ok((SimpleBgpMessageW::Withdraw(x0), r1))
        } else {
            Err(DecodeError::UnknownTag)
        }
    }
}

#[derive(Debug)]
pub struct BgpEnvelopeW {
    pub msg_id: u64,
    pub sender_as: AsIdW,
    pub receiver_as: AsIdW,
    pub sender_bgp_ip: u32,
    pub receiver_bgp_ip: u32,
    pub message: SimpleBgpMessageW,
}

/// What a `BgpEnvelopeW` says.
#[verifier::ext_equal]
pub struct BgpEnvelopeV {
    pub msg_id: u64,
    pub sender_as: AsIdW,
    pub receiver_as: AsIdW,
    pub sender_bgp_ip: u32,
    pub receiver_bgp_ip: u32,
    pub message: SimpleBgpMessageV,
}

impl View for BgpEnvelopeW {
    type V = BgpEnvelopeV;

    open spec fn view(&self) -> BgpEnvelopeV {
        self.val()
    }
}

impl Wire for BgpEnvelopeW {
    type V = BgpEnvelopeV;

    open spec fn val(&self) -> BgpEnvelopeV {
        BgpEnvelopeV {
            msg_id: self.msg_id,
            sender_as: self.sender_as,
            receiver_as: self.receiver_as,
            sender_bgp_ip: self.sender_bgp_ip,
            receiver_bgp_ip: self.receiver_bgp_ip,
            message: self.message.val(),
        }
    }

    open spec fn bytes(v: BgpEnvelopeV) -> Seq<u8> {
        u64::bytes(v.msg_id) + (AsIdW::bytes(v.sender_as) + (AsIdW::bytes(v.receiver_as) + (u32::bytes(v.sender_bgp_ip) + (u32::bytes(v.receiver_bgp_ip) + (SimpleBgpMessageW::bytes(v.message))))))
    }

    open spec fn parse(b: Seq<u8>) -> Option<(BgpEnvelopeV, Seq<u8>)> {
        match u64::parse(b) {
            Some((msg_id, r1)) => match AsIdW::parse(r1) {
                Some((sender_as, r2)) => match AsIdW::parse(r2) {
                    Some((receiver_as, r3)) => match u32::parse(r3) {
                        Some((sender_bgp_ip, r4)) => match u32::parse(r4) {
                            Some((receiver_bgp_ip, r5)) => match SimpleBgpMessageW::parse(r5) {
                                Some((message, r6)) => Some((BgpEnvelopeV { msg_id, sender_as, receiver_as, sender_bgp_ip, receiver_bgp_ip, message }, r6)),
                                None => None,
                            },
                            None => None,
                        },
                        None => None,
                    },
                    None => None,
                },
                None => None,
            },
            None => None,
        }
    }

    open spec fn fits(v: BgpEnvelopeV) -> bool {
        SimpleBgpMessageW::fits(v.message)
    }

    proof fn reads_back(v: BgpEnvelopeV, rest: Seq<u8>) {
        u64::reads_back(v.msg_id, AsIdW::bytes(v.sender_as) + (AsIdW::bytes(v.receiver_as) + (u32::bytes(v.sender_bgp_ip) + (u32::bytes(v.receiver_bgp_ip) + (SimpleBgpMessageW::bytes(v.message) + rest)))));
        AsIdW::reads_back(v.sender_as, AsIdW::bytes(v.receiver_as) + (u32::bytes(v.sender_bgp_ip) + (u32::bytes(v.receiver_bgp_ip) + (SimpleBgpMessageW::bytes(v.message) + rest))));
        AsIdW::reads_back(v.receiver_as, u32::bytes(v.sender_bgp_ip) + (u32::bytes(v.receiver_bgp_ip) + (SimpleBgpMessageW::bytes(v.message) + rest)));
        u32::reads_back(v.sender_bgp_ip, u32::bytes(v.receiver_bgp_ip) + (SimpleBgpMessageW::bytes(v.message) + rest));
        u32::reads_back(v.receiver_bgp_ip, SimpleBgpMessageW::bytes(v.message) + rest);
        SimpleBgpMessageW::reads_back(v.message, rest);
        lemma_assoc(u32::bytes(v.receiver_bgp_ip), SimpleBgpMessageW::bytes(v.message), rest);
        lemma_assoc(u32::bytes(v.sender_bgp_ip), u32::bytes(v.receiver_bgp_ip) + (SimpleBgpMessageW::bytes(v.message)), rest);
        lemma_assoc(AsIdW::bytes(v.receiver_as), u32::bytes(v.sender_bgp_ip) + (u32::bytes(v.receiver_bgp_ip) + (SimpleBgpMessageW::bytes(v.message))), rest);
        lemma_assoc(AsIdW::bytes(v.sender_as), AsIdW::bytes(v.receiver_as) + (u32::bytes(v.sender_bgp_ip) + (u32::bytes(v.receiver_bgp_ip) + (SimpleBgpMessageW::bytes(v.message)))), rest);
        lemma_assoc(u64::bytes(v.msg_id), AsIdW::bytes(v.sender_as) + (AsIdW::bytes(v.receiver_as) + (u32::bytes(v.sender_bgp_ip) + (u32::bytes(v.receiver_bgp_ip) + (SimpleBgpMessageW::bytes(v.message))))), rest);
    }

    fn put(&self, out: &mut Vec<u8>) {
        self.msg_id.put(out);
        self.sender_as.put(out);
        self.receiver_as.put(out);
        self.sender_bgp_ip.put(out);
        self.receiver_bgp_ip.put(out);
        self.message.put(out);
        proof {
            lemma_assoc((((old(out)@ + u64::bytes(self.msg_id)) + AsIdW::bytes(self.sender_as)) + AsIdW::bytes(self.receiver_as)) + u32::bytes(self.sender_bgp_ip), u32::bytes(self.receiver_bgp_ip), SimpleBgpMessageW::bytes(self.message.val()));
            lemma_assoc(((old(out)@ + u64::bytes(self.msg_id)) + AsIdW::bytes(self.sender_as)) + AsIdW::bytes(self.receiver_as), u32::bytes(self.sender_bgp_ip), u32::bytes(self.receiver_bgp_ip) + (SimpleBgpMessageW::bytes(self.message.val())));
            lemma_assoc((old(out)@ + u64::bytes(self.msg_id)) + AsIdW::bytes(self.sender_as), AsIdW::bytes(self.receiver_as), u32::bytes(self.sender_bgp_ip) + (u32::bytes(self.receiver_bgp_ip) + (SimpleBgpMessageW::bytes(self.message.val()))));
            lemma_assoc(old(out)@ + u64::bytes(self.msg_id), AsIdW::bytes(self.sender_as), AsIdW::bytes(self.receiver_as) + (u32::bytes(self.sender_bgp_ip) + (u32::bytes(self.receiver_bgp_ip) + (SimpleBgpMessageW::bytes(self.message.val())))));
            lemma_assoc(old(out)@, u64::bytes(self.msg_id), AsIdW::bytes(self.sender_as) + (AsIdW::bytes(self.receiver_as) + (u32::bytes(self.sender_bgp_ip) + (u32::bytes(self.receiver_bgp_ip) + (SimpleBgpMessageW::bytes(self.message.val()))))));
        }
    }

    fn get<'a>(b: &'a [u8]) -> (r: Result<(BgpEnvelopeW, &'a [u8]), DecodeError>) {
        let (msg_id, r1) = u64::get(b)?;
        let (sender_as, r2) = AsIdW::get(r1)?;
        let (receiver_as, r3) = AsIdW::get(r2)?;
        let (sender_bgp_ip, r4) = u32::get(r3)?;
        let (receiver_bgp_ip, r5) = u32::get(r4)?;
        let (message, r6) = SimpleBgpMessageW::get(r5)?;
        Ok((BgpEnvelopeW { msg_id, sender_as, receiver_as, sender_bgp_ip, receiver_bgp_ip, message }, r6))
    }
}

/// The envelope as a packet payload.
pub fn encode_envelope(envelope: &BgpEnvelopeW) -> (r: Vec<u8>)
    ensures
        r@ == BgpEnvelopeW::bytes(envelope@),
{
    to_bytes(envelope)
}

/// The envelope that a packet payload starts with.
pub fn decode_envelope(bytes: &[u8]) -> (r: Result<BgpEnvelopeW, DecodeError>)
    ensures
        match r {
            Ok(e) => BgpEnvelopeW::parse(bytes@) matches Some((v, _)) && v == e@,
            Err(_) => BgpEnvelopeW::parse(bytes@) is None,
        },
{
    from_bytes(bytes)
}

} // verus!
