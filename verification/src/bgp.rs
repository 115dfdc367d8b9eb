//! SimpleBGP: a public-promise inter-AS protocol.
//!
//! The simulator stamps every packet with a hidden trail, hands SimpleBGP
//! packets that reach a speaker to this module, which checks them and keeps the
//! ledger of promises, and has every finished packet graded against the active
//! promises. Forwarding is never touched from here.

use crate::codec::Wire;
use crate::packet::{IpAddr, Packet, PacketView};
use crate::trace::{as_path_of, as_sequence};
use crate::types::{
    in_prefix, AsId, BgpMsgId, Duration, PromiseId, SimTime, SwitchId,
};
use crate::wire_bgp::{
    decode_envelope, AsPathW, BgpEnvelopeV, BgpEnvelopeW, BgpTagW, PrefixW, RoutePromiseV,
    RoutePromiseW, SimpleBgpMessageV, SimpleBgpMessageW, TrafficClassW,
};
use std::collections::HashMap;
use vstd::prelude::*;

verus! {

broadcast use vstd::std_specs::hash::group_hash_axioms;

#[derive(Debug, Clone, Copy, PartialEq, Eq, Hash, Structural)]
pub struct Prefix {
    pub addr: u32,
    pub len: u8,
}

impl Prefix {
    pub fn new(addr: u32, len: u8) -> (r: Prefix)
        ensures
            r == (Prefix { addr, len }),
    {
        Prefix { addr, len }
    }

    pub fn contains(&self, ip: u32) -> (r: bool)
        ensures
            r == in_prefix(self.addr, self.len, ip),
    {
        crate::types::Prefix::new(self.addr, self.len).contains(ip)
    }
}

/// The prefix that a wire prefix stands for.
pub open spec fn prefix_of(p: PrefixW) -> Prefix {
    Prefix { addr: p.addr, len: p.len }
}

fn prefix_from_wire(p: PrefixW) -> (r: Prefix)
    ensures
        r == prefix_of(p),
{
    Prefix { addr: p.addr, len: p.len }
}

#[derive(Debug, Clone, Copy, PartialEq, Eq, Hash, Structural)]
pub enum TrafficClass {
    BestEffort,
    LowLatency,
    Throughput,
    UptimeSensitive,
    LowLatencyThroughput,
    Vod,
    Gaming,
    Enterprise,
    Backup,
    Hft,
}

/// The class that a wire class stands for.
pub open spec fn class_of(t: TrafficClassW) -> TrafficClass {
    match t {
        TrafficClassW::BestEffort => TrafficClass::BestEffort,
        TrafficClassW::LowLatency => TrafficClass::LowLatency,
        TrafficClassW::Throughput => TrafficClass::Throughput,
        TrafficClassW::UptimeSensitive => TrafficClass::UptimeSensitive,
        TrafficClassW::LowLatencyThroughput => TrafficClass::LowLatencyThroughput,
        TrafficClassW::Vod => TrafficClass::Vod,
        TrafficClassW::Gaming => TrafficClass::Gaming,
        TrafficClassW::Enterprise => TrafficClass::Enterprise,
        TrafficClassW::Backup => TrafficClass::Backup,
        TrafficClassW::Hft => TrafficClass::Hft,
    }
}

fn class_from_wire(t: TrafficClassW) -> (r: TrafficClass)
    ensures
        r == class_of(t),
{
    match t {
        TrafficClassW::BestEffort => TrafficClass::BestEffort,
        TrafficClassW::LowLatency => TrafficClass::LowLatency,
        TrafficClassW::Throughput => TrafficClass::Throughput,
        TrafficClassW::UptimeSensitive => TrafficClass::UptimeSensitive,
        TrafficClassW::LowLatencyThroughput => TrafficClass::LowLatencyThroughput,
        TrafficClassW::Vod => TrafficClass::Vod,
        TrafficClassW::Gaming => TrafficClass::Gaming,
        TrafficClassW::Enterprise => TrafficClass::Enterprise,
        TrafficClassW::Backup => TrafficClass::Backup,
        TrafficClassW::Hft => TrafficClass::Hft,
    }
}

#[derive(Debug, Clone, Copy, PartialEq, Eq, Structural)]
pub enum BgpTag {
    NoExport,
    BackupOnly,
    LowLatencyHint,
    BulkOkay,
    Blackhole,
    Experimental(u32),
}

/// The tag that a wire tag stands for.
pub open spec fn tag_of(t: BgpTagW) -> BgpTag {
    match t {
        BgpTagW::NoExport => BgpTag::NoExport,
        BgpTagW::BackupOnly => BgpTag::BackupOnly,
        BgpTagW::LowLatencyHint => BgpTag::LowLatencyHint,
        BgpTagW::BulkOkay => BgpTag::BulkOkay,
        BgpTagW::Blackhole => BgpTag::Blackhole,
        BgpTagW::Experimental(v) => BgpTag::Experimental(v),
    }
}

fn tag_from_wire(t: BgpTagW) -> (r: BgpTag)
    ensures
        r == tag_of(t),
{
    match t {
        BgpTagW::NoExport => BgpTag::NoExport,
        BgpTagW::BackupOnly => BgpTag::BackupOnly,
        BgpTagW::LowLatencyHint => BgpTag::LowLatencyHint,
        BgpTagW::BulkOkay => BgpTag::BulkOkay,
        BgpTagW::Blackhole => BgpTag::Blackhole,
        BgpTagW::Experimental(v) => BgpTag::Experimental(v),
    }
}

#[derive(Debug)]
pub struct AsPath {
    pub ases: Vec<AsId>,
}

/// The ASes of each path.
pub open spec fn paths_view(v: Seq<AsPath>) -> Seq<Seq<AsId>> {
    v.map_values(|p: AsPath| p.ases@)
}

#[derive(Debug)]
pub struct RoutePromise {
    pub promise_id: PromiseId,
    pub prefix: Prefix,
    pub traffic_class: Option<TrafficClass>,
    pub promised_paths: Vec<AsPath>,
    pub tags: Vec<BgpTag>,
    pub valid_until: Option<SimTime>,
}

/// What a promise says.
#[verifier::ext_equal]
pub struct PromiseView {
    pub promise_id: PromiseId,
    pub prefix: Prefix,
    pub traffic_class: Option<TrafficClass>,
    pub promised_paths: Seq<Seq<AsId>>,
    pub tags: Seq<BgpTag>,
    pub valid_until: Option<SimTime>,
}

impl View for RoutePromise {
    type V = PromiseView;

    open spec fn view(&self) -> PromiseView {
        PromiseView {
            promise_id: self.promise_id,
            prefix: self.prefix,
            traffic_class: self.traffic_class,
            promised_paths: paths_view(self.promised_paths@),
            tags: self.tags@,
            valid_until: self.valid_until,
        }
    }
}

#[derive(Debug, Clone, Copy, PartialEq, Eq, Structural)]
pub struct RouteWithdraw {
    pub withdrawn_promise_id: Option<PromiseId>,
    pub prefix: Option<Prefix>,
    pub traffic_class: Option<TrafficClass>,
}

#[derive(Debug)]
pub enum SimpleBgpMessage {
    KeepAlive { nonce: u64 },
    Ack { acked_msg_id: BgpMsgId },
    Promise(RoutePromise),
    Withdraw(RouteWithdraw),
}

/// What a message says.
#[verifier::ext_equal]
pub enum MessageView {
    KeepAlive { nonce: u64 },
    Ack { acked_msg_id: BgpMsgId },
    Promise(PromiseView),
    Withdraw(RouteWithdraw),
}

impl View for SimpleBgpMessage {
    type V = MessageView;

    open spec fn view(&self) -> MessageView {
        match *self {
            SimpleBgpMessage::KeepAlive { nonce } => MessageView::KeepAlive { nonce },
            SimpleBgpMessage::Ack { acked_msg_id } => MessageView::Ack { acked_msg_id },
            SimpleBgpMessage::Promise(p) => MessageView::Promise(p@),
            SimpleBgpMessage::Withdraw(w) => MessageView::Withdraw(w),
        }
    }
}

#[derive(Debug)]
pub struct BgpEnvelope {
    pub msg_id: BgpMsgId,
    pub sender_as: AsId,
    pub receiver_as: AsId,
    pub sender_bgp_ip: IpAddr,
    pub receiver_bgp_ip: IpAddr,
    pub message: SimpleBgpMessage,
}

/// What an envelope says.
#[verifier::ext_equal]
pub struct EnvelopeView {
    pub msg_id: BgpMsgId,
    pub sender_as: AsId,
    pub receiver_as: AsId,
    pub sender_bgp_ip: IpAddr,
    pub receiver_bgp_ip: IpAddr,
    pub message: MessageView,
}

impl View for BgpEnvelope {
    type V = EnvelopeView;

    open spec fn view(&self) -> EnvelopeView {
        EnvelopeView {
            msg_id: self.msg_id,
            sender_as: self.sender_as,
            receiver_as: self.receiver_as,
            sender_bgp_ip: self.sender_bgp_ip,
            receiver_bgp_ip: self.receiver_bgp_ip,
            message: self.message@,
        }
    }
}

/// The promise that a wire promise stands for.
pub open spec fn promise_of(p: RoutePromiseV) -> PromiseView {
    PromiseView {
        promise_id: PromiseId(p.promise_id),
        prefix: prefix_of(p.prefix),
        traffic_class: match p.traffic_class {
            Some(t) => Some(class_of(t)),
            None => None,
        },
        promised_paths: Seq::new(
            p.promised_paths.len(),
            |i: int|
                Seq::new(
                    p.promised_paths[i].ases.len(),
                    |j: int| AsId(p.promised_paths[i].ases[j].0),
                ),
        ),
        tags: Seq::new(p.tags.len(), |i: int| tag_of(p.tags[i])),
        valid_until: match p.valid_until_ns {
            Some(n) => Some(Duration { nanos: n as u128 }),
            None => None,
        },
    }
}

/// The message that a wire message stands for.
pub open spec fn message_of(m: SimpleBgpMessageV) -> MessageView {
    match m {
        SimpleBgpMessageV::KeepAlive(k) => MessageView::KeepAlive { nonce: k.nonce },
        SimpleBgpMessageV::Ack(a) => MessageView::Ack { acked_msg_id: BgpMsgId(a.acked_msg_id) },
        SimpleBgpMessageV::Promise(p) => MessageView::Promise(promise_of(p)),
        SimpleBgpMessageV::Withdraw(w) => MessageView::Withdraw(
            RouteWithdraw {
                withdrawn_promise_id: match w.withdrawn_promise_id {
                    Some(n) => Some(PromiseId(n)),
                    None => None,
                },
                prefix: match w.prefix {
                    Some(p) => Some(prefix_of(p)),
                    None => None,
                },
                traffic_class: match w.traffic_class {
                    Some(t) => Some(class_of(t)),
                    None => None,
                },
            },
        ),
    }
}

/// The envelope that a wire envelope stands for.
pub open spec fn envelope_of(e: BgpEnvelopeV) -> EnvelopeView {
    EnvelopeView {
        msg_id: BgpMsgId(e.msg_id),
        sender_as: AsId(e.sender_as.0),
        receiver_as: AsId(e.receiver_as.0),
        sender_bgp_ip: IpAddr(e.sender_bgp_ip),
        receiver_bgp_ip: IpAddr(e.receiver_bgp_ip),
        message: message_of(e.message),
    }
}

fn path_from_wire(p: &AsPathW) -> (r: AsPath)
    ensures
        r.ases@ == Seq::new(p@.ases.len(), |j: int| AsId(p@.ases[j].0)),
{
    let mut ases: Vec<AsId> = Vec::new();
    let mut i: usize = 0;
    while i < p.ases.len()
        invariant
            i <= p.ases.len(),
            ases@ =~= Seq::new(i as nat, |j: int| AsId(p@.ases[j].0)),
        decreases p.ases.len() - i,
    {
        ases.push(AsId(p.ases[i].0));
        i += 1;
    }
    AsPath { ases }
}

fn promise_from_wire(p: &RoutePromiseW) -> (r: RoutePromise)
    ensures
        r@ == promise_of(p@),
{
    let ghost target = promise_of(p@);
    let mut promised_paths: Vec<AsPath> = Vec::new();
    let mut i: usize = 0;
    while i < p.promised_paths.len()
        invariant
            i <= p.promised_paths.len(),
            promised_paths@.len() == i,
            target == promise_of(p@),
            forall|j: int|
                0 <= j < i ==> (#[trigger] promised_paths@[j]).ases@ == target.promised_paths[j],
        decreases p.promised_paths.len() - i,
    {
        let path = path_from_wire(&p.promised_paths[i]);
        assert(p@.promised_paths[i as int] == p.promised_paths@[i as int]@);
        promised_paths.push(path);
        i += 1;
    }
    assert(paths_view(promised_paths@) =~= target.promised_paths);
    let mut tags: Vec<BgpTag> = Vec::new();
    let mut k: usize = 0;
    while k < p.tags.len()
        invariant
            k <= p.tags.len(),
            tags@ =~= Seq::new(k as nat, |j: int| tag_of(p@.tags[j])),
        decreases p.tags.len() - k,
    {
        tags.push(tag_from_wire(p.tags[k]));
        k += 1;
    }
    RoutePromise {
        promise_id: PromiseId(p.promise_id),
        prefix: prefix_from_wire(p.prefix),
        traffic_class: match p.traffic_class {
            Some(t) => Some(class_from_wire(t)),
            None => None,
        },
        promised_paths,
        tags,
        valid_until: match p.valid_until_ns {
            Some(n) => Some(Duration::from_nanos(n)),
            None => None,
        },
    }
}

impl BgpEnvelope {
    pub fn from_wire(env: BgpEnvelopeW) -> (r: BgpEnvelope)
        ensures
            r@ == envelope_of(env@),
    {
        let message = match &env.message {
            SimpleBgpMessageW::KeepAlive(k) => SimpleBgpMessage::KeepAlive { nonce: k.nonce },
            SimpleBgpMessageW::Ack(a) => SimpleBgpMessage::Ack {
                acked_msg_id: BgpMsgId(a.acked_msg_id),
            },
            SimpleBgpMessageW::Promise(p) => SimpleBgpMessage::Promise(promise_from_wire(p)),
            SimpleBgpMessageW::Withdraw(w) => SimpleBgpMessage::Withdraw(
                RouteWithdraw {
                    withdrawn_promise_id: match w.withdrawn_promise_id {
                        Some(n) => Some(PromiseId(n)),
                        None => None,
                    },
                    prefix: match w.prefix {
                        Some(p) => Some(prefix_from_wire(p)),
                        None => None,
                    },
                    traffic_class: match w.traffic_class {
                        Some(t) => Some(class_from_wire(t)),
                        None => None,
                    },
                },
            ),
        };
        BgpEnvelope {
            msg_id: BgpMsgId(env.msg_id),
            sender_as: AsId(env.sender_as.0),
            receiver_as: AsId(env.receiver_as.0),
            sender_bgp_ip: IpAddr(env.sender_bgp_ip),
            receiver_bgp_ip: IpAddr(env.receiver_bgp_ip),
            message,
        }
    }
}

#[derive(Debug)]
pub struct AsInfo {
    pub as_id: AsId,
    pub border_switch: SwitchId,
    pub bgp_speaker_ip: IpAddr,
    pub owned_prefixes: Vec<Prefix>,
}

/// What is known of an AS.
#[verifier::ext_equal]
pub struct AsInfoView {
    pub as_id: AsId,
    pub border_switch: SwitchId,
    pub bgp_speaker_ip: IpAddr,
    pub owned_prefixes: Seq<Prefix>,
}

impl View for AsInfo {
    type V = AsInfoView;

    open spec fn view(&self) -> AsInfoView {
        AsInfoView {
            as_id: self.as_id,
            border_switch: self.border_switch,
            bgp_speaker_ip: self.bgp_speaker_ip,
            owned_prefixes: self.owned_prefixes@,
        }
    }
}

#[derive(Debug)]
pub struct AsRegistry {
    /// One entry per AS, in the order of first registration.
    pub ases: Vec<AsInfo>,
    /// Which AS a switch belongs to, by raw switch id. Switches not listed here
    /// belong to none.
    pub switch_to_as: HashMap<u32, AsId>,
}

/// What a registry holds.
#[verifier::ext_equal]
pub struct RegistryView {
    pub ases: Seq<AsInfoView>,
    pub switch_to_as: Map<u32, AsId>,
}

impl View for AsRegistry {
    type V = RegistryView;

    open spec fn view(&self) -> RegistryView {
        RegistryView {
            ases: self.ases@.map_values(|a: AsInfo| a@),
            switch_to_as: self.switch_to_as@,
        }
    }
}

/// The place of an AS in the list, from `i` on; the end if it is not there.
pub open spec fn as_place(s: Seq<AsInfoView>, id: AsId, i: int) -> int
    decreases s.len() - i,
{
    if i >= s.len() {
        s.len() as int
    } else if s[i].as_id == id {
        i
    } else {
        as_place(s, id, i + 1)
    }
}

/// The first AS, from place `i` on, whose speaker has this address.
pub open spec fn speaker_from(s: Seq<AsInfoView>, ip: IpAddr, i: int) -> Option<AsId>
    decreases s.len() - i,
{
    if i >= s.len() {
        None
    } else if s[i].bgp_speaker_ip == ip {
        Some(s[i].as_id)
    } else {
        speaker_from(s, ip, i + 1)
    }
}

/// A switch-to-AS map with more switches of one AS.
pub open spec fn with_members(m: Map<u32, AsId>, switches: Seq<SwitchId>, id: AsId) -> Map<u32, AsId>
    decreases switches.len(),
{
    if switches.len() == 0 {
        m
    } else {
        with_members(m, switches.drop_last(), id).insert(switches.last().0, id)
    }
}

proof fn lemma_as_place(s: Seq<AsInfoView>, id: AsId, i: int)
    requires
        0 <= i <= s.len(),
    ensures
        i <= as_place(s, id, i) <= s.len(),
        as_place(s, id, i) < s.len() ==> s[as_place(s, id, i)].as_id == id,
    decreases s.len() - i,
{
    if i < s.len() && s[i].as_id != id {
        lemma_as_place(s, id, i + 1);
    }
}

impl RegistryView {
    /// What is known of an AS.
    pub open spec fn info(self, id: AsId) -> Option<AsInfoView> {
        let k = as_place(self.ases, id, 0);
        if k < self.ases.len() {
            Some(self.ases[k])
        } else {
            None
        }
    }

    pub open spec fn as_of_switch(self, s: SwitchId) -> Option<AsId> {
        if self.switch_to_as.contains_key(s.0) {
            Some(self.switch_to_as[s.0])
        } else {
            None
        }
    }

    pub open spec fn as_of_ip(self, ip: IpAddr) -> Option<AsId> {
        speaker_from(self.ases, ip, 0)
    }

    /// Whether an AS is registered as the owner of exactly this prefix.
    pub open spec fn owns(self, id: AsId, prefix: Prefix) -> bool {
        match self.info(id) {
            Some(a) => a.owned_prefixes.contains(prefix),
            None => false,
        }
    }

    /// The registry after an AS was added: it takes the place of one with the
    /// same id, and its switches belong to it from then on.
    pub open spec fn with_as(self, a: AsInfoView, interior: Seq<SwitchId>) -> RegistryView {
        let k = as_place(self.ases, a.as_id, 0);
        RegistryView {
            ases: if k < self.ases.len() {
                self.ases.update(k, a)
            } else {
                self.ases.push(a)
            },
            switch_to_as: with_members(
                self.switch_to_as.insert(a.border_switch.0, a.as_id),
                interior,
                a.as_id,
            ),
        }
    }
}

/// Nothing registered.
pub open spec fn empty_registry() -> RegistryView {
    RegistryView { ases: Seq::empty(), switch_to_as: Map::empty() }
}

impl Default for AsRegistry {
    fn default() -> (r: AsRegistry)
        ensures
            r@ == empty_registry(),
    {
        AsRegistry::new()
    }
}

impl AsRegistry {
    pub fn new() -> (r: AsRegistry)
        ensures
            r@ == empty_registry(),
    {
        let r = AsRegistry { ases: Vec::new(), switch_to_as: HashMap::new() };
        assert(r@.ases =~= Seq::empty());
        r
    }

    fn index_of(&self, id: AsId) -> (k: usize)
        ensures
            k == as_place(self@.ases, id, 0),
            k <= self.ases@.len(),
    {
        let mut i: usize = 0;
        while i < self.ases.len()
            invariant
                i <= self.ases.len(),
                as_place(self@.ases, id, 0) == as_place(self@.ases, id, i as int),
            decreases self.ases.len() - i,
        {
            if self.ases[i].as_id == id {
                return i;
            }
            i += 1;
        }
        i
    }

    /// What is known of an AS.
    pub fn info(&self, id: AsId) -> (r: Option<&AsInfo>)
        ensures
            match r {
                Some(a) => self@.info(id) == Some(a@),
                None => self@.info(id) is None,
            },
    {
        let k: usize = self.index_of(id);
        if k < self.ases.len() {
            Some(&self.ases[k])
        } else {
            None
        }
    }

    /// Registers an AS along with its border switch and any interior switches
    /// that belong to it.
    pub fn add_as(&mut self, info: AsInfo, interior_switches: &[SwitchId])
        ensures
            final(self)@ == old(self)@.with_as(info@, interior_switches@),
    {
        let ghost before = self@;
        let ghost a = info@;
        let as_id = info.as_id;
        let border = info.border_switch;
        let k: usize = self.index_of(as_id);
        proof {
            lemma_as_place(before.ases, as_id, 0);
        }
        if k < self.ases.len() {
            self.ases.set(k, info);
            assert(self@.ases =~= before.ases.update(k as int, a));
        } else {
            self.ases.push(info);
            assert(self@.ases =~= before.ases.push(a));
        }
        let ghost ases = self@.ases;
        self.switch_to_as.insert(border.0, as_id);
        let ghost base = self@.switch_to_as;
        let mut i: usize = 0;
        while i < interior_switches.len()
            invariant
                i <= interior_switches.len(),
                self@.ases == ases,
                self@.switch_to_as == with_members(base, interior_switches@.take(i as int), as_id),
            decreases interior_switches.len() - i,
        {
            proof {
                let t = interior_switches@.take(i + 1);
                assert(t.drop_last() =~= interior_switches@.take(i as int));
                assert(t.last() == interior_switches@[i as int]);
            }
            self.switch_to_as.insert(interior_switches[i].0, as_id);
            i += 1;
        }
        assert(interior_switches@.take(i as int) =~= interior_switches@);
    }

    pub fn as_for_switch(&self, switch: SwitchId) -> (r: Option<AsId>)
        ensures
            r == self@.as_of_switch(switch),
    {
        match self.switch_to_as.get(&switch.0) {
            Some(a) => Some(*a),
            None => None,
        }
    }

    /// The AS whose speaker has this address; of several, the one registered
    /// first.
    pub fn as_for_ip(&self, ip: IpAddr) -> (r: Option<AsId>)
        ensures
            r == self@.as_of_ip(ip),
    {
        let mut i: usize = 0;
        while i < self.ases.len()
            invariant
                i <= self.ases.len(),
                self@.as_of_ip(ip) == speaker_from(self@.ases, ip, i as int),
            decreases self.ases.len() - i,
        {
            if self.ases[i].bgp_speaker_ip == ip {
                return Some(self.ases[i].as_id);
            }
            i += 1;
        }
        None
    }

    pub fn owns_prefix(&self, as_id: AsId, prefix: Prefix) -> (r: bool)
        ensures
            r == self@.owns(as_id, prefix),
    {
        match self.info(as_id) {
            Some(a) => {
                let mut i: usize = 0;
                while i < a.owned_prefixes.len()
                    invariant
                        i <= a.owned_prefixes.len(),
                        self@.info(as_id) == Some(a@),
                        forall|j: int| 0 <= j < i ==> a.owned_prefixes@[j] != prefix,
                    decreases a.owned_prefixes.len() - i,
                {
                    if a.owned_prefixes[i] == prefix {
                        assert(a@.owned_prefixes[i as int] == prefix);
                        return true;
                    }
                    i += 1;
                }
                false
            },
            None => false,
        }
    }
}

#[derive(Debug, Clone, Copy, PartialEq, Eq, Structural)]
pub enum BgpValidationError {
    InvalidEnvelope,
    UnknownAs,
    UnknownBgpSpeaker,
    InvalidPath,
    UnauthorizedPrefixOrigin,
    WrongReceiver,
}

/// What is wrong with a promised path, if anything: it must start with the
/// sender and end with the owner of the prefix.
pub open spec fn path_error(r: RegistryView, sender: AsId, prefix: Prefix, path: Seq<AsId>) -> Option<
    BgpValidationError,
> {
    if path.len() == 0 || path[0] != sender {
        Some(BgpValidationError::InvalidPath)
    } else if !r.owns(path.last(), prefix) {
        Some(BgpValidationError::UnauthorizedPrefixOrigin)
    } else {
        None
    }
}

/// What is wrong with the first faulty path from place `i` on.
pub open spec fn paths_error(
    r: RegistryView,
    sender: AsId,
    prefix: Prefix,
    paths: Seq<Seq<AsId>>,
    i: int,
) -> Option<BgpValidationError>
    decreases paths.len() - i,
{
    if i >= paths.len() {
        None
    } else if path_error(r, sender, prefix, paths[i]) is Some {
        path_error(r, sender, prefix, paths[i])
    } else {
        paths_error(r, sender, prefix, paths, i + 1)
    }
}

/// What is wrong with a received envelope, if anything.
pub open spec fn envelope_error(e: EnvelopeView, r: RegistryView, at: SwitchId) -> Option<
    BgpValidationError,
> {
    match (r.info(e.sender_as), r.info(e.receiver_as)) {
        (Some(sender), Some(receiver)) => if sender.bgp_speaker_ip != e.sender_bgp_ip
            || receiver.bgp_speaker_ip != e.receiver_bgp_ip {
            Some(BgpValidationError::UnknownBgpSpeaker)
        } else if receiver.border_switch != at {
            Some(BgpValidationError::WrongReceiver)
        } else {
            match e.message {
                MessageView::Promise(p) => if p.promised_paths.len() == 0 {
                    Some(BgpValidationError::InvalidPath)
                } else {
                    paths_error(r, e.sender_as, p.prefix, p.promised_paths, 0)
                },
                _ => None,
            }
        },
        _ => Some(BgpValidationError::UnknownAs),
    }
}

/// Checks a received envelope against the registry. `arrived_at_switch` is the
/// switch that the packet actually reached.
pub fn validate_envelope(
    env: &BgpEnvelope,
    registry: &AsRegistry,
    arrived_at_switch: SwitchId,
) -> (r: Result<(), BgpValidationError>)
    ensures
        match envelope_error(env@, registry@, arrived_at_switch) {
            Some(e) => r == Err::<(), BgpValidationError>(e),
            None => r is Ok,
        },
{
    let sender_info = match registry.info(env.sender_as) {
        Some(a) => a,
        None => return Err(BgpValidationError::UnknownAs),
    };
    let receiver_info = match registry.info(env.receiver_as) {
        Some(a) => a,
        None => return Err(BgpValidationError::UnknownAs),
    };
    if sender_info.bgp_speaker_ip != env.sender_bgp_ip {
        return Err(BgpValidationError::UnknownBgpSpeaker);
    }
    if receiver_info.bgp_speaker_ip != env.receiver_bgp_ip {
        return Err(BgpValidationError::UnknownBgpSpeaker);
    }
    if receiver_info.border_switch != arrived_at_switch {
        return Err(BgpValidationError::WrongReceiver);
    }
    if let SimpleBgpMessage::Promise(p) = &env.message {
        if p.promised_paths.len() == 0 {
            return Err(BgpValidationError::InvalidPath);
        }
        let ghost paths = p@.promised_paths;
        let mut i: usize = 0;
        while i < p.promised_paths.len()
            invariant
                i <= p.promised_paths.len(),
                paths == paths_view(p.promised_paths@),
                paths.len() > 0,
                envelope_error(env@, registry@, arrived_at_switch) == paths_error(
                    registry@,
                    env.sender_as,
                    p.prefix,
                    paths,
                    i as int,
                ),
            decreases p.promised_paths.len() - i,
        {
            let ases = &p.promised_paths[i].ases;
            assert(paths[i as int] == ases@);
            if ases.len() == 0 || ases[0] != env.sender_as {
                return Err(BgpValidationError::InvalidPath);
            }
            let terminal = ases[ases.len() - 1];
            if !registry.owns_prefix(terminal, p.prefix) {
                return Err(BgpValidationError::UnauthorizedPrefixOrigin);
            }
            i += 1;
        }
    }
    Ok(())
}

proof fn lemma_no_paths_error(
    r: RegistryView,
    sender: AsId,
    prefix: Prefix,
    paths: Seq<Seq<AsId>>,
    i: int,
)
    requires
        0 <= i,
        paths_error(r, sender, prefix, paths, i) is None,
    ensures
        forall|j: int|
            i <= j < paths.len() ==> (#[trigger] paths[j]).len() > 0 && paths[j][0] == sender
                && r.owns(paths[j].last(), prefix),
    decreases paths.len() - i,
{
    if i < paths.len() {
        lemma_no_paths_error(r, sender, prefix, paths, i + 1);
    }
}

/// Nobody can promise a route to a prefix that the end of the route does not
/// own, or a route that does not start with the sender.
pub proof fn accepted_promises_are_authorized(e: EnvelopeView, r: RegistryView, at: SwitchId)
    requires
        envelope_error(e, r, at) is None,
    ensures
        r.info(e.sender_as) is Some,
        r.info(e.receiver_as) is Some,
        e.message matches MessageView::Promise(p) ==> p.promised_paths.len() > 0 && forall|j: int|
            0 <= j < p.promised_paths.len() ==> (#[trigger] p.promised_paths[j]).len() > 0
                && p.promised_paths[j][0] == e.sender_as && r.owns(
                p.promised_paths[j].last(),
                p.prefix,
            ),
{
    if let MessageView::Promise(p) = e.message {
        lemma_no_paths_error(r, e.sender_as, p.prefix, p.promised_paths, 0);
    }
}

#[derive(Debug, Clone, Copy, PartialEq, Eq, Structural)]
pub enum PromiseStatus {
    Active,
    Withdrawn { withdrawn_at: SimTime },
    Expired { expired_at: SimTime },
}

#[derive(Debug)]
pub struct PromiseLedgerEntry {
    pub promise_id: PromiseId,
    pub sender_as: AsId,
    pub receiver_as: AsId,
    pub prefix: Prefix,
    pub traffic_class: Option<TrafficClass>,
    pub promised_paths: Vec<AsPath>,
    pub tags: Vec<BgpTag>,
    pub received_at: SimTime,
    pub valid_until: Option<SimTime>,
    pub status: PromiseStatus,
}

/// What a ledger entry says.
#[verifier::ext_equal]
pub struct EntryView {
    pub promise_id: PromiseId,
    pub sender_as: AsId,
    pub receiver_as: AsId,
    pub prefix: Prefix,
    pub traffic_class: Option<TrafficClass>,
    pub promised_paths: Seq<Seq<AsId>>,
    pub tags: Seq<BgpTag>,
    pub received_at: SimTime,
    pub valid_until: Option<SimTime>,
    pub status: PromiseStatus,
}

impl View for PromiseLedgerEntry {
    type V = EntryView;

    open spec fn view(&self) -> EntryView {
        EntryView {
            promise_id: self.promise_id,
            sender_as: self.sender_as,
            receiver_as: self.receiver_as,
            prefix: self.prefix,
            traffic_class: self.traffic_class,
            promised_paths: paths_view(self.promised_paths@),
            tags: self.tags@,
            received_at: self.received_at,
            valid_until: self.valid_until,
            status: self.status,
        }
    }
}

/// Two ASes, in order, as one number.
pub open spec fn as_pair(from: AsId, to: AsId) -> u64 {
    (from.0 as u64 * 0x1_0000_0000 + to.0 as u64) as u64
}

fn as_pair_key(from: AsId, to: AsId) -> (r: u64)
    ensures
        r == as_pair(from, to),
{
    (from.0 as u64) * 0x1_0000_0000 + (to.0 as u64)
}

/// No two ordered pairs share a number.
pub proof fn as_pairs_are_unique(a: AsId, b: AsId, c: AsId, d: AsId)
    ensures
        as_pair(a, b) == as_pair(c, d) <==> a == c && b == d,
{
}

#[derive(Debug)]
pub struct PromiseLedger {
    /// Entries in the order of arrival; a repeated promise replaces its entry
    /// in place.
    pub entries: Vec<PromiseLedgerEntry>,
    /// When each pair of ASes last exchanged a message.
    pub last_seen: HashMap<u64, SimTime>,
}

/// What a ledger holds.
#[verifier::ext_equal]
pub struct LedgerView {
    pub entries: Seq<EntryView>,
    pub last_seen: Map<u64, SimTime>,
}

impl View for PromiseLedger {
    type V = LedgerView;

    open spec fn view(&self) -> LedgerView {
        LedgerView {
            entries: self.entries@.map_values(|e: PromiseLedgerEntry| e@),
            last_seen: self.last_seen@,
        }
    }
}

/// The entry that a promise received now becomes.
pub open spec fn entry_of(sender: AsId, receiver: AsId, p: PromiseView, now: SimTime) -> EntryView {
    EntryView {
        promise_id: p.promise_id,
        sender_as: sender,
        receiver_as: receiver,
        prefix: p.prefix,
        traffic_class: p.traffic_class,
        promised_paths: p.promised_paths,
        tags: p.tags,
        received_at: now,
        valid_until: p.valid_until,
        status: PromiseStatus::Active,
    }
}

/// The place of the entry for a promise, from `i` on; the end if there is none.
pub open spec fn entry_place(
    s: Seq<EntryView>,
    sender: AsId,
    receiver: AsId,
    id: PromiseId,
    i: int,
) -> int
    decreases s.len() - i,
{
    if i >= s.len() {
        s.len() as int
    } else if s[i].sender_as == sender && s[i].receiver_as == receiver && s[i].promise_id == id {
        i
    } else {
        entry_place(s, sender, receiver, id, i + 1)
    }
}

/// Whether a withdrawal takes an entry back: it is active, between the same two
/// ASes, and agrees on whatever the withdrawal names.
pub open spec fn withdraws(e: EntryView, sender: AsId, receiver: AsId, w: RouteWithdraw) -> bool {
    &&& e.status == PromiseStatus::Active
    &&& e.sender_as == sender
    &&& e.receiver_as == receiver
    &&& w.withdrawn_promise_id matches Some(id) ==> e.promise_id == id
    &&& w.prefix matches Some(p) ==> e.prefix == p
    &&& w.traffic_class matches Some(c) ==> e.traffic_class == Some(c)
}

/// An entry after a withdrawal.
pub open spec fn after_withdraw(
    e: EntryView,
    sender: AsId,
    receiver: AsId,
    w: RouteWithdraw,
    now: SimTime,
) -> EntryView {
    if withdraws(e, sender, receiver, w) {
        EntryView { status: PromiseStatus::Withdrawn { withdrawn_at: now }, ..e }
    } else {
        e
    }
}

/// An entry after the clock reached `now`: an active one whose time has passed is
/// expired.
pub open spec fn after_expiry(e: EntryView, now: SimTime) -> EntryView {
    if e.status == PromiseStatus::Active && (e.valid_until matches Some(d) && d.nanos < now.nanos) {
        EntryView { status: PromiseStatus::Expired { expired_at: now }, ..e }
    } else {
        e
    }
}

/// Whether an entry is an active promise of `sender` to `receiver` that covers
/// the address.
pub open spec fn covers(e: EntryView, sender: AsId, receiver: AsId, ip: u32) -> bool {
    e.status == PromiseStatus::Active && e.sender_as == sender && e.receiver_as == receiver
        && in_prefix(e.prefix.addr, e.prefix.len, ip)
}

/// The active entries, in order.
pub open spec fn active_entries(s: Seq<EntryView>) -> Seq<EntryView> {
    s.filter(|e: EntryView| e.status == PromiseStatus::Active)
}

/// The promises that cover an address, in order. Where a class is asked for,
/// those of that class if there are any, and otherwise those of no class.
pub open spec fn covering(
    s: Seq<EntryView>,
    sender: AsId,
    receiver: AsId,
    ip: u32,
    class: Option<TrafficClass>,
) -> Seq<EntryView> {
    let matched = s.filter(
        |e: EntryView| covers(e, sender, receiver, ip) && e.traffic_class == class,
    );
    if class is Some && matched.len() > 0 {
        matched
    } else {
        s.filter(
            |e: EntryView|
                covers(e, sender, receiver, ip) && (e.traffic_class is None || class is None),
        )
    }
}

impl LedgerView {
    pub open spec fn seen(self, from: AsId, to: AsId, now: SimTime) -> LedgerView {
        LedgerView { last_seen: self.last_seen.insert(as_pair(from, to), now), ..self }
    }

    /// The ledger after a promise arrived. One with the id of an earlier promise
    /// between the same ASes renews it.
    pub open spec fn promised(
        self,
        sender: AsId,
        receiver: AsId,
        p: PromiseView,
        now: SimTime,
    ) -> LedgerView {
        let k = entry_place(self.entries, sender, receiver, p.promise_id, 0);
        let e = entry_of(sender, receiver, p, now);
        LedgerView {
            entries: if k < self.entries.len() {
                self.entries.update(k, e)
            } else {
                self.entries.push(e)
            },
            ..self.seen(sender, receiver, now)
        }
    }

    /// The ledger after a withdrawal arrived.
    pub open spec fn withdrawn(
        self,
        sender: AsId,
        receiver: AsId,
        w: RouteWithdraw,
        now: SimTime,
    ) -> LedgerView {
        LedgerView {
            entries: Seq::new(
                self.entries.len(),
                |i: int| after_withdraw(self.entries[i], sender, receiver, w, now),
            ),
            ..self.seen(sender, receiver, now)
        }
    }

    /// The ledger after the clock reached `now`.
    pub open spec fn expired(self, now: SimTime) -> LedgerView {
        LedgerView {
            entries: Seq::new(self.entries.len(), |i: int| after_expiry(self.entries[i], now)),
            ..self
        }
    }
}

/// An empty ledger.
pub open spec fn empty_ledger() -> LedgerView {
    LedgerView { entries: Seq::empty(), last_seen: Map::empty() }
}

fn copy_ases(v: &Vec<AsId>) -> (r: Vec<AsId>)
    ensures
        r@ == v@,
{
    let r = v.clone();
    assert(r@ =~= v@);
    r
}

fn copy_paths(v: &Vec<AsPath>) -> (r: Vec<AsPath>)
    ensures
        paths_view(r@) == paths_view(v@),
{
    let mut out: Vec<AsPath> = Vec::new();
    let mut i: usize = 0;
    while i < v.len()
        invariant
            i <= v.len(),
            out@.len() == i,
            forall|j: int| 0 <= j < i ==> (#[trigger] out@[j]).ases@ == v@[j].ases@,
        decreases v.len() - i,
    {
        out.push(AsPath { ases: copy_ases(&v[i].ases) });
        i += 1;
    }
    assert(paths_view(out@) =~= paths_view(v@));
    out
}

fn copy_tags(v: &Vec<BgpTag>) -> (r: Vec<BgpTag>)
    ensures
        r@ == v@,
{
    let r = v.clone();
    assert(r@ =~= v@);
    r
}

proof fn lemma_entry_place(s: Seq<EntryView>, sender: AsId, receiver: AsId, id: PromiseId, i: int)
    requires
        0 <= i <= s.len(),
    ensures
        i <= entry_place(s, sender, receiver, id, i) <= s.len(),
    decreases s.len() - i,
{
    if i < s.len() && !(s[i].sender_as == sender && s[i].receiver_as == receiver && s[i].promise_id
        == id) {
        lemma_entry_place(s, sender, receiver, id, i + 1);
    }
}

impl Default for PromiseLedger {
    fn default() -> (r: PromiseLedger)
        ensures
            r@ == empty_ledger(),
    {
        PromiseLedger::new()
    }
}

impl PromiseLedger {
    pub fn new() -> (r: PromiseLedger)
        ensures
            r@ == empty_ledger(),
    {
        let r = PromiseLedger { entries: Vec::new(), last_seen: HashMap::new() };
        assert(r@.entries =~= Seq::empty());
        r
    }

    fn record_seen(&mut self, from: AsId, to: AsId, now: SimTime)
        ensures
            final(self)@ == old(self)@.seen(from, to, now),
    {
        self.last_seen.insert(as_pair_key(from, to), now);
    }

    fn index_of(&self, sender: AsId, receiver: AsId, id: PromiseId) -> (k: usize)
        ensures
            k == entry_place(self@.entries, sender, receiver, id, 0),
            k <= self.entries@.len(),
    {
        let mut i: usize = 0;
        while i < self.entries.len()
            invariant
                i <= self.entries.len(),
                entry_place(self@.entries, sender, receiver, id, 0) == entry_place(
                    self@.entries,
                    sender,
                    receiver,
                    id,
                    i as int,
                ),
            decreases self.entries.len() - i,
        {
            let e = &self.entries[i];
            if e.sender_as == sender && e.receiver_as == receiver && e.promise_id == id {
                return i;
            }
            i += 1;
        }
        i
    }

    /// Inserts or renews a promise.
    pub fn record_promise(
        &mut self,
        sender: AsId,
        receiver: AsId,
        p: &RoutePromise,
        now: SimTime,
    )
        ensures
            final(self)@ == old(self)@.promised(sender, receiver, p@, now),
    {
        let ghost before = self@;
        self.record_seen(sender, receiver, now);
        let entry = PromiseLedgerEntry {
            promise_id: p.promise_id,
            sender_as: sender,
            receiver_as: receiver,
            prefix: p.prefix,
            traffic_class: p.traffic_class,
            promised_paths: copy_paths(&p.promised_paths),
            tags: copy_tags(&p.tags),
            received_at: now,
            valid_until: p.valid_until,
            status: PromiseStatus::Active,
        };
        let ghost e = entry_of(sender, receiver, p@, now);
        let k: usize = self.index_of(sender, receiver, p.promise_id);
        proof {
            lemma_entry_place(before.entries, sender, receiver, p.promise_id, 0);
        }
        if k < self.entries.len() {
            self.entries.set(k, entry);
            assert(self@.entries =~= before.entries.update(k as int, e));
        } else {
            self.entries.push(entry);
            assert(self@.entries =~= before.entries.push(e));
        }
    }

    /// Applies a withdrawal received by `receiver` from `sender`.
    pub fn record_withdraw(
        &mut self,
        sender: AsId,
        receiver: AsId,
        w: &RouteWithdraw,
        now: SimTime,
    )
        ensures
            final(self)@ == old(self)@.withdrawn(sender, receiver, *w, now),
    {
        let ghost before = self@;
        self.record_seen(sender, receiver, now);
        let mut i: usize = 0;
        while i < self.entries.len()
            invariant
                i <= self.entries.len(),
                self.entries@.len() == before.entries.len(),
                self.last_seen@ == before.seen(sender, receiver, now).last_seen,
                forall|j: int|
                    0 <= j < i ==> (#[trigger] self.entries@[j])@ == after_withdraw(
                        before.entries[j],
                        sender,
                        receiver,
                        *w,
                        now,
                    ),
                forall|j: int|
                    i <= j < self.entries@.len() ==> (#[trigger] self.entries@[j])@
                        == before.entries[j],
            decreases self.entries.len() - i,
        {
            let e = &self.entries[i];
            assert(e@ == before.entries[i as int]);
            let named = match w.withdrawn_promise_id {
                Some(id) => e.promise_id == id,
                None => true,
            };
            let placed = match w.prefix {
                Some(p) => e.prefix == p,
                None => true,
            };
            let classed = match w.traffic_class {
                Some(c) => match e.traffic_class {
                    Some(d) => d == c,
                    None => false,
                },
                None => true,
            };
            if e.status == PromiseStatus::Active && e.sender_as == sender && e.receiver_as
                == receiver && named && placed && classed {
                self.entries[i].status = PromiseStatus::Withdrawn { withdrawn_at: now };
            }
            i += 1;
        }
        assert(self@.entries =~= before.withdrawn(sender, receiver, *w, now).entries);
    }

    /// Marks every promise whose time has come as expired.
    pub fn expire(&mut self, now: SimTime)
        ensures
            final(self)@ == old(self)@.expired(now),
    {
        let ghost before = self@;
        let mut i: usize = 0;
        while i < self.entries.len()
            invariant
                i <= self.entries.len(),
                self.entries@.len() == before.entries.len(),
                self.last_seen@ == before.last_seen,
                forall|j: int|
                    0 <= j < i ==> (#[trigger] self.entries@[j])@ == after_expiry(
                        before.entries[j],
                        now,
                    ),
                forall|j: int|
                    i <= j < self.entries@.len() ==> (#[trigger] self.entries@[j])@
                        == before.entries[j],
            decreases self.entries.len() - i,
        {
            assert(self.entries@[i as int]@ == before.entries[i as int]);
            if self.entries[i].status == PromiseStatus::Active {
                if let Some(deadline) = self.entries[i].valid_until {
                    if deadline.nanos < now.nanos {
                        self.entries[i].status = PromiseStatus::Expired { expired_at: now };
                    }
                }
            }
            i += 1;
        }
        assert(self@.entries =~= before.expired(now).entries);
    }

    pub fn active_promises(&self) -> (r: Vec<&PromiseLedgerEntry>)
        ensures
            r@.map_values(|e: &PromiseLedgerEntry| e@) == active_entries(self@.entries),
    {
        let ghost f = |e: EntryView| e.status == PromiseStatus::Active;
        let ghost s = self@.entries;
        let mut out: Vec<&PromiseLedgerEntry> = Vec::new();
        let mut i: usize = 0;
        proof {
            reveal(Seq::filter);
            assert(out@.map_values(|e: &PromiseLedgerEntry| e@) =~= s.take(0).filter(f));
        }
        while i < self.entries.len()
            invariant
                i <= self.entries.len(),
                s == self@.entries,
                f == (|e: EntryView| e.status == PromiseStatus::Active),
                out@.map_values(|e: &PromiseLedgerEntry| e@) == s.take(i as int).filter(f),
            decreases self.entries.len() - i,
        {
            let ghost before = out@.map_values(|e: &PromiseLedgerEntry| e@);
            proof {
                reveal(Seq::filter);
                let t = s.take(i + 1);
                assert(t.drop_last() =~= s.take(i as int));
                assert(t.last() == self.entries@[i as int]@);
            }
            if self.entries[i].status == PromiseStatus::Active {
                out.push(&self.entries[i]);
                assert(out@.map_values(|e: &PromiseLedgerEntry| e@) =~= before.push(
                    self.entries@[i as int]@,
                ));
            }
            i += 1;
        }
        assert(s.take(i as int) =~= s);
        out
    }

    fn covers_here(
        e: &PromiseLedgerEntry,
        sender: AsId,
        receiver: AsId,
        ip: u32,
    ) -> (r: bool)
        ensures
            r == covers(e@, sender, receiver, ip),
    {
        e.status == PromiseStatus::Active && e.sender_as == sender && e.receiver_as == receiver
            && e.prefix.contains(ip)
    }

    /// Active promises of `sender` to `receiver` that cover the address. Where a
    /// class is given, those of that class if there are any, and otherwise those
    /// of no class.
    pub fn active_for(
        &self,
        sender: AsId,
        receiver: AsId,
        prefix_ip: u32,
        class: Option<TrafficClass>,
    ) -> (r: Vec<&PromiseLedgerEntry>)
        ensures
            r@.map_values(|e: &PromiseLedgerEntry| e@) == covering(
                self@.entries,
                sender,
                receiver,
                prefix_ip,
                class,
            ),
    {
        let ghost s = self@.entries;
        let ghost same = |e: EntryView|
            covers(e, sender, receiver, prefix_ip) && e.traffic_class == class;
        let ghost open = |e: EntryView|
            covers(e, sender, receiver, prefix_ip) && (e.traffic_class is None || class is None);
        let mut matched: Vec<&PromiseLedgerEntry> = Vec::new();
        let mut rest: Vec<&PromiseLedgerEntry> = Vec::new();
        let mut i: usize = 0;
        proof {
            reveal(Seq::filter);
            assert(matched@.map_values(|e: &PromiseLedgerEntry| e@) =~= s.take(0).filter(same));
            assert(rest@.map_values(|e: &PromiseLedgerEntry| e@) =~= s.take(0).filter(open));
        }
        while i < self.entries.len()
            invariant
                i <= self.entries.len(),
                s == self@.entries,
                same == (|e: EntryView|
                    covers(e, sender, receiver, prefix_ip) && e.traffic_class == class),
                open == (|e: EntryView|
                    covers(e, sender, receiver, prefix_ip) && (e.traffic_class is None || class
                        is None)),
                matched@.map_values(|e: &PromiseLedgerEntry| e@) == s.take(i as int).filter(same),
                rest@.map_values(|e: &PromiseLedgerEntry| e@) == s.take(i as int).filter(open),
            decreases self.entries.len() - i,
        {
            let ghost m = matched@.map_values(|e: &PromiseLedgerEntry| e@);
            let ghost o = rest@.map_values(|e: &PromiseLedgerEntry| e@);
            let e = &self.entries[i];
            proof {
                reveal(Seq::filter);
                let t = s.take(i + 1);
                assert(t.drop_last() =~= s.take(i as int));
                assert(t.last() == e@);
            }
            if Self::covers_here(e, sender, receiver, prefix_ip) {
                let equal = match (e.traffic_class, class) {
                    (Some(a), Some(b)) => a == b,
                    (None, None) => true,
                    _ => false,
                };
                if equal {
                    matched.push(e);
                    assert(matched@.map_values(|e: &PromiseLedgerEntry| e@) =~= m.push(e@));
                }
                if e.traffic_class.is_none() || class.is_none() {
                    rest.push(e);
                    assert(rest@.map_values(|e: &PromiseLedgerEntry| e@) =~= o.push(e@));
                }
            }
            i += 1;
        }
        assert(s.take(i as int) =~= s);
        if class.is_some() && matched.len() > 0 {
            matched
        } else {
            rest
        }
    }
}

/// A withdrawal ends every promise that it names, and no other; nothing that has
/// ended becomes active again by a withdrawal or by the passing of time.
pub proof fn ended_promises_stay_ended(
    l: LedgerView,
    sender: AsId,
    receiver: AsId,
    w: RouteWithdraw,
    now: SimTime,
    i: int,
)
    requires
        0 <= i < l.entries.len(),
    ensures
        l.entries[i].status != PromiseStatus::Active ==> l.withdrawn(
            sender,
            receiver,
            w,
            now,
        ).entries[i] == l.entries[i] && l.expired(now).entries[i] == l.entries[i],
        l.withdrawn(sender, receiver, w, now).entries[i].status == PromiseStatus::Active <==> (
        l.entries[i].status == PromiseStatus::Active && !withdraws(
            l.entries[i],
            sender,
            receiver,
            w,
        )),
{
}

/// Packets and bytes that kept to a promise, broke it, or had none. The counts
/// wrap.
#[derive(Debug, Clone, Copy, PartialEq, Eq, Structural)]
pub struct PromiseConformanceStats {
    pub packets_honored: u64,
    pub bytes_honored: u64,
    pub packets_violated: u64,
    pub bytes_violated: u64,
    pub packets_no_promise: u64,
    pub bytes_no_promise: u64,
}

/// Nothing counted.
pub open spec fn no_stats() -> PromiseConformanceStats {
    PromiseConformanceStats {
        packets_honored: 0,
        bytes_honored: 0,
        packets_violated: 0,
        bytes_violated: 0,
        packets_no_promise: 0,
        bytes_no_promise: 0,
    }
}

impl Default for PromiseConformanceStats {
    fn default() -> (r: PromiseConformanceStats)
        ensures
            r == no_stats(),
    {
        PromiseConformanceStats {
            packets_honored: 0,
            bytes_honored: 0,
            packets_violated: 0,
            bytes_violated: 0,
            packets_no_promise: 0,
            bytes_no_promise: 0,
        }
    }
}

/// What an AS promised and how it kept to it. The counts wrap.
#[derive(Debug, Clone, Copy, PartialEq, Eq, Structural)]
pub struct AsConformanceSummary {
    pub promises_sent: u64,
    pub promises_withdrawn: u64,
    pub packets_honored: u64,
    pub packets_violated: u64,
    pub bytes_honored: u64,
    pub bytes_violated: u64,
}

/// Nothing counted.
pub open spec fn no_summary() -> AsConformanceSummary {
    AsConformanceSummary {
        promises_sent: 0,
        promises_withdrawn: 0,
        packets_honored: 0,
        packets_violated: 0,
        bytes_honored: 0,
        bytes_violated: 0,
    }
}

impl Default for AsConformanceSummary {
    fn default() -> (r: AsConformanceSummary)
        ensures
            r == no_summary(),
    {
        AsConformanceSummary {
            promises_sent: 0,
            promises_withdrawn: 0,
            packets_honored: 0,
            packets_violated: 0,
            bytes_honored: 0,
            bytes_violated: 0,
        }
    }
}

/// Counts by raw promise id and by raw AS id.
#[derive(Debug)]
pub struct ConformanceMonitor {
    pub per_promise: HashMap<u64, PromiseConformanceStats>,
    pub per_as: HashMap<u32, AsConformanceSummary>,
}

/// What a monitor holds.
#[verifier::ext_equal]
pub struct MonitorView {
    pub per_promise: Map<u64, PromiseConformanceStats>,
    pub per_as: Map<u32, AsConformanceSummary>,
}

impl View for ConformanceMonitor {
    type V = MonitorView;

    open spec fn view(&self) -> MonitorView {
        MonitorView { per_promise: self.per_promise@, per_as: self.per_as@ }
    }
}

/// The first of the promises that has `observed` among its paths.
pub open spec fn kept_promise(promises: Seq<EntryView>, observed: Seq<AsId>, i: int) -> Option<
    PromiseId,
>
    decreases promises.len() - i,
{
    if i >= promises.len() {
        None
    } else if promises[i].promised_paths.contains(observed) {
        Some(promises[i].promise_id)
    } else {
        kept_promise(promises, observed, i + 1)
    }
}

impl MonitorView {
    pub open spec fn promise(self, id: PromiseId) -> PromiseConformanceStats {
        if self.per_promise.contains_key(id.0) {
            self.per_promise[id.0]
        } else {
            no_stats()
        }
    }

    pub open spec fn summary(self, id: AsId) -> AsConformanceSummary {
        if self.per_as.contains_key(id.0) {
            self.per_as[id.0]
        } else {
            no_summary()
        }
    }

    pub open spec fn sent(self, id: AsId) -> MonitorView {
        let s = self.summary(id);
        MonitorView {
            per_as: self.per_as.insert(
                id.0,
                AsConformanceSummary { promises_sent: s.promises_sent.wrapping_add(1), ..s },
            ),
            ..self
        }
    }

    pub open spec fn taken_back(self, id: AsId) -> MonitorView {
        let s = self.summary(id);
        MonitorView {
            per_as: self.per_as.insert(
                id.0,
                AsConformanceSummary {
                    promises_withdrawn: s.promises_withdrawn.wrapping_add(1),
                    ..s
                },
            ),
            ..self
        }
    }

    /// A packet kept to a promise.
    pub open spec fn honored(self, promise: PromiseId, by: AsId, size: u64) -> MonitorView {
        let p = self.promise(promise);
        let s = self.summary(by);
        MonitorView {
            per_promise: self.per_promise.insert(
                promise.0,
                PromiseConformanceStats {
                    packets_honored: p.packets_honored.wrapping_add(1),
                    bytes_honored: p.bytes_honored.wrapping_add(size),
                    ..p
                },
            ),
            per_as: self.per_as.insert(
                by.0,
                AsConformanceSummary {
                    packets_honored: s.packets_honored.wrapping_add(1),
                    bytes_honored: s.bytes_honored.wrapping_add(size),
                    ..s
                },
            ),
        }
    }

    /// A packet broke one promise.
    pub open spec fn broken(self, promise: PromiseId, size: u64) -> MonitorView {
        let p = self.promise(promise);
        MonitorView {
            per_promise: self.per_promise.insert(
                promise.0,
                PromiseConformanceStats {
                    packets_violated: p.packets_violated.wrapping_add(1),
                    bytes_violated: p.bytes_violated.wrapping_add(size),
                    ..p
                },
            ),
            ..self
        }
    }

    /// A packet broke each of these promises.
    pub open spec fn all_broken(self, promises: Seq<EntryView>, size: u64) -> MonitorView
        decreases promises.len(),
    {
        if promises.len() == 0 {
            self
        } else {
            self.all_broken(promises.drop_last(), size).broken(promises.last().promise_id, size)
        }
    }

    /// An AS broke its promises on a packet.
    pub open spec fn violated(self, promises: Seq<EntryView>, by: AsId, size: u64) -> MonitorView {
        let m = self.all_broken(promises, size);
        let s = m.summary(by);
        MonitorView {
            per_as: m.per_as.insert(
                by.0,
                AsConformanceSummary {
                    packets_violated: s.packets_violated.wrapping_add(1),
                    bytes_violated: s.bytes_violated.wrapping_add(size),
                    ..s
                },
            ),
            ..m
        }
    }

    /// Grades the hop into `path[i]`: the promises of that AS to the one before
    /// it are kept if the rest of the path is among them, and otherwise all
    /// broken. Without promises there is nothing to grade.
    pub open spec fn graded_hop(
        self,
        size: u64,
        ip: u32,
        path: Seq<AsId>,
        i: int,
        entries: Seq<EntryView>,
    ) -> MonitorView {
        let by = path[i];
        if path[i - 1] == by {
            self
        } else {
            let promises = covering(entries, by, path[i - 1], ip, None);
            if promises.len() == 0 {
                MonitorView { per_as: self.per_as.insert(by.0, self.summary(by)), ..self }
            } else {
                match kept_promise(promises, path.skip(i), 0) {
                    Some(id) => self.honored(id, by, size),
                    None => self.violated(promises, by, size),
                }
            }
        }
    }

    /// Grades the hops of a path up to but not including `path[n]`.
    pub open spec fn graded(
        self,
        size: u64,
        ip: u32,
        path: Seq<AsId>,
        n: int,
        entries: Seq<EntryView>,
    ) -> MonitorView
        decreases n,
    {
        if n <= 1 {
            self
        } else {
            self.graded(size, ip, path, n - 1, entries).graded_hop(size, ip, path, n - 1, entries)
        }
    }
}

/// Nothing observed.
pub open spec fn empty_monitor() -> MonitorView {
    MonitorView { per_promise: Map::empty(), per_as: Map::empty() }
}

fn is_suffix(path: &[AsId], from: usize, other: &Vec<AsId>) -> (r: bool)
    requires
        from <= path@.len(),
    ensures
        r == (path@.skip(from as int) == other@),
{
    let n: usize = path.len();
    if n - from != other.len() {
        return false;
    }
    let ghost tail = path@.skip(from as int);
    let mut i: usize = 0;
    while i < other.len()
        invariant
            i <= other.len(),
            tail == path@.skip(from as int),
            n == path@.len(),
            n - from == other@.len(),
            forall|j: int| 0 <= j < i ==> tail[j] == other@[j],
        decreases other.len() - i,
    {
        assert(tail[i as int] == path@[from + i]);
        if path[from + i] != other[i] {
            return false;
        }
        i += 1;
    }
    assert(tail =~= other@);
    true
}

fn promises_path(e: &PromiseLedgerEntry, path: &[AsId], from: usize) -> (r: bool)
    requires
        from <= path@.len(),
    ensures
        r == e@.promised_paths.contains(path@.skip(from as int)),
{
    let mut i: usize = 0;
    while i < e.promised_paths.len()
        invariant
            i <= e.promised_paths.len(),
            from <= path@.len(),
            forall|j: int| 0 <= j < i ==> e@.promised_paths[j] != path@.skip(from as int),
        decreases e.promised_paths.len() - i,
    {
        assert(e@.promised_paths[i as int] == e.promised_paths@[i as int].ases@);
        if is_suffix(path, from, &e.promised_paths[i].ases) {
            return true;
        }
        i += 1;
    }
    false
}

impl Default for ConformanceMonitor {
    fn default() -> (r: ConformanceMonitor)
        ensures
            r@ == empty_monitor(),
    {
        ConformanceMonitor::new()
    }
}

impl ConformanceMonitor {
    pub fn new() -> (r: ConformanceMonitor)
        ensures
            r@ == empty_monitor(),
    {
        ConformanceMonitor { per_promise: HashMap::new(), per_as: HashMap::new() }
    }

    pub fn record_promise_sent(&mut self, sender: AsId)
        ensures
            final(self)@ == old(self)@.sent(sender),
    {
        let mut s = self.for_as(sender);
        s.promises_sent = s.promises_sent.wrapping_add(1);
        self.per_as.insert(sender.0, s);
    }

    pub fn record_promise_withdrawn(&mut self, sender: AsId)
        ensures
            final(self)@ == old(self)@.taken_back(sender),
    {
        let mut s = self.for_as(sender);
        s.promises_withdrawn = s.promises_withdrawn.wrapping_add(1);
        self.per_as.insert(sender.0, s);
    }

    fn grade_hop(&mut self, size: u64, ip: u32, path: &[AsId], i: usize, ledger: &PromiseLedger)
        requires
            1 <= i < path@.len(),
        ensures
            final(self)@ == old(self)@.graded_hop(size, ip, path@, i as int, ledger@.entries),
    {
        let ghost before = self@;
        let prev = path[i - 1];
        let by = path[i];
        if prev == by {
            return;
        }
        let promises = ledger.active_for(by, prev, ip, None);
        let ghost view = promises@.map_values(|e: &PromiseLedgerEntry| e@);
        if promises.len() == 0 {
            let s = self.for_as(by);
            self.per_as.insert(by.0, s);
            return;
        }
        let mut k: usize = 0;
        while k < promises.len()
            invariant
                k <= promises.len(),
                i <= path@.len(),
                view == promises@.map_values(|e: &PromiseLedgerEntry| e@),
                self@ == before,
                kept_promise(view, path@.skip(i as int), 0) == kept_promise(
                    view,
                    path@.skip(i as int),
                    k as int,
                ),
                view == covering(ledger@.entries, by, prev, ip, None),
                view.len() > 0,
                by == path@[i as int],
                prev == path@[i - 1],
                prev != by,
                before == old(self)@,
            decreases promises.len() - k,
        {
            assert(view[k as int] == promises@[k as int]@);
            if promises_path(promises[k], path, i) {
                let id = promises[k].promise_id;
                let mut p = self.for_promise(id);
                p.packets_honored = p.packets_honored.wrapping_add(1);
                p.bytes_honored = p.bytes_honored.wrapping_add(size);
                self.per_promise.insert(id.0, p);
                let mut s = self.for_as(by);
                s.packets_honored = s.packets_honored.wrapping_add(1);
                s.bytes_honored = s.bytes_honored.wrapping_add(size);
                self.per_as.insert(by.0, s);
                return;
            }
            k += 1;
        }
        let mut n: usize = 0;
        assert(view.take(0) =~= Seq::empty());
        while n < promises.len()
            invariant
                n <= promises.len(),
                view == promises@.map_values(|e: &PromiseLedgerEntry| e@),
                self@ == before.all_broken(view.take(n as int), size),
            decreases promises.len() - n,
        {
            let id = promises[n].promise_id;
            proof {
                let t = view.take(n + 1);
                assert(t.drop_last() =~= view.take(n as int));
                assert(t.last() == promises@[n as int]@);
            }
            let mut p = self.for_promise(id);
            p.packets_violated = p.packets_violated.wrapping_add(1);
            p.bytes_violated = p.bytes_violated.wrapping_add(size);
            self.per_promise.insert(id.0, p);
            n += 1;
        }
        assert(view.take(n as int) =~= view);
        let mut s = self.for_as(by);
        s.packets_violated = s.packets_violated.wrapping_add(1);
        s.bytes_violated = s.bytes_violated.wrapping_add(size);
        self.per_as.insert(by.0, s);
    }

    /// Walks the AS path of a packet that has just ended and grades each
    /// inter-AS hop against the ledger.
    pub fn observe_packet(
        &mut self,
        packet_size: u64,
        ip_dst: u32,
        as_path: &[AsId],
        ledger: &PromiseLedger,
    )
        ensures
            final(self)@ == old(self)@.graded(
                packet_size,
                ip_dst,
                as_path@,
                as_path@.len() as int,
                ledger@.entries,
            ),
    {
        if as_path.len() < 2 {
            return;
        }
        let mut i: usize = 1;
        while i < as_path.len()
            invariant
                1 <= i <= as_path.len(),
                self@ == old(self)@.graded(
                    packet_size,
                    ip_dst,
                    as_path@,
                    i as int,
                    ledger@.entries,
                ),
            decreases as_path.len() - i,
        {
            self.grade_hop(packet_size, ip_dst, as_path, i, ledger);
            i += 1;
        }
    }

    pub fn for_promise(&self, id: PromiseId) -> (r: PromiseConformanceStats)
        ensures
            r == self@.promise(id),
    {
        match self.per_promise.get(&id.0) {
            Some(s) => *s,
            None => PromiseConformanceStats::default(),
        }
    }

    pub fn for_as(&self, id: AsId) -> (r: AsConformanceSummary)
        ensures
            r == self@.summary(id),
    {
        match self.per_as.get(&id.0) {
            Some(s) => *s,
            None => AsConformanceSummary::default(),
        }
    }
}

#[derive(Debug)]
pub struct BgpState {
    pub registry: AsRegistry,
    pub ledger: PromiseLedger,
    pub monitor: ConformanceMonitor,
    /// Envelopes that reached a speaker but were not valid, and why.
    pub rejected: Vec<(BgpEnvelope, BgpValidationError)>,
}

/// What the BGP state holds.
#[verifier::ext_equal]
pub struct BgpView {
    pub registry: RegistryView,
    pub ledger: LedgerView,
    pub monitor: MonitorView,
    pub rejected: Seq<(EnvelopeView, BgpValidationError)>,
}

impl View for BgpState {
    type V = BgpView;

    open spec fn view(&self) -> BgpView {
        BgpView {
            registry: self.registry@,
            ledger: self.ledger@,
            monitor: self.monitor@,
            rejected: self.rejected@.map_values(
                |r: (BgpEnvelope, BgpValidationError)| (r.0@, r.1),
            ),
        }
    }
}

impl BgpView {
    /// The state after an envelope reached the speaker at a switch: a faulty one
    /// is set aside, a valid one enters the ledger.
    pub open spec fn took_in(self, e: EnvelopeView, at: SwitchId, now: SimTime) -> BgpView {
        match envelope_error(e, self.registry, at) {
            Some(err) => BgpView { rejected: self.rejected.push((e, err)), ..self },
            None => match e.message {
                MessageView::Promise(p) => BgpView {
                    ledger: self.ledger.promised(e.sender_as, e.receiver_as, p, now),
                    monitor: self.monitor.sent(e.sender_as),
                    ..self
                },
                MessageView::Withdraw(w) => BgpView {
                    ledger: self.ledger.withdrawn(e.sender_as, e.receiver_as, w, now),
                    monitor: self.monitor.taken_back(e.sender_as),
                    ..self
                },
                _ => BgpView {
                    ledger: self.ledger.seen(e.sender_as, e.receiver_as, now),
                    ..self
                },
            },
        }
    }

    /// The state after a SimpleBGP packet was delivered: a payload that is no
    /// envelope changes nothing.
    pub open spec fn received(self, at: SwitchId, payload: Seq<u8>, now: SimTime) -> BgpView {
        match BgpEnvelopeW::parse(payload) {
            Some((e, _)) => self.took_in(envelope_of(e), at, now),
            None => self,
        }
    }

    /// The state after a packet ended: promises whose time has come expire, and
    /// the packet is graded on the ASes it crossed.
    pub open spec fn graded(self, p: PacketView, now: SimTime) -> BgpView {
        let path = as_sequence(p.trail.hops);
        let ledger = self.ledger.expired(now);
        BgpView {
            ledger,
            monitor: self.monitor.graded(
                p.size_bytes,
                p.ip_dst.0,
                path,
                path.len() as int,
                ledger.entries,
            ),
            ..self
        }
    }
}

impl BgpState {
    pub fn new(registry: AsRegistry) -> (r: BgpState)
        ensures
            r@ == (BgpView {
                registry: registry@,
                ledger: empty_ledger(),
                monitor: empty_monitor(),
                rejected: Seq::empty(),
            }),
    {
        let r = BgpState {
            registry,
            ledger: PromiseLedger::new(),
            monitor: ConformanceMonitor::new(),
            rejected: Vec::new(),
        };
        assert(r@.rejected =~= Seq::empty());
        r
    }

    /// Takes in an envelope that reached the speaker at a switch.
    pub fn take_in(&mut self, env: BgpEnvelope, switch: SwitchId, now: SimTime)
        ensures
            final(self)@ == old(self)@.took_in(env@, switch, now),
    {
        let ghost before = self@;
        match validate_envelope(&env, &self.registry, switch) {
            Err(err) => {
                self.rejected.push((env, err));
                assert(self@.rejected =~= before.rejected.push((env@, err)));
            },
            Ok(()) => {
                match &env.message {
                    SimpleBgpMessage::Promise(p) => {
                        self.ledger.record_promise(env.sender_as, env.receiver_as, p, now);
                        self.monitor.record_promise_sent(env.sender_as);
                    },
                    SimpleBgpMessage::Withdraw(w) => {
                        self.ledger.record_withdraw(env.sender_as, env.receiver_as, w, now);
                        self.monitor.record_promise_withdrawn(env.sender_as);
                    },
                    _ => {
                        self.ledger.record_seen(env.sender_as, env.receiver_as, now);
                    },
                }
            },
        }
    }

    /// Called each time a SimpleBGP packet has been delivered to a speaker.
    pub fn handle_simple_bgp(&mut self, switch: SwitchId, packet: &Packet, now: SimTime)
        ensures
            final(self)@ == old(self)@.received(switch, packet@.payload, now),
    {
        match decode_envelope(packet.payload.as_slice()) {
            Ok(e) => {
                let env = BgpEnvelope::from_wire(e);
                self.take_in(env, switch, now);
            },
            Err(_) => {},
        }
    }

    /// Has a finished packet graded.
    pub fn grade_packet(&mut self, packet: &Packet, now: SimTime)
        ensures
            final(self)@ == old(self)@.graded(packet@, now),
    {
        self.ledger.expire(now);
        let path = as_path_of(&packet.trail.hops);
        self.monitor.observe_packet(
            packet.size_bytes,
            packet.ip_dst.0,
            path.as_slice(),
            &self.ledger,
        );
    }

    pub fn last_bgp_packet_time(&self, from: AsId, to: AsId) -> (r: Option<SimTime>)
        ensures
            r == (if self@.ledger.last_seen.contains_key(as_pair(from, to)) {
                Some(self@.ledger.last_seen[as_pair(from, to)])
            } else {
                None
            }),
    {
        match self.ledger.last_seen.get(&as_pair_key(from, to)) {
            Some(t) => Some(*t),
            None => None,
        }
    }
}

} // verus!
