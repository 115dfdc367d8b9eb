//! Identifiers, simulated time and IPv4 prefixes.

use vstd::prelude::*;
use vstd::std_specs::convert::FromSpecImpl;

verus! {

/// Nanoseconds in the longest representable time span.
pub const MAX_NANOS: u128 = 18446744073709551615999999999;

/// A span of simulated time, in nanoseconds.
#[derive(Debug, Clone, Copy, PartialEq, Eq, Hash, PartialOrd, Ord, Structural)]
pub struct Duration {
    pub nanos: u128,
}

/// A point in simulated time: the span since the start of the simulation.
pub type SimTime = Duration;

/// The sum of two time spans, which stops growing at the longest span.
pub open spec fn time_sum(a: Duration, b: Duration) -> Duration {
    if a.nanos + b.nanos <= MAX_NANOS {
        Duration { nanos: (a.nanos + b.nanos) as u128 }
    } else {
        Duration { nanos: MAX_NANOS }
    }
}

/// How far `a` lies after `b`; nothing where it does not.
pub open spec fn time_gap(a: Duration, b: Duration) -> Duration {
    if a.nanos >= b.nanos {
        Duration { nanos: (a.nanos - b.nanos) as u128 }
    } else {
        Duration { nanos: 0 }
    }
}

impl Duration {
    /// The empty span.
    pub fn zero() -> (r: Duration)
        ensures
            r.nanos == 0,
    {
        Duration { nanos: 0 }
    }

    pub fn from_nanos(n: u64) -> (r: Duration)
        ensures
            r.nanos == n,
    {
        Duration { nanos: n as u128 }
    }

    pub fn from_micros(n: u64) -> (r: Duration)
        ensures
            r.nanos == n * 1_000,
    {
        Duration { nanos: (n as u128) * 1_000 }
    }

    pub fn from_millis(n: u64) -> (r: Duration)
        ensures
            r.nanos == n * 1_000_000,
    {
        Duration { nanos: (n as u128) * 1_000_000 }
    }

    pub fn from_secs(n: u64) -> (r: Duration)
        ensures
            r.nanos == n * 1_000_000_000,
    {
        Duration { nanos: (n as u128) * 1_000_000_000 }
    }

    pub fn as_nanos(&self) -> (r: u128)
        ensures
            r == self.nanos,
    {
        self.nanos
    }

    /// The low 64 bits of the nanosecond count: the form times take on the wire.
    pub fn wire_nanos(&self) -> (r: u64)
        ensures
            r == self.nanos as u64,
    {
        self.nanos as u64
    }

    pub fn as_millis(&self) -> (r: u128)
        ensures
            r == self.nanos / 1_000_000,
    {
        self.nanos / 1_000_000
    }

    /// Adds two spans; the sum stops at the longest span.
    pub fn saturating_add(self, other: Duration) -> (r: Duration)
        ensures
            r == time_sum(self, other),
    {
        if self.nanos <= MAX_NANOS && other.nanos <= MAX_NANOS - self.nanos {
            Duration { nanos: self.nanos + other.nanos }
        } else {
            Duration { nanos: MAX_NANOS }
        }
    }

    /// Subtracts a span; the difference stops at zero.
    pub fn saturating_sub(self, other: Duration) -> (r: Duration)
        ensures
            r == time_gap(self, other),
    {
        if self.nanos >= other.nanos {
            Duration { nanos: self.nanos - other.nanos }
        } else {
            Duration { nanos: 0 }
        }
    }

    /// `n` times the span; the product stops at the longest span.
    pub fn saturating_mul(self, n: u32) -> (r: Duration)
        ensures
            r.nanos == (if self.nanos * n <= MAX_NANOS { self.nanos * n } else { MAX_NANOS as int }),
    {
        match self.nanos.checked_mul(n as u128) {
            Some(p) => if p <= MAX_NANOS {
                Duration { nanos: p }
            } else {
                Duration { nanos: MAX_NANOS }
            },
            None => Duration { nanos: MAX_NANOS },
        }
    }
}

impl Default for Duration {
    fn default() -> (r: Duration)
        ensures
            r.nanos == 0,
    {
        Duration { nanos: 0 }
    }
}

/// Waiting longer never gets earlier, and waiting is order-preserving.
pub proof fn time_sum_is_monotone(a: Duration, b: Duration, c: Duration)
    requires
        a.nanos <= MAX_NANOS,
        b.nanos <= MAX_NANOS,
    ensures
        a.nanos <= time_sum(a, c).nanos,
        a.nanos <= b.nanos ==> time_sum(a, c).nanos <= time_sum(b, c).nanos,
{
}

/// IPv4 prefix.
#[derive(Debug, Clone, Copy, PartialEq, Eq, Hash, Default, Structural)]
pub struct Prefix {
    pub addr: u32,
    pub len: u8,
}

/// The mask that keeps the `len` high bits of an address; 32 or more keep all.
pub open spec fn mask_of(len: u8) -> u32 {
    if len == 0 {
        0
    } else if len >= 32 {
        0xFFFF_FFFF
    } else {
        0xFFFF_FFFFu32 << ((32 - len) as u32)
    }
}

/// Whether `ip` agrees with `addr` on its `len` high bits.
pub open spec fn in_prefix(addr: u32, len: u8, ip: u32) -> bool {
    (ip & mask_of(len)) == (addr & mask_of(len))
}

/// The mask that keeps the `len` high bits of an address.
pub fn prefix_mask(len: u8) -> (r: u32)
    ensures
        r == mask_of(len),
{
    if len == 0 {
        0
    } else if len >= 32 {
        0xFFFF_FFFF
    } else {
        0xFFFF_FFFFu32 << ((32 - len) as u32)
    }
}

impl Prefix {
    pub fn new(addr: u32, len: u8) -> (r: Prefix)
        ensures
            r == (Prefix { addr, len }),
    {
        Prefix { addr, len }
    }

    pub fn contains(&self, ip: u32) -> (r: bool)
        ensures
            r == in_prefix(self.addr, self.len, ip),
    {
        let mask: u32 = prefix_mask(self.len);
        (ip & mask) == (self.addr & mask)
    }
}

/// The empty prefix holds every address, and a full-length prefix only its own.
pub proof fn prefix_extremes(addr: u32, len: u8, ip: u32)
    ensures
        in_prefix(addr, 0, ip),
        len >= 32 ==> (in_prefix(addr, len, ip) <==> ip == addr),
        in_prefix(addr, len, addr),
{
    assert(ip & 0 == 0 && addr & 0 == 0) by (bit_vector);
    assert(ip & 0xFFFF_FFFF == ip && addr & 0xFFFF_FFFF == addr) by (bit_vector);
}

/// Identifies one packet.
#[derive(Debug, Clone, Copy, PartialEq, Eq, Hash, PartialOrd, Ord, Default, Structural)]
pub struct PacketId(pub u64);

impl PacketId {
    pub fn new(v: u64) -> (r: PacketId)
        ensures
            r == PacketId(v),
    {
        PacketId(v)
    }

    pub fn raw(self) -> (r: u64)
        ensures
            r == self.0,
    {
        self.0
    }
}

impl FromSpecImpl<u64> for PacketId {
    open spec fn obeys_from_spec() -> bool {
        true
    }

    open spec fn from_spec(v: u64) -> PacketId {
        PacketId(v)
    }
}

impl From<u64> for PacketId {
    fn from(v: u64) -> (r: PacketId) {
        PacketId(v)
    }
}

/// Identifies a node (app or switch) in one namespace.
#[derive(Debug, Clone, Copy, PartialEq, Eq, Hash, PartialOrd, Ord, Default, Structural)]
pub struct NodeId(pub u32);

impl NodeId {
    pub fn new(v: u32) -> (r: NodeId)
        ensures
            r == NodeId(v),
    {
        NodeId(v)
    }

    pub fn raw(self) -> (r: u32)
        ensures
            r == self.0,
    {
        self.0
    }
}

impl FromSpecImpl<u32> for NodeId {
    open spec fn obeys_from_spec() -> bool {
        true
    }

    open spec fn from_spec(v: u32) -> NodeId {
        NodeId(v)
    }
}

impl From<u32> for NodeId {
    fn from(v: u32) -> (r: NodeId) {
        NodeId(v)
    }
}

/// Identifies a switch.
#[derive(Debug, Clone, Copy, PartialEq, Eq, Hash, PartialOrd, Ord, Default, Structural)]
pub struct SwitchId(pub u32);

impl SwitchId {
    pub fn new(v: u32) -> (r: SwitchId)
        ensures
            r == SwitchId(v),
    {
        SwitchId(v)
    }

    pub fn raw(self) -> (r: u32)
        ensures
            r == self.0,
    {
        self.0
    }
}

impl FromSpecImpl<u32> for SwitchId {
    open spec fn obeys_from_spec() -> bool {
        true
    }

    open spec fn from_spec(v: u32) -> SwitchId {
        SwitchId(v)
    }
}

impl From<u32> for SwitchId {
    fn from(v: u32) -> (r: SwitchId) {
        SwitchId(v)
    }
}

/// Identifies a traffic app.
#[derive(Debug, Clone, Copy, PartialEq, Eq, Hash, PartialOrd, Ord, Default, Structural)]
pub struct AppId(pub u32);

impl AppId {
    pub fn new(v: u32) -> (r: AppId)
        ensures
            r == AppId(v),
    {
        AppId(v)
    }

    pub fn raw(self) -> (r: u32)
        ensures
            r == self.0,
    {
        self.0
    }
}

impl FromSpecImpl<u32> for AppId {
    open spec fn obeys_from_spec() -> bool {
        true
    }

    open spec fn from_spec(v: u32) -> AppId {
        AppId(v)
    }
}

impl From<u32> for AppId {
    fn from(v: u32) -> (r: AppId) {
        AppId(v)
    }
}

/// Identifies a link.
#[derive(Debug, Clone, Copy, PartialEq, Eq, Hash, PartialOrd, Ord, Default, Structural)]
pub struct LinkId(pub u32);

impl LinkId {
    pub fn new(v: u32) -> (r: LinkId)
        ensures
            r == LinkId(v),
    {
        LinkId(v)
    }

    pub fn raw(self) -> (r: u32)
        ensures
            r == self.0,
    {
        self.0
    }
}

impl FromSpecImpl<u32> for LinkId {
    open spec fn obeys_from_spec() -> bool {
        true
    }

    open spec fn from_spec(v: u32) -> LinkId {
        LinkId(v)
    }
}

impl From<u32> for LinkId {
    fn from(v: u32) -> (r: LinkId) {
        LinkId(v)
    }
}

/// Identifies a flow.
#[derive(Debug, Clone, Copy, PartialEq, Eq, Hash, PartialOrd, Ord, Default, Structural)]
pub struct FlowId(pub u64);

impl FlowId {
    pub fn new(v: u64) -> (r: FlowId)
        ensures
            r == FlowId(v),
    {
        FlowId(v)
    }

    pub fn raw(self) -> (r: u64)
        ensures
            r == self.0,
    {
        self.0
    }
}

impl FromSpecImpl<u64> for FlowId {
    open spec fn obeys_from_spec() -> bool {
        true
    }

    open spec fn from_spec(v: u64) -> FlowId {
        FlowId(v)
    }
}

impl From<u64> for FlowId {
    fn from(v: u64) -> (r: FlowId) {
        FlowId(v)
    }
}

/// A port of a node.
#[derive(Debug, Clone, Copy, PartialEq, Eq, Hash, PartialOrd, Ord, Default, Structural)]
pub struct PortId(pub u16);

impl PortId {
    pub fn new(v: u16) -> (r: PortId)
        ensures
            r == PortId(v),
    {
        PortId(v)
    }

    pub fn raw(self) -> (r: u16)
        ensures
            r == self.0,
    {
        self.0
    }
}

impl FromSpecImpl<u16> for PortId {
    open spec fn obeys_from_spec() -> bool {
        true
    }

    open spec fn from_spec(v: u16) -> PortId {
        PortId(v)
    }
}

impl From<u16> for PortId {
    fn from(v: u16) -> (r: PortId) {
        PortId(v)
    }
}

/// An egress queue of a switch.
#[derive(Debug, Clone, Copy, PartialEq, Eq, Hash, PartialOrd, Ord, Default, Structural)]
pub struct QueueId(pub u16);

impl QueueId {
    pub fn new(v: u16) -> (r: QueueId)
        ensures
            r == QueueId(v),
    {
        QueueId(v)
    }

    pub fn raw(self) -> (r: u16)
        ensures
            r == self.0,
    {
        self.0
    }
}

impl FromSpecImpl<u16> for QueueId {
    open spec fn obeys_from_spec() -> bool {
        true
    }

    open spec fn from_spec(v: u16) -> QueueId {
        QueueId(v)
    }
}

impl From<u16> for QueueId {
    fn from(v: u16) -> (r: QueueId) {
        QueueId(v)
    }
}

/// A match-action table.
#[derive(Debug, Clone, Copy, PartialEq, Eq, Hash, PartialOrd, Ord, Default, Structural)]
pub struct TableId(pub u32);

impl TableId {
    pub fn new(v: u32) -> (r: TableId)
        ensures
            r == TableId(v),
    {
        TableId(v)
    }

    pub fn raw(self) -> (r: u32)
        ensures
            r == self.0,
    {
        self.0
    }
}

impl FromSpecImpl<u32> for TableId {
    open spec fn obeys_from_spec() -> bool {
        true
    }

    open spec fn from_spec(v: u32) -> TableId {
        TableId(v)
    }
}

impl From<u32> for TableId {
    fn from(v: u32) -> (r: TableId) {
        TableId(v)
    }
}

/// A register array.
#[derive(Debug, Clone, Copy, PartialEq, Eq, Hash, PartialOrd, Ord, Default, Structural)]
pub struct RegisterArrayId(pub u32);

impl RegisterArrayId {
    pub fn new(v: u32) -> (r: RegisterArrayId)
        ensures
            r == RegisterArrayId(v),
    {
        RegisterArrayId(v)
    }

    pub fn raw(self) -> (r: u32)
        ensures
            r == self.0,
    {
        self.0
    }
}

impl FromSpecImpl<u32> for RegisterArrayId {
    open spec fn obeys_from_spec() -> bool {
        true
    }

    open spec fn from_spec(v: u32) -> RegisterArrayId {
        RegisterArrayId(v)
    }
}

impl From<u32> for RegisterArrayId {
    fn from(v: u32) -> (r: RegisterArrayId) {
        RegisterArrayId(v)
    }
}

/// A counter array.
#[derive(Debug, Clone, Copy, PartialEq, Eq, Hash, PartialOrd, Ord, Default, Structural)]
pub struct CounterArrayId(pub u32);

impl CounterArrayId {
    pub fn new(v: u32) -> (r: CounterArrayId)
        ensures
            r == CounterArrayId(v),
    {
        CounterArrayId(v)
    }

    pub fn raw(self) -> (r: u32)
        ensures
            r == self.0,
    {
        self.0
    }
}

impl FromSpecImpl<u32> for CounterArrayId {
    open spec fn obeys_from_spec() -> bool {
        true
    }

    open spec fn from_spec(v: u32) -> CounterArrayId {
        CounterArrayId(v)
    }
}

impl From<u32> for CounterArrayId {
    fn from(v: u32) -> (r: CounterArrayId) {
        CounterArrayId(v)
    }
}

/// An entry of a match-action table.
#[derive(Debug, Clone, Copy, PartialEq, Eq, Hash, PartialOrd, Ord, Default, Structural)]
pub struct EntryId(pub u64);

impl EntryId {
    pub fn new(v: u64) -> (r: EntryId)
        ensures
            r == EntryId(v),
    {
        EntryId(v)
    }

    pub fn raw(self) -> (r: u64)
        ensures
            r == self.0,
    {
        self.0
    }
}

impl FromSpecImpl<u64> for EntryId {
    open spec fn obeys_from_spec() -> bool {
        true
    }

    open spec fn from_spec(v: u64) -> EntryId {
        EntryId(v)
    }
}

impl From<u64> for EntryId {
    fn from(v: u64) -> (r: EntryId) {
        EntryId(v)
    }
}

/// A key of a packet's metadata.
#[derive(Debug, Clone, Copy, PartialEq, Eq, Hash, PartialOrd, Ord, Default, Structural)]
pub struct MetaKey(pub u32);

impl MetaKey {
    pub fn new(v: u32) -> (r: MetaKey)
        ensures
            r == MetaKey(v),
    {
        MetaKey(v)
    }

    pub fn raw(self) -> (r: u32)
        ensures
            r == self.0,
    {
        self.0
    }
}

impl FromSpecImpl<u32> for MetaKey {
    open spec fn obeys_from_spec() -> bool {
        true
    }

    open spec fn from_spec(v: u32) -> MetaKey {
        MetaKey(v)
    }
}

impl From<u32> for MetaKey {
    fn from(v: u32) -> (r: MetaKey) {
        MetaKey(v)
    }
}

/// A scratch register of the pipeline.
#[derive(Debug, Clone, Copy, PartialEq, Eq, Hash, PartialOrd, Ord, Default, Structural)]
pub struct Reg(pub u8);

impl Reg {
    pub fn new(v: u8) -> (r: Reg)
        ensures
            r == Reg(v),
    {
        Reg(v)
    }

    pub fn raw(self) -> (r: u8)
        ensures
            r == self.0,
    {
        self.0
    }
}

impl FromSpecImpl<u8> for Reg {
    open spec fn obeys_from_spec() -> bool {
        true
    }

    open spec fn from_spec(v: u8) -> Reg {
        Reg(v)
    }
}

impl From<u8> for Reg {
    fn from(v: u8) -> (r: Reg) {
        Reg(v)
    }
}

/// The index of an instruction within its stage.
#[derive(Debug, Clone, Copy, PartialEq, Eq, Hash, PartialOrd, Ord, Default, Structural)]
pub struct InstrIndex(pub u32);

impl InstrIndex {
    pub fn new(v: u32) -> (r: InstrIndex)
        ensures
            r == InstrIndex(v),
    {
        InstrIndex(v)
    }

    pub fn raw(self) -> (r: u32)
        ensures
            r == self.0,
    {
        self.0
    }
}

impl FromSpecImpl<u32> for InstrIndex {
    open spec fn obeys_from_spec() -> bool {
        true
    }

    open spec fn from_spec(v: u32) -> InstrIndex {
        InstrIndex(v)
    }
}

impl From<u32> for InstrIndex {
    fn from(v: u32) -> (r: InstrIndex) {
        InstrIndex(v)
    }
}

/// Who owns a switch.
#[derive(Debug, Clone, Copy, PartialEq, Eq, Hash, PartialOrd, Ord, Default, Structural)]
pub struct OwnerId(pub u32);

impl OwnerId {
    pub fn new(v: u32) -> (r: OwnerId)
        ensures
            r == OwnerId(v),
    {
        OwnerId(v)
    }

    pub fn raw(self) -> (r: u32)
        ensures
            r == self.0,
    {
        self.0
    }
}

impl FromSpecImpl<u32> for OwnerId {
    open spec fn obeys_from_spec() -> bool {
        true
    }

    open spec fn from_spec(v: u32) -> OwnerId {
        OwnerId(v)
    }
}

impl From<u32> for OwnerId {
    fn from(v: u32) -> (r: OwnerId) {
        OwnerId(v)
    }
}

/// An autonomous system.
#[derive(Debug, Clone, Copy, PartialEq, Eq, Hash, PartialOrd, Ord, Default, Structural)]
pub struct AsId(pub u32);

impl AsId {
    pub fn new(v: u32) -> (r: AsId)
        ensures
            r == AsId(v),
    {
        AsId(v)
    }

    pub fn raw(self) -> (r: u32)
        ensures
            r == self.0,
    {
        self.0
    }
}

impl FromSpecImpl<u32> for AsId {
    open spec fn obeys_from_spec() -> bool {
        true
    }

    open spec fn from_spec(v: u32) -> AsId {
        AsId(v)
    }
}

impl From<u32> for AsId {
    fn from(v: u32) -> (r: AsId) {
        AsId(v)
    }
}

/// A SimpleBGP message.
#[derive(Debug, Clone, Copy, PartialEq, Eq, Hash, PartialOrd, Ord, Default, Structural)]
pub struct BgpMsgId(pub u64);

impl BgpMsgId {
    pub fn new(v: u64) -> (r: BgpMsgId)
        ensures
            r == BgpMsgId(v),
    {
        BgpMsgId(v)
    }

    pub fn raw(self) -> (r: u64)
        ensures
            r == self.0,
    {
        self.0
    }
}

impl FromSpecImpl<u64> for BgpMsgId {
    open spec fn obeys_from_spec() -> bool {
        true
    }

    open spec fn from_spec(v: u64) -> BgpMsgId {
        BgpMsgId(v)
    }
}

impl From<u64> for BgpMsgId {
    fn from(v: u64) -> (r: BgpMsgId) {
        BgpMsgId(v)
    }
}

/// A route promise.
#[derive(Debug, Clone, Copy, PartialEq, Eq, Hash, PartialOrd, Ord, Default, Structural)]
pub struct PromiseId(pub u64);

impl PromiseId {
    pub fn new(v: u64) -> (r: PromiseId)
        ensures
            r == PromiseId(v),
    {
        PromiseId(v)
    }

    pub fn raw(self) -> (r: u64)
        ensures
            r == self.0,
    {
        self.0
    }
}

impl FromSpecImpl<u64> for PromiseId {
    open spec fn obeys_from_spec() -> bool {
        true
    }

    open spec fn from_spec(v: u64) -> PromiseId {
        PromiseId(v)
    }
}

impl From<u64> for PromiseId {
    fn from(v: u64) -> (r: PromiseId) {
        PromiseId(v)
    }
}

/// A path trace.
#[derive(Debug, Clone, Copy, PartialEq, Eq, Hash, PartialOrd, Ord, Default, Structural)]
pub struct TraceId(pub u64);

impl TraceId {
    pub fn new(v: u64) -> (r: TraceId)
        ensures
            r == TraceId(v),
    {
        TraceId(v)
    }

    pub fn raw(self) -> (r: u64)
        ensures
            r == self.0,
    {
        self.0
    }
}

impl FromSpecImpl<u64> for TraceId {
    open spec fn obeys_from_spec() -> bool {
        true
    }

    open spec fn from_spec(v: u64) -> TraceId {
        TraceId(v)
    }
}

impl From<u64> for TraceId {
    fn from(v: u64) -> (r: TraceId) {
        TraceId(v)
    }
}

} // verus!
