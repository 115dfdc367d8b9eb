//! The first pass over a log: what became of every workload packet.

use crate::app::AppView;
use crate::packet::{IpAddr, PacketView};
use crate::sim_log::schema::{LogEventV, LogFrameV};
use crate::sim_log::{DropReasonW, LogEvent, LogFrame, NodeRefW};
use crate::types::SimTime;
use crate::world::assemble::{peers, prefix_fault, world_app};
use crate::world::topology::{norm, norm_pair};
use crate::world::validate::app_prefix;
use crate::world::{AppSpecView, Prefix, World, WorldError, WorldView};
use std::collections::HashMap;
use vstd::prelude::*;

verus! {

broadcast use vstd::std_specs::hash::group_hash_axioms;

/// Loop detection uses one bit per switch. With a higher switch id only TTL drops
/// tell of loops.
pub const MAX_TRACKED_SWITCH: u32 = 63;

/// What a log says of one workload packet.
#[derive(Debug, Clone, Copy, PartialEq, Eq, Structural)]
pub struct Pkt {
    pub id: u64,
    pub src_app: u32,
    pub dst_app: u32,
    pub first_ns: u64,
    pub delivered: bool,
    pub misdelivered: bool,
    pub looped: bool,
    /// One bit for each switch that the packet has entered.
    pub visited: u64,
    /// Why it was dropped last.
    pub drop: Option<DropReasonW>,
    /// With which code it was punted last.
    pub punted: Option<u32>,
}

/// What one pass over a log brings together.
#[verifier::ext_equal]
pub struct ScanView {
    /// The workload packets, in the order in which they were first seen.
    pub pkts: Seq<Pkt>,
    /// The switches at the ends of every link between switches, by link id.
    pub link_ends: Map<u32, (u32, u32)>,
    /// When a link changed: its id, and whether it went down.
    pub changes: Seq<(u64, (u32, bool))>,
    pub run_ns: u64,
    /// Whether every switch was tracked.
    pub exact: bool,
}

/// Which app has which address, among the first `n`.
pub open spec fn address_map(apps: Seq<AppSpecView>, n: int) -> Map<u32, u32>
    decreases n,
{
    if n <= 0 {
        Map::empty()
    } else {
        address_map(apps, n - 1).insert(app_prefix(apps[n - 1]).host(), apps[n - 1].id)
    }
}

/// The first place from `i` on of the packet with an id; the end if none.
pub open spec fn pkt_place(s: Seq<Pkt>, id: u64, i: int) -> int
    decreases s.len() - i,
{
    if i >= s.len() {
        s.len() as int
    } else if s[i].id == id {
        i
    } else {
        pkt_place(s, id, i + 1)
    }
}

/// The bit of a switch, if it is tracked.
pub open spec fn switch_bit(switch: u32) -> u64 {
    if switch <= MAX_TRACKED_SWITCH {
        1u64 << (switch as u64)
    } else {
        0
    }
}

/// Among the first `n` apps the ids of all but one.
pub open spec fn peer_ids(apps: Seq<u32>, app: u32, n: int) -> Seq<u32>
    decreases n,
{
    if n <= 0 {
        Seq::empty()
    } else if apps[n - 1] != app {
        peer_ids(apps, app, n - 1).push(apps[n - 1])
    } else {
        peer_ids(apps, app, n - 1)
    }
}

/// The sender and the receiver of a workload packet by its id alone. The upper
/// half names the app, the lower half counts its packets, and these go to its
/// peers in turn. Id 0 does not tell: packets that no app sent have it, too.
pub open spec fn pair_of(apps: Seq<u32>, id: u64) -> Option<(u32, u32)> {
    let app = (id / 0x1_0000_0000) as u32;
    let peers = peer_ids(apps, app, apps.len() as int);
    if id == 0 || !apps.contains(app) || peers.len() == 0 {
        None
    } else {
        Some((app, peers[(id % 0x1_0000_0000) as int % peers.len() as int]))
    }
}

impl Pkt {
    /// A packet that has not been anywhere.
    pub open spec fn fresh(id: u64, src: u32, dst: u32, at_ns: u64) -> Pkt {
        Pkt {
            id,
            src_app: src,
            dst_app: dst,
            first_ns: at_ns,
            delivered: false,
            misdelivered: false,
            looped: false,
            visited: 0,
            drop: None,
            punted: None,
        }
    }

    /// After the packet entered a switch: to enter one twice is a loop.
    pub open spec fn at_switch(self, switch: u32) -> Pkt {
        let bit = switch_bit(switch);
        Pkt {
            looped: self.looped || (bit != 0 && self.visited & bit != 0),
            visited: self.visited | bit,
            ..self
        }
    }

    /// After the packet reached an app: only its own counts as delivery.
    pub open spec fn at_app(self, app: u32) -> Pkt {
        if app == self.dst_app {
            Pkt { delivered: true, ..self }
        } else {
            Pkt { misdelivered: true, ..self }
        }
    }
}

impl ScanView {
    /// After the record of a packet was replaced.
    pub open spec fn with_pkt(self, k: int, p: Pkt) -> ScanView {
        ScanView { pkts: self.pkts.update(k, p), ..self }
    }

    /// After a workload packet entered a switch.
    pub open spec fn entered(
        self,
        at_ns: u64,
        switch: u32,
        id: u64,
        src: u32,
        dst: u32,
    ) -> ScanView {
        let k = pkt_place(self.pkts, id, 0);
        ScanView {
            exact: self.exact && switch <= MAX_TRACKED_SWITCH,
            pkts: if k < self.pkts.len() {
                self.pkts.update(k, self.pkts[k].at_switch(switch))
            } else {
                self.pkts.push(Pkt::fresh(id, src, dst, at_ns).at_switch(switch))
            },
            ..self
        }
    }

    /// After a packet was lost before it entered any switch: if an app of the
    /// world sent it, that is the first of it.
    pub open spec fn lost_at_once(
        self,
        at_ns: u64,
        id: u64,
        reason: DropReasonW,
        apps: Seq<u32>,
    ) -> ScanView {
        match pair_of(apps, id) {
            Some((src, dst)) => ScanView {
                pkts: self.pkts.push(
                    Pkt { drop: Some(reason), ..Pkt::fresh(id, src, dst, at_ns) },
                ),
                ..self
            },
            None => self,
        }
    }

    /// After what happened was taken in. Only data packets between two apps of
    /// the world count.
    pub open spec fn took(
        self,
        at_ns: u64,
        e: LogEventV,
        addr: Map<u32, u32>,
        apps: Seq<u32>,
    ) -> ScanView {
        match e {
            LogEventV::LinkAdded { id, a, b, .. } => match (a, b) {
                (NodeRefW::Switch(x), NodeRefW::Switch(y)) => ScanView {
                    link_ends: self.link_ends.insert(id, norm_pair(x, y)),
                    ..self
                },
                _ => self,
            },
            LogEventV::LinkFailed { id } => ScanView {
                changes: self.changes.push((at_ns, (id, true))),
                ..self
            },
            LogEventV::LinkRestored { id } => ScanView {
                changes: self.changes.push((at_ns, (id, false))),
                ..self
            },
            LogEventV::PacketIngress { switch, packet, .. } => {
                let s = packet.ip_src;
                let d = packet.ip_dst;
                if packet.kind == 0 && addr.contains_key(s) && addr.contains_key(d) && addr[s]
                    != addr[d] {
                    self.entered(at_ns, switch, packet.id, addr[s], addr[d])
                } else {
                    self
                }
            },
            LogEventV::PacketDelivered { app, packet_id } => {
                let k = pkt_place(self.pkts, packet_id, 0);
                if k < self.pkts.len() {
                    self.with_pkt(k, self.pkts[k].at_app(app))
                } else {
                    self
                }
            },
            LogEventV::PacketPunted { reason, packet_id, .. } => {
                let k = pkt_place(self.pkts, packet_id, 0);
                if k < self.pkts.len() {
                    self.with_pkt(k, Pkt { punted: Some(reason), ..self.pkts[k] })
                } else {
                    self
                }
            },
            LogEventV::PacketDropped { at, reason, packet_id } => {
                let k = pkt_place(self.pkts, packet_id, 0);
                if k < self.pkts.len() {
                    self.with_pkt(k, Pkt { drop: Some(reason), ..self.pkts[k] })
                } else if at is App {
                    self.lost_at_once(at_ns, packet_id, reason, apps)
                } else {
                    self
                }
            },
            _ => self,
        }
    }

    /// After a frame was read.
    pub open spec fn scanned(self, f: LogFrameV, addr: Map<u32, u32>, apps: Seq<u32>) -> ScanView {
        let s = self.took(f.at_ns, f.event, addr, apps);
        ScanView {
            run_ns: if f.at_ns > s.run_ns {
                f.at_ns
            } else {
                s.run_ns
            },
            ..s
        }
    }
}

/// Before the first frame.
pub open spec fn nothing_scanned() -> ScanView {
    ScanView {
        pkts: Seq::empty(),
        link_ends: Map::empty(),
        changes: Seq::empty(),
        run_ns: 0,
        exact: true,
    }
}

/// What all frames of a log bring together.
pub open spec fn scan_of(frames: Seq<LogFrameV>, addr: Map<u32, u32>, apps: Seq<u32>) -> ScanView
    decreases frames.len(),
{
    if frames.len() == 0 {
        nothing_scanned()
    } else {
        scan_of(frames.drop_last(), addr, apps).scanned(frames.last(), addr, apps)
    }
}

/// What has been read of a log so far.
pub struct Scan {
    pub pkts: Vec<Pkt>,
    pub index: HashMap<u64, usize>,
    pub link_ends: HashMap<u32, (u32, u32)>,
    pub changes: Vec<(u64, (u32, bool))>,
    pub run_ns: u64,
    pub exact: bool,
}

impl View for Scan {
    type V = ScanView;

    open spec fn view(&self) -> ScanView {
        ScanView {
            pkts: self.pkts@,
            link_ends: self.link_ends@,
            changes: self.changes@,
            run_ns: self.run_ns,
            exact: self.exact,
        }
    }
}

proof fn lemma_place(s: Seq<Pkt>, id: u64, i: int)
    requires
        0 <= i <= s.len(),
    ensures
        i <= pkt_place(s, id, i) <= s.len(),
        pkt_place(s, id, i) < s.len() ==> s[pkt_place(s, id, i)].id == id,
    decreases s.len() - i,
{
    if i < s.len() && s[i].id != id {
        lemma_place(s, id, i + 1);
    }
}

proof fn lemma_place_update(s: Seq<Pkt>, k: int, p: Pkt, id: u64, i: int)
    requires
        0 <= k < s.len(),
        p.id == s[k].id,
        0 <= i <= s.len(),
    ensures
        pkt_place(s.update(k, p), id, i) == pkt_place(s, id, i),
    decreases s.len() - i,
{
    if i < s.len() {
        lemma_place_update(s, k, p, id, i + 1);
    }
}

proof fn lemma_place_push(s: Seq<Pkt>, p: Pkt, id: u64, i: int)
    requires
        0 <= i <= s.len(),
    ensures
        pkt_place(s.push(p), id, i) == (if pkt_place(s, id, i) < s.len() {
            pkt_place(s, id, i)
        } else if p.id == id {
            s.len() as int
        } else {
            s.len() as int + 1
        }),
    decreases s.len() - i,
{
    if i < s.len() {
        if s[i].id != id {
            lemma_place_push(s, p, id, i + 1);
        }
        assert(s.push(p)[i] == s[i]);
        lemma_place(s, id, i);
    } else {
        assert(pkt_place(s.push(p), id, s.len() as int + 1) == s.len() + 1);
    }
}

impl Scan {
    /// The index knows the place of every packet.
    pub open spec fn wf(&self) -> bool {
        forall|id: u64|
            #![trigger self.index@.contains_key(id)]
            #![trigger pkt_place(self.pkts@, id, 0)]
            (self.index@.contains_key(id) <==> pkt_place(self.pkts@, id, 0) < self.pkts@.len()) && (
            self.index@.contains_key(id) ==> self.index@[id] == pkt_place(self.pkts@, id, 0))
    }

    pub fn new() -> (r: Scan)
        ensures
            r.wf(),
            r@ == nothing_scanned(),
    {
        let r = Scan {
            pkts: Vec::new(),
            index: HashMap::new(),
            link_ends: HashMap::new(),
            changes: Vec::new(),
            run_ns: 0,
            exact: true,
        };
        assert(r@ =~= nothing_scanned());
        r
    }

    fn find(&self, id: u64) -> (r: Option<usize>)
        requires
            self.wf(),
        ensures
            match r {
                Some(k) => k < self.pkts@.len() && k == pkt_place(self.pkts@, id, 0),
                None => pkt_place(self.pkts@, id, 0) >= self.pkts@.len(),
            },
    {
        proof {
            lemma_place(self.pkts@, id, 0);
        }
        match self.index.get(&id) {
            Some(k) => Some(*k),
            None => None,
        }
    }

    fn put(&mut self, k: usize, p: Pkt)
        requires
            old(self).wf(),
            k < old(self).pkts@.len(),
            p.id == old(self).pkts@[k as int].id,
        ensures
            final(self).wf(),
            final(self)@ == old(self)@.with_pkt(k as int, p),
    {
        let ghost s = self.pkts@;
        self.pkts.set(k, p);
        proof {
            assert forall|id: u64| pkt_place(self.pkts@, id, 0) == pkt_place(s, id, 0) by {
                lemma_place_update(s, k as int, p, id, 0);
            }
        }
    }

    fn append(&mut self, p: Pkt)
        requires
            old(self).wf(),
            pkt_place(old(self).pkts@, p.id, 0) >= old(self).pkts@.len(),
        ensures
            final(self).wf(),
            final(self)@ == (ScanView { pkts: old(self)@.pkts.push(p), ..old(self)@ }),
    {
        let ghost s = self.pkts@;
        let n: usize = self.pkts.len();
        self.index.insert(p.id, n);
        self.pkts.push(p);
        proof {
            assert forall|x: u64|
                #![trigger self.index@.contains_key(x)]
                #![trigger pkt_place(self.pkts@, x, 0)]
                (self.index@.contains_key(x) <==> pkt_place(self.pkts@, x, 0) < self.pkts@.len())
                    && (self.index@.contains_key(x) ==> self.index@[x] == pkt_place(
                    self.pkts@,
                    x,
                    0,
                )) by {
                lemma_place_push(s, p, x, 0);
                lemma_place(s, x, 0);
            }
        }
    }

    fn enter(&mut self, at_ns: u64, switch: u32, id: u64, src: u32, dst: u32)
        requires
            old(self).wf(),
        ensures
            final(self).wf(),
            final(self)@ == old(self)@.entered(at_ns, switch, id, src, dst),
    {
        let ghost before = self@;
        if switch > MAX_TRACKED_SWITCH {
            self.exact = false;
        }
        let bit: u64 = if switch <= MAX_TRACKED_SWITCH {
            1u64 << (switch as u64)
        } else {
            0
        };
        match self.find(id) {
            Some(k) => {
                let mut p = self.pkts[k];
                let ghost old_p = p;
                if bit != 0 && p.visited & bit != 0 {
                    p.looped = true;
                }
                p.visited = p.visited | bit;
                proof {
                    lemma_place(self.pkts@, id, 0);
                }
                assert(p == old_p.at_switch(switch));
                self.put(k, p);
            },
            None => {
                let p = Pkt {
                    id,
                    src_app: src,
                    dst_app: dst,
                    first_ns: at_ns,
                    delivered: false,
                    misdelivered: false,
                    looped: false,
                    visited: bit,
                    drop: None,
                    punted: None,
                };
                assert(0u64 | bit == bit && 0u64 & bit == 0) by (bit_vector);
                assert(p == Pkt::fresh(id, src, dst, at_ns).at_switch(switch));
                self.append(p);
            },
        }
        assert(self@ =~= before.entered(at_ns, switch, id, src, dst));
    }

    /// Reads one frame.
    pub fn frame(&mut self, f: &LogFrame, addr: &HashMap<u32, u32>, apps: &Vec<u32>)
        requires
            old(self).wf(),
        ensures
            final(self).wf(),
            final(self)@ == old(self)@.scanned(f@, addr@, apps@),
    {
        let ghost before = self@;
        let at_ns: u64 = f.at_ns;
        match &f.event {
            LogEvent::LinkAdded { id, a, b, .. } => {
                match (*a, *b) {
                    (NodeRefW::Switch(x), NodeRefW::Switch(y)) => {
                        self.link_ends.insert(*id, norm(x, y));
                    },
                    _ => {},
                }
            },
            LogEvent::LinkFailed { id } => {
                self.changes.push((at_ns, (*id, true)));
            },
            LogEvent::LinkRestored { id } => {
                self.changes.push((at_ns, (*id, false)));
            },
            LogEvent::PacketIngress { switch, packet, .. } => {
                if packet.kind == 0 {
                    match (addr.get(&packet.ip_src), addr.get(&packet.ip_dst)) {
                        (Some(s), Some(d)) => {
                            if *s != *d {
                                self.enter(at_ns, *switch, packet.id, *s, *d);
                            }
                        },
                        _ => {},
                    }
                }
            },
            LogEvent::PacketDelivered { app, packet_id } => {
                match self.find(*packet_id) {
                    Some(k) => {
                        let mut p = self.pkts[k];
                        if *app == p.dst_app {
                            p.delivered = true;
                        } else {
                            p.misdelivered = true;
                        }
                        self.put(k, p);
                    },
                    None => {},
                }
            },
            LogEvent::PacketPunted { reason, packet_id, .. } => {
                match self.find(*packet_id) {
                    Some(k) => {
                        let mut p = self.pkts[k];
                        p.punted = Some(*reason);
                        self.put(k, p);
                    },
                    None => {},
                }
            },
            LogEvent::PacketDropped { at, reason, packet_id } => {
                match self.find(*packet_id) {
                    Some(k) => {
                        let mut p = self.pkts[k];
                        p.drop = Some(*reason);
                        self.put(k, p);
                    },
                    None => {
                        match (*at, find_pair(apps, *packet_id)) {
                            (NodeRefW::App(_), Some((src, dst))) => {
                                self.append(
                                    Pkt {
                                        id: *packet_id,
                                        src_app: src,
                                        dst_app: dst,
                                        first_ns: at_ns,
                                        delivered: false,
                                        misdelivered: false,
                                        looped: false,
                                        visited: 0,
                                        drop: Some(*reason),
                                        punted: None,
                                    },
                                );
                            },
                            _ => {},
                        }
                    },
                }
            },
            _ => {},
        }
        assert(self@ =~= before.took(at_ns, f@.event, addr@, apps@));
        if at_ns > self.run_ns {
            self.run_ns = at_ns;
        }
        assert(self@ =~= before.scanned(f@, addr@, apps@));
    }
}

/// The sender and the receiver of a workload packet by its id alone.
pub fn find_pair(apps: &Vec<u32>, id: u64) -> (r: Option<(u32, u32)>)
    ensures
        r == pair_of(apps@, id),
{
    let app: u32 = (id / 0x1_0000_0000) as u32;
    let mut peers: Vec<u32> = Vec::new();
    let mut known = false;
    let mut i: usize = 0;
    while i < apps.len()
        invariant
            i <= apps@.len(),
            peers@ == peer_ids(apps@, app, i as int),
            known == apps@.take(i as int).contains(app),
        decreases apps@.len() - i,
    {
        let ghost seen = apps@.take(i as int);
        let ghost more = apps@.take(i + 1);
        assert(more =~= seen.push(apps@[i as int]));
        if apps[i] == app {
            known = true;
            assert(more[i as int] == app);
        } else {
            peers.push(apps[i]);
            assert(more.contains(app) ==> seen.contains(app)) by {
                if more.contains(app) {
                    let j = choose|j: int| 0 <= j < more.len() && more[j] == app;
                    assert(seen[j] == app);
                }
            }
        }
        assert(seen.contains(app) ==> more.contains(app)) by {
            if seen.contains(app) {
                let j = choose|j: int| 0 <= j < seen.len() && seen[j] == app;
                assert(more[j] == app);
            }
        }
        i += 1;
    }
    assert(apps@.take(i as int) =~= apps@);
    if id == 0 || !known || peers.len() == 0 {
        return None;
    }
    let k: u64 = id % 0x1_0000_0000;
    let n: u64 = peers.len() as u64;
    Some((app, peers[(k % n) as usize]))
}

/// The ids of the apps of a world.
pub open spec fn app_ids(apps: Seq<AppSpecView>) -> Seq<u32> {
    apps.map_values(|a: AppSpecView| a.id)
}

/// The ids of the apps of a world.
pub fn list_apps(world: &World) -> (r: Vec<u32>)
    ensures
        r@ == app_ids(world@.apps),
{
    let mut out: Vec<u32> = Vec::new();
    let mut i: usize = 0;
    while i < world.apps.len()
        invariant
            i <= world.apps@.len(),
            out@.len() == i,
            forall|j: int| 0 <= j < i ==> out@[j] == (#[trigger] world.apps@[j]).id,
        decreases world.apps@.len() - i,
    {
        out.push(world.apps[i].id);
        i += 1;
    }
    assert(out@ =~= app_ids(world@.apps));
    out
}

/// Which app has which address.
pub fn addresses(world: &World) -> (r: Result<HashMap<u32, u32>, WorldError>)
    ensures
        match r {
            Ok(m) => prefix_fault(world@.apps, 0) is None && m@ == address_map(
                world@.apps,
                world@.apps.len() as int,
            ),
            Err(e) => prefix_fault(world@.apps, 0) == Some(e@),
        },
{
    let ghost apps = world@.apps;
    let mut out: HashMap<u32, u32> = HashMap::new();
    let mut i: usize = 0;
    while i < world.apps.len()
        invariant
            i <= world.apps@.len(),
            apps == world@.apps,
            prefix_fault(apps, 0) == prefix_fault(apps, i as int),
            out@ == address_map(apps, i as int),
        decreases world.apps@.len() - i,
    {
        let a = &world.apps[i];
        assert(apps[i as int] == a@);
        match Prefix::parse(a.prefix.as_str()) {
            Ok(p) => {
                assert(app_prefix(apps[i as int]) == p);
                out.insert(p.first_host(), a.id);
            },
            Err(e) => return Err(e),
        }
        i += 1;
    }
    Ok(out)
}

/// What frames hold.
pub open spec fn frame_views(s: Seq<LogFrame>) -> Seq<LogFrameV> {
    s.map_values(|f: LogFrame| f@)
}

/// Reads all frames of a log.
pub fn scan_frames(frames: &Vec<LogFrame>, addr: &HashMap<u32, u32>, apps: &Vec<u32>) -> (r: Scan)
    ensures
        r.wf(),
        r@ == scan_of(frame_views(frames@), addr@, apps@),
{
    let mut scan = Scan::new();
    let ghost all = frame_views(frames@);
    let mut i: usize = 0;
    assert(all.take(0) =~= Seq::empty());
    while i < frames.len()
        invariant
            i <= frames@.len(),
            all == frame_views(frames@),
            scan.wf(),
            scan@ == scan_of(all.take(i as int), addr@, apps@),
        decreases frames@.len() - i,
    {
        proof {
            assert(all.take(i + 1).drop_last() =~= all.take(i as int));
            assert(all.take(i + 1).last() == frames@[i as int]@);
        }
        scan.frame(&frames[i], addr, apps);
        i += 1;
    }
    assert(all.take(i as int) =~= all);
    scan
}

/// Whether an app of the world has this id and answers to this address.
pub open spec fn answers_to(apps: Seq<AppSpecView>, j: int, app: u32, ip: IpAddr) -> bool {
    0 <= j < apps.len() && apps[j].id == app && ip == IpAddr(app_prefix(apps[j]).host())
}

proof fn lemma_peers(apps: Seq<AppSpecView>, app: u32, n: int, k: int)
    requires
        0 <= n <= apps.len(),
    ensures
        peers(apps, n, app).len() == peer_ids(app_ids(apps), app, n).len(),
        0 <= k < peers(apps, n, app).len() ==> exists|j: int| #[trigger]
            answers_to(apps, j, peer_ids(app_ids(apps), app, n)[k], peers(apps, n, app)[k]),
    decreases n,
{
    if n > 0 {
        lemma_peers(apps, app, n - 1, k);
        let before = peers(apps, n - 1, app);
        let ids = app_ids(apps);
        let to = peers(apps, n, app);
        assert(ids[n - 1] == apps[n - 1].id);
        if 0 <= k < before.len() {
            let j = choose|j: int| #[trigger]
                answers_to(apps, j, peer_ids(ids, app, n - 1)[k], before[k]);
            assert(to[k] == before[k]);
            assert(peer_ids(ids, app, n)[k] == peer_ids(ids, app, n - 1)[k]);
            assert(answers_to(apps, j, peer_ids(ids, app, n)[k], to[k]));
        } else if apps[n - 1].id != app && k == before.len() {
            assert(answers_to(apps, n - 1, peer_ids(ids, app, n)[k], to[k]));
        }
    }
}

/// Whether the id of a packet tells that it goes from an app to app `j` of the
/// world, and its destination is that app's address.
pub open spec fn read_off(apps: Seq<AppSpecView>, p: PacketView, app: u32, j: int) -> bool {
    answers_to(apps, j, apps[j].id, p.ip_dst) && pair_of(app_ids(apps), p.id.0) == Some(
        (app, apps[j].id),
    )
}

/// An id tells the pair: the packets of an app that a world makes carry the app's
/// id above and their count below, and their destinations take turns, so sender
/// and receiver can be read off the id.
pub proof fn ids_tell_the_pair(w: WorldView, i: int, a: AppView, now: SimTime, size: u64)
    requires
        0 <= i < w.apps.len(),
        a.id.0 == w.apps[i].id,
        a.targets() == world_app(w, w.apps[i]).targets(),
        peers(w.apps, w.apps.len() as int, a.id.0).len() > 0,
        a.next_packet_id < 0x1_0000_0000,
        a.next_dest_idx as int % a.targets().len() as int == a.next_packet_id as int
            % a.targets().len() as int,
        a.next_packet(now, size).id.0 != 0,
    ensures
        exists|j: int| #[trigger] read_off(w.apps, a.next_packet(now, size), a.id.0, j),
{
    let n = w.apps.len() as int;
    let ids = app_ids(w.apps);
    let app = a.id.0;
    let c = a.next_packet_id;
    let id = ((app as u64) << 32) | c;
    assert(id / 0x1_0000_0000 == app as u64 && id % 0x1_0000_0000 == c) by (bit_vector)
        requires
            id == ((app as u64) << 32) | c,
            c < 0x1_0000_0000,
    ;
    assert(ids[i] == app);
    let to = peers(w.apps, n, app);
    assert(seq![to[0]] + to.skip(1) =~= to);
    let k = c as int % to.len() as int;
    assert(0 <= k < to.len()) by (nonlinear_arith)
        requires
            k == c as int % to.len() as int,
            to.len() > 0,
    ;
    lemma_peers(w.apps, app, n, k);
    assert(ids.contains(app));
    let p = a.next_packet(now, size);
    assert(p.id.0 == id);
    assert(p.ip_dst == to[k]);
    assert(pair_of(ids, id) == Some((app, peer_ids(ids, app, n)[k])));
    let j = choose|j: int| #[trigger] answers_to(w.apps, j, peer_ids(ids, app, n)[k], to[k]);
    let dst = peer_ids(ids, app, n)[k];
    assert(answers_to(w.apps, j, dst, p.ip_dst));
    assert(pair_of(app_ids(w.apps), p.id.0) == Some((app, dst)));
    assert(read_off(w.apps, p, app, j));
}

} // verus!
