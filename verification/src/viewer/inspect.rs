//! A closer look at links, packets and switches.

use super::listing::{
    action_words, format_program, kind_words, say_action, say_kind, stage_lines,
};
use super::player::{node_place, state_at, AppNode, LinkEdge, SceneView, SwitchNode, SwitchStateV};
use super::{after_from, LogPlayer, PlayerView};
use crate::order::{by_time, sort_by_time};
use crate::sim_log::schema::{LogEventV, LogFrameV, TableSnapshotV};
use crate::sim_log::{CounterSnapshotW, LogEvent, PacketSnapshotW, RegSnapshotW, TableSnapshotW};
use crate::wire::TableEntryW;
use vstd::prelude::*;

verus! {

/// A packet that left by a link.
#[derive(Debug, Clone, Copy, PartialEq, Eq, Structural)]
pub struct LinkPacketOut {
    pub packet_id: u64,
    pub size_bytes: u64,
    pub at_ns: u64,
    pub arrive_at_ns: u64,
}

/// A packet as it was last seen, with the switches it has visited, oldest first.
#[derive(Debug)]
pub struct PacketInspectOut {
    pub packet: PacketSnapshotW,
    pub history: Vec<u32>,
}

/// What a port of a switch leads to.
#[derive(Debug, Clone, Copy, PartialEq, Eq, Structural)]
pub struct PortOut {
    pub port: u16,
    pub link: u32,
    /// 0 = app, 1 = switch
    pub peer_kind: u8,
    pub peer_id: u32,
    pub peer_port: u16,
    /// The app's address, or the BGP speaker address of the peer switch.
    pub peer_ip: Option<u32>,
}

#[derive(Debug)]
pub struct TableEntryOut {
    pub id: u64,
    pub key: u64,
    pub prefix_len: u8,
    pub priority: i32,
    pub action: String,
}

#[derive(Debug)]
pub struct TableOut {
    pub table_id: u32,
    pub kind: String,
    pub max_entries: u32,
    pub entries: Vec<TableEntryOut>,
}

/// A switch at the cursor.
#[derive(Debug)]
pub struct InspectOut {
    pub switch: u32,
    pub bgp_speaker_ip: Option<u32>,
    pub ports: Vec<PortOut>,
    pub program_text: String,
    pub tables: Vec<TableOut>,
    pub registers: Vec<RegSnapshotW>,
    pub counters: Vec<CounterSnapshotW>,
}

/// What an entry shows.
#[verifier::ext_equal]
pub struct EntryOutV {
    pub id: u64,
    pub key: u64,
    pub prefix_len: u8,
    pub priority: i32,
    pub action: Seq<char>,
}

/// What a table shows.
#[verifier::ext_equal]
pub struct TableOutV {
    pub table_id: u32,
    pub kind: Seq<char>,
    pub max_entries: u32,
    pub entries: Seq<EntryOutV>,
}

impl View for TableEntryOut {
    type V = EntryOutV;

    open spec fn view(&self) -> EntryOutV {
        EntryOutV {
            id: self.id,
            key: self.key,
            prefix_len: self.prefix_len,
            priority: self.priority,
            action: self.action@,
        }
    }
}

impl View for TableOut {
    type V = TableOutV;

    open spec fn view(&self) -> TableOutV {
        TableOutV {
            table_id: self.table_id,
            kind: self.kind@,
            max_entries: self.max_entries,
            entries: self.entries@.map_values(|e: TableEntryOut| e@),
        }
    }
}

/// An entry as it is shown.
pub open spec fn entry_out(e: TableEntryW) -> EntryOutV {
    EntryOutV {
        id: e.id.0,
        key: e.key,
        prefix_len: e.prefix_len,
        priority: e.priority,
        action: action_words(e.action),
    }
}

/// A table as it is shown.
pub open spec fn table_out(t: TableSnapshotV) -> TableOutV {
    TableOutV {
        table_id: t.table_id,
        kind: kind_words(t.kind),
        max_entries: t.max_entries,
        entries: t.entries.map_values(|e: TableEntryW| entry_out(e)),
    }
}

/// The packets that left by a link from a time on, among the first `n` frames.
pub open spec fn link_packets(f: Seq<LogFrameV>, id: u32, from: u64, n: int) -> Seq<LinkPacketOut>
    decreases n,
{
    if n <= 0 {
        Seq::empty()
    } else {
        let r = link_packets(f, id, from, n - 1);
        match f[n - 1].event {
            LogEventV::PacketEgress { link, packet_id, size_bytes, arrive_at_ns, .. } => {
                if link == id && f[n - 1].at_ns >= from {
                    r.push(
                        LinkPacketOut { packet_id, size_bytes, at_ns: f[n - 1].at_ns, arrive_at_ns },
                    )
                } else {
                    r
                }
            },
            _ => r,
        }
    }
}

/// A packet as it last entered a switch, among the first `n` frames.
pub open spec fn last_seen(f: Seq<LogFrameV>, id: u64, n: int) -> Option<PacketSnapshotW>
    decreases n,
{
    if n <= 0 {
        None
    } else {
        match f[n - 1].event {
            LogEventV::PacketIngress { packet, .. } => if packet.id == id {
                Some(packet)
            } else {
                last_seen(f, id, n - 1)
            },
            _ => last_seen(f, id, n - 1),
        }
    }
}

/// The switches that a packet entered, among the first `n` frames.
pub open spec fn visited(f: Seq<LogFrameV>, id: u64, n: int) -> Seq<u32>
    decreases n,
{
    if n <= 0 {
        Seq::empty()
    } else {
        let r = visited(f, id, n - 1);
        match f[n - 1].event {
            LogEventV::PacketIngress { switch, packet, .. } => if packet.id == id {
                r.push(switch)
            } else {
                r
            },
            _ => r,
        }
    }
}

/// The address of the first app with an id from place `i` on.
pub open spec fn app_ip(s: Seq<AppNode>, id: u32, i: int) -> Option<u32>
    decreases s.len() - i,
{
    if i >= s.len() {
        None
    } else if s[i].id == id {
        Some(s[i].ip)
    } else {
        app_ip(s, id, i + 1)
    }
}

/// The speaker address of a switch.
pub open spec fn speaker_ip(s: Seq<SwitchNode>, id: u32) -> Option<u32> {
    let k = node_place(s, id, 0);
    if k < s.len() {
        s[k].bgp_speaker_ip
    } else {
        None
    }
}

impl SceneView {
    /// The address of a node.
    pub open spec fn node_ip(self, kind: u8, id: u32) -> Option<u32> {
        if kind == 0 {
            app_ip(self.apps, id, 0)
        } else {
            speaker_ip(self.switches, id)
        }
    }

    /// What a link is to a switch.
    pub open spec fn port_on(self, l: LinkEdge, switch: u32) -> Option<PortOut> {
        if l.a_kind == 1 && l.a_id == switch {
            Some(
                PortOut {
                    port: l.a_port,
                    link: l.id,
                    peer_kind: l.b_kind,
                    peer_id: l.b_id,
                    peer_port: l.b_port,
                    peer_ip: self.node_ip(l.b_kind, l.b_id),
                },
            )
        } else if l.b_kind == 1 && l.b_id == switch {
            Some(
                PortOut {
                    port: l.b_port,
                    link: l.id,
                    peer_kind: l.a_kind,
                    peer_id: l.a_id,
                    peer_port: l.a_port,
                    peer_ip: self.node_ip(l.a_kind, l.a_id),
                },
            )
        } else {
            None
        }
    }

    /// The ports of a switch, among the first `n` links.
    pub open spec fn ports_of(self, switch: u32, n: int) -> Seq<(u64, PortOut)>
        decreases n,
    {
        if n <= 0 {
            Seq::empty()
        } else {
            let r = self.ports_of(switch, n - 1);
            match self.port_on(self.links[n - 1], switch) {
                Some(p) => r.push((p.port as u64, p)),
                None => r,
            }
        }
    }
}

/// The listing of a program, if there is one.
pub open spec fn program_words(s: SwitchStateV) -> Seq<char> {
    match s.program {
        Some(p) => stage_lines(p, p.stages.len() as int),
        None => "(no program installed)"@,
    }
}

impl InspectOut {
    /// Whether this is what a switch looks like.
    pub open spec fn shows(&self, v: PlayerView, id: u32, s: SwitchStateV) -> bool {
        let ports = by_time(v.scene.ports_of(id, v.scene.links.len() as int));
        &&& self.switch == id
        &&& self.bgp_speaker_ip == speaker_ip(v.scene.switches, id)
        &&& self.ports@ == Seq::new(ports.len(), |i: int| ports[i].1)
        &&& self.program_text@ == program_words(s)
        &&& self.tables@.map_values(|t: TableOut| t@) == s.tables.map_values(
            |t: TableSnapshotV| table_out(t),
        )
        &&& self.registers@ == s.registers
        &&& self.counters@ == s.counters
    }
}

fn show_table(t: &TableSnapshotW) -> (r: TableOut)
    ensures
        r@ == table_out(t@),
{
    let mut entries: Vec<TableEntryOut> = Vec::new();
    let mut i: usize = 0;
    assert(t@.entries =~= t.entries@);
    while i < t.entries.len()
        invariant
            i <= t.entries@.len(),
            entries@.len() == i,
            forall|j: int| 0 <= j < i ==> (#[trigger] entries@[j])@ == entry_out(t.entries@[j]),
        decreases t.entries@.len() - i,
    {
        let e = t.entries[i];
        entries.push(
            TableEntryOut {
                id: e.id.0,
                key: e.key,
                prefix_len: e.prefix_len,
                priority: e.priority,
                action: say_action(e.action),
            },
        );
        i += 1;
    }
    let r = TableOut {
        table_id: t.table_id,
        kind: say_kind(t.kind),
        max_entries: t.max_entries,
        entries,
    };
    assert(r@.entries =~= table_out(t@).entries);
    r
}

impl LogPlayer {
    /// Every packet that left by a link between two times.
    pub fn inspect_link(&self, link_id: u32, from_ns: u64, to_ns: u64) -> (r: Vec<LinkPacketOut>)
        ensures
            r@ == link_packets(
                self@.frames,
                link_id,
                from_ns,
                after_from(self@.frames, to_ns, 0),
            ),
    {
        let ghost f = self@.frames;
        let upto: usize = self.frames_upto(to_ns);
        let mut out: Vec<LinkPacketOut> = Vec::new();
        let mut i: usize = 0;
        while i < upto
            invariant
                i <= upto <= self.frames@.len(),
                f == self@.frames,
                out@ == link_packets(f, link_id, from_ns, i as int),
            decreases upto - i,
        {
            assert(f[i as int] == self.frames@[i as int]@);
            let at_ns: u64 = self.frames[i].at_ns;
            match &self.frames[i].event {
                LogEvent::PacketEgress { link, packet_id, size_bytes, arrive_at_ns, .. } => {
                    if *link == link_id && at_ns >= from_ns {
                        out.push(
                            LinkPacketOut {
                                packet_id: *packet_id,
                                size_bytes: *size_bytes,
                                at_ns,
                                arrive_at_ns: *arrive_at_ns,
                            },
                        );
                    }
                },
                _ => {},
            }
            i += 1;
        }
        out
    }

    /// A packet as it last entered a switch by a time, if it did.
    pub fn inspect_packet(&self, packet_id: u64, at_ns: u64) -> (r: Option<PacketInspectOut>)
        ensures
            ({
                let n = after_from(self@.frames, at_ns, 0);
                match last_seen(self@.frames, packet_id, n) {
                    Some(p) => r matches Some(x) && x.packet == p && x.history@ == visited(
                        self@.frames,
                        packet_id,
                        n,
                    ),
                    None => r is None,
                }
            }),
    {
        let ghost f = self@.frames;
        let upto: usize = self.frames_upto(at_ns);
        let mut latest: Option<PacketSnapshotW> = None;
        let mut history: Vec<u32> = Vec::new();
        let mut i: usize = 0;
        while i < upto
            invariant
                i <= upto <= self.frames@.len(),
                f == self@.frames,
                latest == last_seen(f, packet_id, i as int),
                history@ == visited(f, packet_id, i as int),
            decreases upto - i,
        {
            assert(f[i as int] == self.frames@[i as int]@);
            match &self.frames[i].event {
                LogEvent::PacketIngress { switch, packet, .. } => {
                    if packet.id == packet_id {
                        latest = Some(*packet);
                        history.push(*switch);
                    }
                },
                _ => {},
            }
            i += 1;
        }
        match latest {
            Some(packet) => Some(PacketInspectOut { packet, history }),
            None => None,
        }
    }

    fn speaker(&self, id: u32) -> (r: Option<u32>)
        ensures
            r == speaker_ip(self@.scene.switches, id),
    {
        let mut i: usize = 0;
        while i < self.switches.len()
            invariant
                i <= self.switches@.len(),
                node_place(self.switches@, id, 0) == node_place(self.switches@, id, i as int),
            decreases self.switches@.len() - i,
        {
            if self.switches[i].id == id {
                return self.switches[i].bgp_speaker_ip;
            }
            i += 1;
        }
        None
    }

    fn address(&self, kind: u8, id: u32) -> (r: Option<u32>)
        ensures
            r == self@.scene.node_ip(kind, id),
    {
        if kind != 0 {
            return self.speaker(id);
        }
        let mut i: usize = 0;
        while i < self.apps.len()
            invariant
                i <= self.apps@.len(),
                kind == 0,
                app_ip(self.apps@, id, 0) == app_ip(self.apps@, id, i as int),
            decreases self.apps@.len() - i,
        {
            if self.apps[i].id == id {
                return Some(self.apps[i].ip);
            }
            i += 1;
        }
        None
    }

    fn list_ports(&self, switch: u32) -> (r: Vec<PortOut>)
        ensures
            ({
                let ports = by_time(
                    self@.scene.ports_of(switch, self@.scene.links.len() as int),
                );
                r@ == Seq::new(ports.len(), |i: int| ports[i].1)
            }),
    {
        let ghost scene = self@.scene;
        let mut raw: Vec<(u64, PortOut)> = Vec::new();
        let mut i: usize = 0;
        while i < self.links.len()
            invariant
                i <= self.links@.len(),
                scene == self@.scene,
                raw@ == scene.ports_of(switch, i as int),
            decreases self.links@.len() - i,
        {
            let l = self.links[i];
            if l.a_kind == 1 && l.a_id == switch {
                let p = PortOut {
                    port: l.a_port,
                    link: l.id,
                    peer_kind: l.b_kind,
                    peer_id: l.b_id,
                    peer_port: l.b_port,
                    peer_ip: self.address(l.b_kind, l.b_id),
                };
                raw.push((p.port as u64, p));
            } else if l.b_kind == 1 && l.b_id == switch {
                let p = PortOut {
                    port: l.b_port,
                    link: l.id,
                    peer_kind: l.a_kind,
                    peer_id: l.a_id,
                    peer_port: l.a_port,
                    peer_ip: self.address(l.a_kind, l.a_id),
                };
                raw.push((p.port as u64, p));
            }
            i += 1;
        }
        let sorted = sort_by_time(&raw);
        let mut out: Vec<PortOut> = Vec::new();
        let mut k: usize = 0;
        while k < sorted.len()
            invariant
                k <= sorted@.len(),
                out@ =~= Seq::new(k as nat, |j: int| sorted@[j].1),
            decreases sorted@.len() - k,
        {
            out.push(sorted[k].1);
            k += 1;
        }
        out
    }

    /// A switch at the cursor, if there is one of that id.
    pub fn inspect_switch(&self, switch_id: u32) -> (r: Option<InspectOut>)
        ensures
            ({
                let k = state_at(self@.replay.states, switch_id, 0);
                if k < self@.replay.states.len() {
                    r matches Some(x) && x.shows(self@, switch_id, self@.replay.states[k])
                } else {
                    r is None
                }
            }),
    {
        let k: usize = self.replay.find_state(switch_id);
        if k >= self.replay.states.len() {
            return None;
        }
        let st = &self.replay.states[k];
        assert(self@.replay.states[k as int] == st@);
        let program_text = match &st.program {
            Some(p) => format_program(p),
            None => "(no program installed)".to_owned(),
        };
        let mut tables: Vec<TableOut> = Vec::new();
        let mut i: usize = 0;
        while i < st.tables.len()
            invariant
                i <= st.tables@.len(),
                tables@.len() == i,
                forall|j: int| 0 <= j < i ==> (#[trigger] tables@[j])@ == table_out(st.tables@[j]@),
            decreases st.tables@.len() - i,
        {
            tables.push(show_table(&st.tables[i]));
            i += 1;
        }
        assert(tables@.map_values(|t: TableOut| t@) =~= st@.tables.map_values(
            |t: TableSnapshotV| table_out(t),
        ));
        let mut registers: Vec<RegSnapshotW> = Vec::new();
        let mut a: usize = 0;
        while a < st.registers.len()
            invariant
                a <= st.registers@.len(),
                registers@ =~= st.registers@.take(a as int),
            decreases st.registers@.len() - a,
        {
            registers.push(st.registers[a]);
            a += 1;
        }
        assert(registers@ =~= st.registers@);
        let mut counters: Vec<CounterSnapshotW> = Vec::new();
        let mut b: usize = 0;
        while b < st.counters.len()
            invariant
                b <= st.counters@.len(),
                counters@ =~= st.counters@.take(b as int),
            decreases st.counters@.len() - b,
        {
            counters.push(st.counters[b]);
            b += 1;
        }
        assert(counters@ =~= st.counters@);
        Some(
            InspectOut {
                switch: switch_id,
                bgp_speaker_ip: self.speaker(switch_id),
                ports: self.list_ports(switch_id),
                program_text,
                tables,
                registers,
                counters,
            },
        )
    }
}

} // verus!
