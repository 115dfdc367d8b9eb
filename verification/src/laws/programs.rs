//! What the programs of the library set up and send, and how a log is dumped.

use crate::chars::decimal;
use crate::dump::{diagnosis, frame_words, hex_digit, hexadecimal, or_none};
use crate::laws::routing::control_packet;
use crate::programs::{lookup_view, two_tables};
use crate::programs::hello_switch::{catch_entry, greetings, two_table_setup};
use crate::programs::learning_switch::one_table;
use crate::programs::my_switch::spf::{
    followed, hop_place, nearest, port_to, Chart, Hop, NeighborEntry,
};
use crate::sdk::{decl_place, no_setup, with_entry, with_table};
use crate::sdk::actions::packet_weight;
use crate::sim_log::schema::LogEventV;
use crate::sim_log::writer::le32;
use crate::wire::{
    InstrW, MatchKindW, PacketFieldW, ProgramSetupV, PuntReasonW, TableActionW, TableDeclV,
    TableEntryW,
};
use vstd::prelude::*;

verus! {

/// A setup starts empty, and declaring a table adds that table, without entries, and
/// nothing else.
pub proof fn setups_grow_by_what_is_declared(
    s: ProgramSetupV,
    id: u32,
    kind: MatchKindW,
    max: u32,
)
    ensures
        ({
            let n = no_setup();
            &&& n.tables.len() == 0 && n.registers.len() == 0 && n.counters.len() == 0
                && n.program.stages.len() == 0
            &&& with_table(s, id, kind, max).tables == s.tables.push(
                with_table(s, id, kind, max).tables.last(),
            )
            &&& with_table(s, id, kind, max).tables.last().id.0 == id
            &&& with_table(s, id, kind, max).tables.last().kind == kind
            &&& with_table(s, id, kind, max).tables.last().max_entries == max
            &&& with_table(s, id, kind, max).tables.last().initial_entries.len() == 0
            &&& with_table(s, id, kind, max).program == s.program
            &&& with_table(s, id, kind, max).registers == s.registers
            &&& with_table(s, id, kind, max).counters == s.counters
        }),
{
}

/// An entry goes to the end of the first table with its id; without such a table it
/// goes nowhere.
pub proof fn entries_go_to_their_table(s: ProgramSetupV, id: u32, e: TableEntryW, k: int, j: int)
    requires
        0 <= k <= s.tables.len(),
        forall|j: int| 0 <= j < k ==> (#[trigger] s.tables[j]).id.0 != id,
        k < s.tables.len() ==> s.tables[k].id.0 == id,
    ensures
        ({
            let t = with_entry(s, id, e);
            &&& k == s.tables.len() ==> t == s
            &&& k < s.tables.len() ==> t.tables.len() == s.tables.len()
                && t.tables[k].initial_entries == s.tables[k].initial_entries.push(e) && (0 <= j
                < s.tables.len() && j != k ==> t.tables[j] == s.tables[j])
        }),
{
    lemma_decl(s.tables, id, 0, k);
}

proof fn lemma_decl(s: Seq<TableDeclV>, id: u32, i: int, k: int)
    requires
        0 <= i <= k <= s.len(),
        forall|j: int| i <= j < k ==> (#[trigger] s[j]).id.0 != id,
        k < s.len() ==> s[k].id.0 == id,
    ensures
        decl_place(s, id, i) == k,
    decreases k - i,
{
    if i < k {
        assert(s[i].id.0 != id);
        lemma_decl(s, id, i + 1, k);
    }
}

/// A lookup stage loads a field and looks it up, and has room for little else.
pub proof fn lookups_load_and_look_up(reg: u8, field: PacketFieldW, table: u32, meta: u32)
    ensures
        ({
            let s = lookup_view(reg, field, table, meta);
            &&& s.instrs.len() == 2
            &&& s.instrs[0] matches InstrW::LoadField { dst, field: f } && dst.0 == reg && f
                == field
            &&& s.instrs[1] matches InstrW::TableLookup { table_id, key_reg, result_meta }
                && table_id.0 == table && key_reg.0 == reg && result_meta.0 == meta
            &&& s.max_alu_ops == 4 && s.max_memory_accesses == 1
        }),
{
}

/// The routing pipeline looks up the protocol first and then the destination, in an
/// exact table and in one of prefixes.
pub proof fn routing_pipelines_have_two_tables()
    ensures
        two_tables().stages == seq![
            lookup_view(0, PacketFieldW::IpProto, 1, 0),
            lookup_view(1, PacketFieldW::IpDst, 2, 1),
        ],
        two_table_setup().program == two_tables(),
        two_table_setup().tables.len() == 2,
        two_table_setup().tables[0].id.0 == 1 && two_table_setup().tables[0].kind is Exact
            && two_table_setup().tables[0].max_entries == 8,
        two_table_setup().tables[1].id.0 == 2 && two_table_setup().tables[1].kind is Lpm
            && two_table_setup().tables[1].max_entries == 256,
        one_table().stages == seq![lookup_view(0, PacketFieldW::IpDst, 1, 0)],
{
}

/// A control protocol is handed to the program, which is told which one it was.
pub proof fn control_protocols_are_caught(id: u64, proto: u8)
    ensures
        ({
            let e = catch_entry(id, proto);
            &&& e.id.0 == id && e.key == proto && e.priority == 0
            &&& e.action matches TableActionW::Punt { reason } && (
            reason matches PuntReasonW::Custom(c) && c == proto)
        }),
{
}

/// Greetings go out of every port, from the switch, with its number.
pub proof fn greetings_go_out_of_every_port(id: u32, ports: Seq<u16>, n: int, i: int)
    requires
        0 <= i < n <= ports.len(),
    ensures
        greetings(id, ports, n).len() == n,
        greetings(id, ports, n)[i] == control_packet(id, ports[i], 89, le32(id)),
    decreases n,
{
    assert(le32(id).len() == 4);
    if i < n - 1 {
        greetings_go_out_of_every_port(id, ports, n - 1, i);
    } else if n > 1 {
        greetings_go_out_of_every_port(id, ports, n - 1, 0);
    } else {
        assert(greetings(id, ports, 0).len() == 0);
    }
}

/// A packet weighs its payload and its header of twenty bytes.
pub proof fn packets_weigh_their_header_too(payload: nat)
    requires
        payload + 20 <= u64::MAX,
    ensures
        packet_weight(payload) == payload + 20,
{
}

/// A way over a link is as long as the way to it and the link together. It is taken up
/// if none is known to the same end, or only a longer one that is not settled; one
/// that is equally long stays.
pub proof fn shorter_ways_replace_longer_ones(
    c: Chart,
    s: Seq<Hop>,
    from: Hop,
    link: (u32, u32),
    k: int,
)
    requires
        0 <= k <= s.len(),
        forall|j: int| 0 <= j < k ==> (#[trigger] s[j]).id != link.0,
        k < s.len() ==> s[k].id == link.0,
        from.dist + link.1 <= u32::MAX,
        c.start_port(from.id, from.port, link.0) is Some,
    ensures
        ({
            let t = followed(c, s, from, link);
            let port = c.start_port(from.id, from.port, link.0);
            &&& k == s.len() ==> t == s.push(
                Hop { id: link.0, dist: (from.dist + link.1) as u32, port, done: false },
            )
            &&& k < s.len() && !s[k].done && from.dist + link.1 < s[k].dist ==> t == s.update(
                k,
                Hop { id: link.0, dist: (from.dist + link.1) as u32, port, done: false },
            )
            &&& k < s.len() && (s[k].done || from.dist + link.1 >= s[k].dist) ==> t == s
        }),
{
    lemma_hop(s, link.0, 0, k);
}

proof fn lemma_hop(s: Seq<Hop>, id: u32, i: int, k: int)
    requires
        0 <= i <= k <= s.len(),
        forall|j: int| i <= j < k ==> (#[trigger] s[j]).id != id,
        k < s.len() ==> s[k].id == id,
    ensures
        hop_place(s, id, i) == k,
    decreases k - i,
{
    if i < k {
        assert(s[i].id != id);
        lemma_hop(s, id, i + 1, k);
    }
}

/// A way starts by the port of a neighbour that is up, and by no other; without one it
/// does not start at all. What goes on from elsewhere goes by the same port.
pub proof fn ways_start_at_living_neighbours(c: Chart, from: u32, port: Option<u16>, to: u32)
    ensures
        from != c.me ==> c.start_port(from, port, to) == port,
        from == c.me ==> (c.start_port(from, port, to) matches Some(p) ==> exists|i: int|
            0 <= i < c.neighbors.len() && (#[trigger] c.neighbors[i]).up
                && c.neighbors[i].neighbor_id == to && c.neighbors[i].port == p),
        from == c.me ==> (c.start_port(from, port, to) is None ==> forall|i: int|
            0 <= i < c.neighbors.len() && (#[trigger] c.neighbors[i]).up
                ==> c.neighbors[i].neighbor_id != to),
{
    lemma_port_to(c.neighbors, to, c.neighbors.len() as int);
}

proof fn lemma_port_to(s: Seq<NeighborEntry>, id: u32, n: int)
    requires
        0 <= n <= s.len(),
    ensures
        port_to(s, id, n) matches Some(p) ==> exists|i: int|
            0 <= i < n && (#[trigger] s[i]).up && s[i].neighbor_id == id && s[i].port == p,
        port_to(s, id, n) is None ==> forall|i: int|
            0 <= i < n && (#[trigger] s[i]).up ==> s[i].neighbor_id != id,
    decreases n,
{
    if n > 0 {
        lemma_port_to(s, id, n - 1);
        if s[n - 1].up && s[n - 1].neighbor_id == id {
            assert(s[n - 1].up);
        }
    }
}

/// Of the switches that are not settled the nearest is next, and of two that are
/// equally near the one with the lower id.
pub proof fn the_nearest_is_next(s: Seq<Hop>, n: int, j: int)
    requires
        0 <= j < n <= s.len(),
        !s[j].done,
    ensures
        ({
            let k = nearest(s, n);
            &&& 0 <= k < n && !s[k].done
            &&& s[k].dist < s[j].dist || (s[k].dist == s[j].dist && s[k].id <= s[j].id)
        }),
    decreases n,
{
    if j < n - 1 {
        the_nearest_is_next(s, n - 1, j);
    } else {
        lemma_nearest(s, n - 1);
    }
}

proof fn lemma_nearest(s: Seq<Hop>, n: int)
    requires
        0 <= n <= s.len(),
    ensures
        -1 <= nearest(s, n) < n,
        nearest(s, n) >= 0 ==> !s[nearest(s, n)].done,
    decreases n,
{
    if n > 0 {
        lemma_nearest(s, n - 1);
    }
}

/// The value of characters, each taken as a digit of sixteen.
pub open spec fn hex_value(s: Seq<char>) -> int
    decreases s.len(),
{
    if s.len() == 0 {
        0
    } else {
        hex_value(s.drop_last()) * 16 + (if s.last() as int <= 57 {
            s.last() as int - 48
        } else {
            s.last() as int - 87
        })
    }
}

/// A number in hexadecimal is spelled by its digits, with small letters from ten on.
pub proof fn hexadecimals_are_spelled_digit_by_digit(n: nat, i: int)
    ensures
        hex_value(hexadecimal(n)) == n,
        0 <= i < hexadecimal(n).len() ==> 48 <= hexadecimal(n)[i] as int <= 57 || 97 <= hexadecimal(
            n,
        )[i] as int <= 102,
    decreases n,
{
    if n < 16 {
        lemma_hex_digit(n);
        assert(seq![hex_digit(n)].drop_last() =~= Seq::<char>::empty());
        assert(hex_value(Seq::<char>::empty()) == 0);
        assert(hexadecimal(n).last() == hex_digit(n));
    } else {
        hexadecimals_are_spelled_digit_by_digit(n / 16, i);
        lemma_hex_digit(n % 16);
        assert(hexadecimal(n).drop_last() =~= hexadecimal(n / 16));
        assert(hexadecimal(n).last() == hex_digit(n % 16));
        if 0 <= i < hexadecimal(n).len() - 1 {
            assert(hexadecimal(n)[i] == hexadecimal(n / 16)[i]);
        }
    }
}

proof fn lemma_hex_digit(d: nat)
    requires
        d < 16,
    ensures
        d < 10 ==> hex_digit(d) as int == 48 + d,
        d >= 10 ==> hex_digit(d) as int == 87 + d,
{
}

/// A dump shows changes of tables, links and programs, and diagnostic packets; of one
/// switch only, if one is asked for.
pub proof fn dumps_show_what_is_asked_for(e: LogEventV, filter: Option<u32>)
    ensures
        frame_words(e, filter) is Some <==> match e {
            LogEventV::TableEntryInstalled { switch, .. } => filter is None || filter == Some(
                switch,
            ),
            LogEventV::TableEntryDeleted { switch, .. } => filter is None || filter == Some(switch),
            LogEventV::ProgramInstalled { switch, .. } => filter is None || filter == Some(switch),
            LogEventV::LinkFailed { .. } => true,
            LogEventV::LinkRestored { .. } => true,
            LogEventV::PacketIngress { packet, .. } => packet.ip_proto == 254 && (filter is None
                || filter == Some((packet.ip_dst / 256) % 256)),
            _ => false,
        },
{
}

/// A diagnostic packet tells by the bytes of its destination, from the second highest
/// down, which destination went stale, who says so and what the first hop was; the port
/// is the lower half of its source. All ones stand for none.
pub proof fn diagnoses_are_in_the_addresses(stale: u8, who: u8, hop: u8, port: u16, hi: u16, top: u8)
    ensures
        ({
            let dst = (top * 0x100_0000 + stale * 0x1_0000 + who * 0x100 + hop) as u32;
            let src = (hi * 0x1_0000 + port) as u32;
            diagnosis(src, dst) == "S"@ + decimal(who as nat) + "  DIAG  delete-S"@ + decimal(
                stale as nat,
            ) + "; first_hop="@ + or_none(hop as u32, 255, "S"@) + " port="@ + or_none(
                port as u32,
                65535,
                ""@,
            )
        }),
{
    let dst = (top * 0x100_0000 + stale * 0x1_0000 + who * 0x100 + hop) as u32;
    let src = (hi * 0x1_0000 + port) as u32;
    assert(dst / 0x100 % 0x100 == who && dst / 0x1_0000 % 0x100 == stale && dst % 0x100 == hop)
        by (bit_vector)
        requires
            dst == top * 0x100_0000 + stale * 0x1_0000 + who * 0x100 + hop,
    ;
    assert(src % 0x1_0000 == port) by (bit_vector)
        requires
            src == hi * 0x1_0000 + port,
    ;
}

/// Where one number stands for none, that number is shown as none and no other is.
pub proof fn one_number_stands_for_none(n: u32, none: u32, prefix: Seq<char>)
    ensures
        n == none ==> or_none(n, none, prefix) == "none"@,
        n != none ==> or_none(n, none, prefix) == prefix + decimal(n as nat),
{
}

} // verus!
