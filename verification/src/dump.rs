//! A log in readable form: one line for each change of a table, link or program.

use crate::chars::{decimal, push_chars, push_decimal, push_right, push_text, right_aligned};
use crate::sim_log::schema::LogEventV;
use crate::sim_log::{LogEvent, LogFrame};
use crate::viewer::listing::{action_words, say_action};
use vstd::prelude::*;

verus! {

/// A hexadecimal digit.
pub open spec fn hex_digit(d: nat) -> char {
    if d < 10 {
        (('0' as u32) + d) as char
    } else {
        (('a' as u32) + (d - 10)) as char
    }
}

/// A number in hexadecimal.
pub open spec fn hexadecimal(n: nat) -> Seq<char>
    decreases n,
{
    if n < 16 {
        seq![hex_digit(n)]
    } else {
        hexadecimal(n / 16).push(hex_digit(n % 16))
    }
}

fn hex_char(d: u64) -> (r: char)
    requires
        d < 16,
    ensures
        r == hex_digit(d as nat),
{
    if d == 0 {
        '0'
    } else if d == 1 {
        '1'
    } else if d == 2 {
        '2'
    } else if d == 3 {
        '3'
    } else if d == 4 {
        '4'
    } else if d == 5 {
        '5'
    } else if d == 6 {
        '6'
    } else if d == 7 {
        '7'
    } else if d == 8 {
        '8'
    } else if d == 9 {
        '9'
    } else if d == 10 {
        'a'
    } else if d == 11 {
        'b'
    } else if d == 12 {
        'c'
    } else if d == 13 {
        'd'
    } else if d == 14 {
        'e'
    } else {
        'f'
    }
}

fn hex_chars(n: u64) -> (r: Vec<char>)
    ensures
        r@ == hexadecimal(n as nat),
    decreases n,
{
    if n < 16 {
        let mut out: Vec<char> = Vec::new();
        out.push(hex_char(n));
        assert(out@ =~= seq![hex_digit(n as nat)]);
        out
    } else {
        let mut out = hex_chars(n / 16);
        out.push(hex_char(n % 16));
        out
    }
}

/// When a line's event was.
pub open spec fn stamp(at_ns: u64) -> Seq<char> {
    right_aligned(decimal(at_ns as nat), 10) + " ns  "@
}

/// A switch or a port by number, where one number stands for none.
pub open spec fn or_none(n: u32, none: u32, prefix: Seq<char>) -> Seq<char> {
    if n == none {
        "none"@
    } else {
        prefix + decimal(n as nat)
    }
}

/// What a diagnostic packet tells: which switch sent it, about which stale
/// destination, with which first hop and port. All of it is in its addresses.
pub open spec fn diagnosis(src: u32, dst: u32) -> Seq<char> {
    "S"@ + decimal((dst / 0x100 % 0x100) as nat) + "  DIAG  delete-S"@ + decimal(
        (dst / 0x1_0000 % 0x100) as nat,
    ) + "; first_hop="@ + or_none(dst % 0x100, 0xff, "S"@) + " port="@ + or_none(
        src % 0x1_0000,
        0xffff,
        ""@,
    )
}

/// Whether a switch is to be shown.
pub open spec fn wanted(filter: Option<u32>, switch: u32) -> bool {
    filter matches Some(s) ==> s == switch
}

/// What a frame shows after its stamp, if anything.
pub open spec fn frame_words(e: LogEventV, filter: Option<u32>) -> Option<Seq<char>> {
    match e {
        LogEventV::TableEntryInstalled { switch, table, entry } => if wanted(filter, switch) {
            Some(
                "S"@ + decimal(switch as nat) + "  install  t"@ + decimal(table as nat)
                    + "  entry id="@ + decimal(entry.id.0 as nat) + " key=0x"@ + hexadecimal(
                    entry.key as nat,
                ) + "/"@ + decimal(entry.prefix_len as nat) + " -> "@ + action_words(entry.action),
            )
        } else {
            None
        },
        LogEventV::TableEntryDeleted { switch, table, entry_id } => if wanted(filter, switch) {
            Some(
                "S"@ + decimal(switch as nat) + "  delete   t"@ + decimal(table as nat)
                    + "  entry id="@ + decimal(entry_id as nat),
            )
        } else {
            None
        },
        LogEventV::LinkFailed { id } => Some("link L"@ + decimal(id as nat) + " FAILED"@),
        LogEventV::LinkRestored { id } => Some("link L"@ + decimal(id as nat) + " restored"@),
        LogEventV::ProgramInstalled { switch, .. } => if wanted(filter, switch) {
            Some("S"@ + decimal(switch as nat) + "  PROGRAM INSTALLED"@)
        } else {
            None
        },
        LogEventV::PacketIngress { packet, .. } => if packet.ip_proto == 254 && wanted(
            filter,
            packet.ip_dst / 0x100 % 0x100,
        ) {
            Some(diagnosis(packet.ip_src, packet.ip_dst))
        } else {
            None
        },
        _ => None,
    }
}

fn is_wanted(filter: Option<u32>, switch: u32) -> (r: bool)
    ensures
        r == wanted(filter, switch),
{
    match filter {
        Some(s) => s == switch,
        None => true,
    }
}

fn push_or_none(out: &mut String, n: u32, none: u32, prefix: &str)
    ensures
        final(out)@ == old(out)@ + or_none(n, none, prefix@),
{
    if n == none {
        push_text(out, "none");
    } else {
        push_text(out, prefix);
        push_decimal(out, n as u64);
        assert(out@ =~= old(out)@ + or_none(n, none, prefix@));
    }
}

fn say_diagnosis(src: u32, dst: u32) -> (r: String)
    ensures
        r@ == diagnosis(src, dst),
{
    let mut out = String::new();
    push_text(&mut out, "S");
    push_decimal(&mut out, (dst / 0x100 % 0x100) as u64);
    push_text(&mut out, "  DIAG  delete-S");
    push_decimal(&mut out, (dst / 0x1_0000 % 0x100) as u64);
    push_text(&mut out, "; first_hop=");
    push_or_none(&mut out, dst % 0x100, 0xff, "S");
    push_text(&mut out, " port=");
    push_or_none(&mut out, src % 0x1_0000, 0xffff, "");
    assert(out@ =~= diagnosis(src, dst));
    out
}

fn say_frame(e: &LogEvent, filter: Option<u32>) -> (r: Option<String>)
    ensures
        match frame_words(e@, filter) {
            Some(t) => r matches Some(s) && s@ == t,
            None => r is None,
        },
{
    let mut out = String::new();
    match e {
        LogEvent::TableEntryInstalled { switch, table, entry } => {
            if !is_wanted(filter, *switch) {
                return None;
            }
            push_text(&mut out, "S");
            push_decimal(&mut out, *switch as u64);
            push_text(&mut out, "  install  t");
            push_decimal(&mut out, *table as u64);
            push_text(&mut out, "  entry id=");
            push_decimal(&mut out, entry.id.0);
            push_text(&mut out, " key=0x");
            push_chars(&mut out, hex_chars(entry.key).as_slice());
            push_text(&mut out, "/");
            push_decimal(&mut out, entry.prefix_len as u64);
            push_text(&mut out, " -> ");
            push_text(&mut out, say_action(entry.action).as_str());
            assert(out@ =~= frame_words(e@, filter)->0);
            Some(out)
        },
        LogEvent::TableEntryDeleted { switch, table, entry_id } => {
            if !is_wanted(filter, *switch) {
                return None;
            }
            push_text(&mut out, "S");
            push_decimal(&mut out, *switch as u64);
            push_text(&mut out, "  delete   t");
            push_decimal(&mut out, *table as u64);
            push_text(&mut out, "  entry id=");
            push_decimal(&mut out, *entry_id);
            assert(out@ =~= frame_words(e@, filter)->0);
            Some(out)
        },
        LogEvent::LinkFailed { id } => {
            push_text(&mut out, "link L");
            push_decimal(&mut out, *id as u64);
            push_text(&mut out, " FAILED");
            assert(out@ =~= frame_words(e@, filter)->0);
            Some(out)
        },
        LogEvent::LinkRestored { id } => {
            push_text(&mut out, "link L");
            push_decimal(&mut out, *id as u64);
            push_text(&mut out, " restored");
            assert(out@ =~= frame_words(e@, filter)->0);
            Some(out)
        },
        LogEvent::ProgramInstalled { switch, .. } => {
            if !is_wanted(filter, *switch) {
                return None;
            }
            push_text(&mut out, "S");
            push_decimal(&mut out, *switch as u64);
            push_text(&mut out, "  PROGRAM INSTALLED");
            assert(out@ =~= frame_words(e@, filter)->0);
            Some(out)
        },
        LogEvent::PacketIngress { packet, .. } => {
            if packet.ip_proto == 254 && is_wanted(filter, packet.ip_dst / 0x100 % 0x100) {
                Some(say_diagnosis(packet.ip_src, packet.ip_dst))
            } else {
                None
            }
        },
        _ => None,
    }
}

/// The line of a frame, if it has one. A filter shows one switch alone.
pub fn dump_line(f: &LogFrame, filter: Option<u32>) -> (r: Option<String>)
    ensures
        match frame_words(f@.event, filter) {
            Some(t) => r matches Some(s) && s@ == stamp(f@.at_ns) + t,
            None => r is None,
        },
{
    match say_frame(&f.event, filter) {
        Some(t) => {
            let mut number = String::new();
            push_decimal(&mut number, f.at_ns);
            assert(number@ =~= decimal(f.at_ns as nat));
            let mut out = String::new();
            push_right(&mut out, number.as_str(), 10);
            push_text(&mut out, " ns  ");
            push_text(&mut out, t.as_str());
            assert(out@ =~= stamp(f@.at_ns) + t@);
            Some(out)
        },
        None => None,
    }
}

} // verus!
