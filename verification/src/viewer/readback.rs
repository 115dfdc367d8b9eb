//! Listings read back: the assembler turns the listing of a program into that
//! program.

use crate::chars::{
    begins, decimal, digit_value, lemma_decimal, lemma_join, lemma_place_of, lemma_whole_word,
    number, place_of, separates, words,
};
use crate::text::{
    arrows_apart, attrs_in, blank, cell_in, code_of, field_in, instr_in, instr_on, integer,
    opcode_of, program_in, reason_in, reg_in, Opcode, Reading,
};
use crate::viewer::listing::{
    field_words, instr_lines, instr_words, reason_name, stage_lines, stage_words,
};
use crate::wire::{
    CounterArrayIdW, InstrW, MetaKeyW, PacketFieldW, PortIdW, PuntReasonW, QueueIdW, RegW,
    RegisterArrayIdW, StageProgramV, TableIdW, TinyProgramV,
};
use vstd::prelude::*;

verus! {

/// A text without comment marks, line ends and dashes.
#[verifier::opaque]
spec fn plain(s: Seq<char>) -> bool {
    forall|i: int| 0 <= i < s.len() ==> #[trigger] s[i] != '#' && s[i] != '\n' && s[i] != '-'
}

/// One plain word.
#[verifier::opaque]
spec fn solid(w: Seq<char>) -> bool {
    &&& w.len() > 0
    &&& forall|i: int|
        0 <= i < w.len() ==> !separates(#[trigger] w[i], true) && w[i] != '#' && w[i] != '\n'
            && w[i] != '-'
}

/// What may stand between two words of a line.
#[verifier::opaque]
spec fn gap(s: Seq<char>) -> bool {
    &&& s.len() > 0
    &&& forall|i: int| 0 <= i < s.len() ==> #[trigger] s[i] == ' ' || s[i] == ','
}

/// A plain text and its words.
#[verifier::opaque]
spec fn reads(s: Seq<char>, toks: Seq<Seq<char>>) -> bool {
    words(s, true) == toks && plain(s)
}

proof fn lemma_blank_has_no_words(s: Seq<char>)
    requires
        blank(s),
    ensures
        words(s, true) == Seq::<Seq<char>>::empty(),
    decreases s.len(),
{
    if s.len() > 0 {
        let t = s.drop_first();
        assert forall|i: int| 0 <= i < t.len() implies crate::chars::white(#[trigger] t[i]) by {
            assert(t[i] == s[i + 1]);
        }
        assert(crate::chars::white(s[0]));
        lemma_blank_has_no_words(t);
    }
}

/// A word after a gap is one more word.
proof fn lemma_next(s: Seq<char>, toks: Seq<Seq<char>>, g: Seq<char>, w: Seq<char>)
    requires
        reads(s, toks),
        gap(g),
        solid(w),
    ensures
        reads(s + g + w, toks.push(w)),
{
    reveal(reads);
    reveal(gap);
    reveal(solid);
    reveal(plain);
    assert(forall|i: int| 0 <= i < g.len() ==> separates(#[trigger] g[i], true));
    lemma_join(s, g, w);
    lemma_whole_word(w);
    assert(words(s, true) + seq![w] =~= toks.push(w));
    let t = s + g + w;
    assert forall|i: int| 0 <= i < t.len() implies #[trigger] t[i] != '#' && t[i] != '\n' && t[i]
        != '-' by {
        if i < s.len() {
            assert(t[i] == s[i]);
        } else if i < s.len() + g.len() {
            assert(t[i] == g[i - s.len()]);
        } else {
            assert(t[i] == w[i - s.len() - g.len()]);
        }
    }
}

/// A line that starts with an indented word.
proof fn lemma_first(w: Seq<char>)
    requires
        solid(w),
    ensures
        reads("    "@ + w, seq![w]),
{
    reveal(reads);
    reveal(plain);
    reveal(gap);
    reveal_strlit("    ");
    let e = Seq::<char>::empty();
    assert(words(e, true) =~= Seq::<Seq<char>>::empty());
    lemma_next(e, Seq::empty(), "    "@, w);
    assert(e + "    "@ + w =~= "    "@ + w);
    assert(Seq::<Seq<char>>::empty().push(w) =~= seq![w]);
}

proof fn lemma_no_arrows(s: Seq<char>)
    requires
        plain(s),
    ensures
        arrows_apart(s) == s,
    decreases s.len(),
{
    reveal(plain);
    if s.len() > 0 {
        let t = s.skip(1);
        assert forall|i: int| 0 <= i < t.len() implies #[trigger] t[i] != '#' && t[i] != '\n' && t[i]
            != '-' by {
            assert(t[i] == s[i + 1]);
        }
        lemma_no_arrows(t);
        assert(seq![s[0]] + t =~= s);
    }
}

proof fn lemma_an_arrow(a: Seq<char>, b: Seq<char>)
    requires
        plain(a),
        plain(b),
    ensures
        arrows_apart(a + seq!['-', '>'] + b) == a + seq![' ', '-', '>', ' '] + b,
    decreases a.len(),
{
    reveal(plain);
    let s = a + seq!['-', '>'] + b;
    if a.len() == 0 {
        assert(s[0] == '-' && s[1] == '>');
        assert(s.skip(2) =~= b);
        lemma_no_arrows(b);
        assert(arrows_apart(s) =~= a + seq![' ', '-', '>', ' '] + b);
    } else {
        let t = a.skip(1);
        assert forall|i: int| 0 <= i < t.len() implies #[trigger] t[i] != '#' && t[i] != '\n' && t[i]
            != '-' by {
            assert(t[i] == a[i + 1]);
        }
        assert(s[0] == a[0]);
        assert(s.skip(1) =~= t + seq!['-', '>'] + b);
        lemma_an_arrow(t, b);
        assert(arrows_apart(s) =~= a + seq![' ', '-', '>', ' '] + b);
    }
}

/// What makes a line an instruction of a listing.
#[verifier::opaque]
spec fn spelled(s: Seq<char>, toks: Seq<Seq<char>>) -> bool {
    &&& instr_on(s) == instr_in(toks)
    &&& words(s, true).len() > 0
    &&& words(s, true)[0] == toks[0]
    &&& !blank(s)
    &&& forall|i: int| 0 <= i < s.len() ==> #[trigger] s[i] != '#' && s[i] != '\n'
}

proof fn lemma_spelled(s: Seq<char>, toks: Seq<Seq<char>>)
    requires
        reads(s, toks),
        toks.len() > 0,
    ensures
        spelled(s, toks),
{
    reveal(spelled);
    reveal(reads);
    reveal(plain);
    lemma_no_arrows(s);
    if blank(s) {
        lemma_blank_has_no_words(s);
    }
}

proof fn lemma_spelled_with_arrow(
    a: Seq<char>,
    before: Seq<Seq<char>>,
    w: Seq<char>,
)
    requires
        reads(a, before),
        before.len() > 0,
        solid(w),
    ensures
        spelled(a + " -> "@ + w, before.push("->"@).push(w)),
{
    reveal(spelled);
    reveal(reads);
    reveal(plain);
    reveal(solid);
    reveal_strlit(" -> ");
    reveal_strlit("->");
    let s = a + " -> "@ + w;
    let a1 = a.push(' ');
    let w1 = seq![' '] + w;
    assert forall|i: int| 0 <= i < a1.len() implies #[trigger] a1[i] != '#' && a1[i] != '\n' && a1[i]
        != '-' by {
        if i < a.len() {
            assert(a1[i] == a[i]);
        }
    }
    assert forall|i: int| 0 <= i < w1.len() implies #[trigger] w1[i] != '#' && w1[i] != '\n' && w1[i]
        != '-' by {
        if i > 0 {
            assert(w1[i] == w[i - 1]);
        }
    }
    assert(s =~= a1 + seq!['-', '>'] + w1);
    lemma_an_arrow(a1, w1);
    let apart = a1 + seq![' ', '-', '>', ' '] + w1;
    let two = seq![' ', ' '];
    let arrow = "->"@;
    assert(arrow =~= seq!['-', '>']);
    assert(apart =~= a + two + (arrow + two + w));
    lemma_join(a, two, arrow + two + w);
    lemma_join(arrow, two, w);
    lemma_whole_word(arrow);
    lemma_whole_word(w);
    assert(words(apart, true) =~= before.push(arrow).push(w));
    let one = seq![' '];
    assert(s =~= a + one + (arrow + one + w));
    lemma_join(a, one, arrow + one + w);
    if blank(s) {
        lemma_blank_has_no_words(s);
    }
    assert forall|i: int| 0 <= i < s.len() implies #[trigger] s[i] != '#' && s[i] != '\n' by {
        if i < a.len() {
            assert(s[i] == a[i]);
        } else if i >= a.len() + 4 {
            assert(s[i] == w[i - a.len() - 4]);
        }
    }
}

proof fn lemma_digits(n: nat)
    ensures
        solid(decimal(n)),
        forall|i: int|
            0 <= i < decimal(n).len() ==> '0' as u32 <= (#[trigger] decimal(n)[i]) as u32 <= '9' as u32,
{
    reveal(solid);
    lemma_decimal(n);
    let d = decimal(n);
    assert forall|i: int| 0 <= i < d.len() implies '0' as u32 <= (#[trigger] d[i]) as u32 <= '9' as u32
        && !separates(d[i], true) && d[i] != '#' && d[i] != '\n' && d[i] != '-' by {
        assert(digit_value(d[i], 10) is Some);
    }
}

/// A number is read back in either form of number.
proof fn lemma_number(n: nat, max: nat)
    requires
        n <= max,
    ensures
        number(decimal(n), 10, max) == Some(n),
        integer(decimal(n), max) == Some(n),
{
    reveal_strlit("0x");
    reveal_strlit("0b");
    lemma_decimal(n);
    lemma_digits(n);
    let d = decimal(n);
    assert('0' as u32 <= d[0] as u32 <= '9' as u32);
    if d.len() >= 2 {
        assert('0' as u32 <= d[1] as u32 <= '9' as u32);
    }
    if begins(d, "0x"@) {
        assert(d.take(2)[1] == d[1]);
        assert(false);
    }
    if begins(d, "0b"@) {
        assert(d.take(2)[1] == d[1]);
        assert(false);
    }
}

/// A letter and a number are one word.
proof fn lemma_tagged(c: char, n: nat)
    requires
        'a' as u32 <= c as u32 <= 'z' as u32,
    ensures
        solid(seq![c] + decimal(n)),
        (seq![c] + decimal(n)).skip(1) == decimal(n),
{
    reveal(solid);
    lemma_digits(n);
    let d = decimal(n);
    let s = seq![c] + d;
    assert(s.skip(1) =~= d);
    assert forall|i: int| 0 <= i < s.len() implies !separates(#[trigger] s[i], true) && s[i] != '#'
        && s[i] != '\n' && s[i] != '-' by {
        if i > 0 {
            assert(s[i] == d[i - 1]);
        }
    }
}

proof fn lemma_reg(r: RegW)
    ensures
        reg_in(seq!['r'] + decimal(r.0 as nat)) == Ok::<RegW, Seq<char>>(r),
{
    lemma_tagged('r', r.0 as nat);
    lemma_number(r.0 as nat, 255);
}

/// A cell of an array is one word.
proof fn lemma_cell_solid(c: char, n: u32, r: RegW)
    requires
        'a' as u32 <= c as u32 <= 'z' as u32,
    ensures
        solid(cell(c, n, r)),
{
    reveal(solid);
    reveal(cell);
    let a = seq![c] + decimal(n as nat);
    let b = seq!['r'] + decimal(r.0 as nat);
    let s = cell(c, n, r);
    lemma_tagged(c, n as nat);
    lemma_tagged('r', r.0 as nat);
    assert forall|i: int| 0 <= i < s.len() implies !separates(#[trigger] s[i], true) && s[i] != '#'
        && s[i] != '\n' && s[i] != '-' by {
        if i < a.len() {
            assert(s[i] == a[i]);
        } else if i > a.len() && i < a.len() + 1 + b.len() {
            assert(s[i] == b[i - a.len() - 1]);
        }
    }
}

/// A cell of an array is read back.
proof fn lemma_cell(c: char, n: u32, r: RegW)
    requires
        'a' as u32 <= c as u32 <= 'z' as u32,
    ensures
        cell_in(cell(c, n, r), c) == Ok::<(u32, RegW), Seq<char>>((n, r)),
{
    reveal(cell);
    let a = seq![c] + decimal(n as nat);
    let b = seq!['r'] + decimal(r.0 as nat);
    let s = cell(c, n, r);
    lemma_tagged(c, n as nat);
    lemma_number(n as nat, u32::MAX as nat);
    lemma_reg(r);
    lemma_digits(n as nat);
    lemma_digits(r.0 as nat);
    let at = a.len() as int;
    let end = at + 1 + b.len();
    assert(s[at] == '[' && s[end] == ']');
    lemma_place_of(s, '[', 0);
    lemma_place_of(s, ']', 0);
    let lb = place_of(s, '[', 0);
    let rb = place_of(s, ']', 0);
    if lb < at {
        assert(s[lb] == a[lb]);
        if lb > 0 {
            assert(a[lb] == decimal(n as nat)[lb - 1]);
        }
        assert(false);
    }
    if rb < end {
        if rb < at {
            assert(s[rb] == a[rb]);
            if rb > 0 {
                assert(a[rb] == decimal(n as nat)[rb - 1]);
            }
        } else if rb > at {
            assert(s[rb] == b[rb - at - 1]);
            if rb > at + 1 {
                assert(b[rb - at - 1] == decimal(r.0 as nat)[rb - at - 2]);
            }
        }
        assert(false);
    }
    assert(s.subrange(0, lb) =~= a);
    assert(s.subrange(lb + 1, rb) =~= b);
}

/// `aN[rI]`.
#[verifier::opaque]
spec fn cell(c: char, n: u32, r: RegW) -> Seq<char> {
    seq![c] + decimal(n as nat) + seq!['['] + (seq!['r'] + decimal(r.0 as nat)) + seq![']']
}

/// A field name is one word.
proof fn lemma_field_solid(f: PacketFieldW)
    ensures
        solid(field_words(f)),
{
    reveal(solid);
    reveal_strlit("custom");
    reveal_strlit("ip_src");
    reveal_strlit("ip_dst");
    reveal_strlit("ip_proto");
    reveal_strlit("ip_ttl");
    reveal_strlit("ip_dscp");
    reveal_strlit("src_port");
    reveal_strlit("dst_port");
    reveal_strlit("app_id");
    reveal_strlit("flow_id");
    reveal_strlit("size");
    reveal_strlit("kind");
    reveal_strlit("label_top");
    reveal_strlit("label_depth");
    match f {
        PacketFieldW::Custom(n) => {
            let d = decimal(n as nat);
            let s = "custom"@ + d;
            lemma_digits(n as nat);
            assert forall|i: int| 0 <= i < s.len() implies !separates(#[trigger] s[i], true) && s[i]
                != '#' && s[i] != '\n' && s[i] != '-' by {
                if i >= 6 {
                    assert(s[i] == d[i - 6]);
                }
            }
        },
        _ => {},
    }
}

/// A field name names the field.
proof fn lemma_field(f: PacketFieldW)
    ensures
        field_in(field_words(f)) == Ok::<PacketFieldW, Seq<char>>(f),
{
    reveal_strlit("ip_src");
    reveal_strlit("ip_dst");
    reveal_strlit("ip_proto");
    reveal_strlit("ttl");
    reveal_strlit("ip_ttl");
    reveal_strlit("dscp");
    reveal_strlit("ip_dscp");
    reveal_strlit("src_port");
    reveal_strlit("dst_port");
    reveal_strlit("app_id");
    reveal_strlit("flow_id");
    reveal_strlit("size");
    reveal_strlit("kind");
    reveal_strlit("label_top");
    reveal_strlit("label_depth");
    reveal_strlit("custom");
    assert("ip_src"@.len() == 6 && "ip_src"@[0] == 'i' && "ip_src"@[1] == 'p' && "ip_src"@[2] == '_' && "ip_src"@[3] == 's' && "ip_src"@[4] == 'r' && "ip_src"@[5] == 'c');
    assert("ip_dst"@.len() == 6 && "ip_dst"@[0] == 'i' && "ip_dst"@[1] == 'p' && "ip_dst"@[2] == '_' && "ip_dst"@[3] == 'd' && "ip_dst"@[4] == 's' && "ip_dst"@[5] == 't');
    assert("ip_proto"@.len() == 8 && "ip_proto"@[0] == 'i' && "ip_proto"@[1] == 'p' && "ip_proto"@[2] == '_' && "ip_proto"@[3] == 'p' && "ip_proto"@[4] == 'r' && "ip_proto"@[5] == 'o' && "ip_proto"@[6] == 't' && "ip_proto"@[7] == 'o');
    assert("ttl"@.len() == 3 && "ttl"@[0] == 't' && "ttl"@[1] == 't' && "ttl"@[2] == 'l');
    assert("ip_ttl"@.len() == 6 && "ip_ttl"@[0] == 'i' && "ip_ttl"@[1] == 'p' && "ip_ttl"@[2] == '_' && "ip_ttl"@[3] == 't' && "ip_ttl"@[4] == 't' && "ip_ttl"@[5] == 'l');
    assert("dscp"@.len() == 4 && "dscp"@[0] == 'd' && "dscp"@[1] == 's' && "dscp"@[2] == 'c' && "dscp"@[3] == 'p');
    assert("ip_dscp"@.len() == 7 && "ip_dscp"@[0] == 'i' && "ip_dscp"@[1] == 'p' && "ip_dscp"@[2] == '_' && "ip_dscp"@[3] == 'd' && "ip_dscp"@[4] == 's' && "ip_dscp"@[5] == 'c' && "ip_dscp"@[6] == 'p');
    assert("src_port"@.len() == 8 && "src_port"@[0] == 's' && "src_port"@[1] == 'r' && "src_port"@[2] == 'c' && "src_port"@[3] == '_' && "src_port"@[4] == 'p' && "src_port"@[5] == 'o' && "src_port"@[6] == 'r' && "src_port"@[7] == 't');
    assert("dst_port"@.len() == 8 && "dst_port"@[0] == 'd' && "dst_port"@[1] == 's' && "dst_port"@[2] == 't' && "dst_port"@[3] == '_' && "dst_port"@[4] == 'p' && "dst_port"@[5] == 'o' && "dst_port"@[6] == 'r' && "dst_port"@[7] == 't');
    assert("app_id"@.len() == 6 && "app_id"@[0] == 'a' && "app_id"@[1] == 'p' && "app_id"@[2] == 'p' && "app_id"@[3] == '_' && "app_id"@[4] == 'i' && "app_id"@[5] == 'd');
    assert("flow_id"@.len() == 7 && "flow_id"@[0] == 'f' && "flow_id"@[1] == 'l' && "flow_id"@[2] == 'o' && "flow_id"@[3] == 'w' && "flow_id"@[4] == '_' && "flow_id"@[5] == 'i' && "flow_id"@[6] == 'd');
    assert("size"@.len() == 4 && "size"@[0] == 's' && "size"@[1] == 'i' && "size"@[2] == 'z' && "size"@[3] == 'e');
    assert("kind"@.len() == 4 && "kind"@[0] == 'k' && "kind"@[1] == 'i' && "kind"@[2] == 'n' && "kind"@[3] == 'd');
    assert("label_top"@.len() == 9 && "label_top"@[0] == 'l' && "label_top"@[1] == 'a' && "label_top"@[2] == 'b' && "label_top"@[3] == 'e' && "label_top"@[4] == 'l' && "label_top"@[5] == '_' && "label_top"@[6] == 't' && "label_top"@[7] == 'o' && "label_top"@[8] == 'p');
    assert("label_depth"@.len() == 11 && "label_depth"@[0] == 'l' && "label_depth"@[1] == 'a' && "label_depth"@[2] == 'b' && "label_depth"@[3] == 'e' && "label_depth"@[4] == 'l' && "label_depth"@[5] == '_' && "label_depth"@[6] == 'd' && "label_depth"@[7] == 'e' && "label_depth"@[8] == 'p' && "label_depth"@[9] == 't' && "label_depth"@[10] == 'h');
    match f {
        PacketFieldW::Custom(n) => lemma_custom(n),
        _ => {},
    }
}

proof fn lemma_custom(n: u8)
    ensures
        field_in("custom"@ + decimal(n as nat)) == Ok::<PacketFieldW, Seq<char>>(
            PacketFieldW::Custom(n),
        ),
{
    reveal_strlit("ip_src");
    reveal_strlit("ip_dst");
    reveal_strlit("ip_proto");
    reveal_strlit("ttl");
    reveal_strlit("ip_ttl");
    reveal_strlit("dscp");
    reveal_strlit("ip_dscp");
    reveal_strlit("src_port");
    reveal_strlit("dst_port");
    reveal_strlit("app_id");
    reveal_strlit("flow_id");
    reveal_strlit("size");
    reveal_strlit("kind");
    reveal_strlit("label_top");
    reveal_strlit("label_depth");
    reveal_strlit("custom");
    let d = decimal(n as nat);
    let s = "custom"@ + d;
    lemma_digits(n as nat);
    lemma_number(n as nat, 255);
    assert(s.skip(6) =~= d);
    assert(s.take(6) =~= "custom"@);
    assert("custom"@.len() == 6);
    assert("custom"@[0] == 'c');
    assert(s[0] == 'c');
    assert(begins(s, "custom"@));
    assert("ip_src"@[0] == 'i');
    assert(s != "ip_src"@);
    assert("ip_dst"@[0] == 'i');
    assert(s != "ip_dst"@);
    assert("ip_proto"@[0] == 'i');
    assert(s != "ip_proto"@);
    assert("ttl"@[0] == 't');
    assert(s != "ttl"@);
    assert("ip_ttl"@[0] == 'i');
    assert(s != "ip_ttl"@);
    assert("dscp"@[0] == 'd');
    assert(s != "dscp"@);
    assert("ip_dscp"@[0] == 'i');
    assert(s != "ip_dscp"@);
    assert("src_port"@[0] == 's');
    assert(s != "src_port"@);
    assert("dst_port"@[0] == 'd');
    assert(s != "dst_port"@);
    assert("app_id"@[0] == 'a');
    assert(s != "app_id"@);
    assert("flow_id"@[0] == 'f');
    assert(s != "flow_id"@);
    assert("size"@[0] == 's');
    assert(s != "size"@);
    assert("kind"@[0] == 'k');
    assert(s != "kind"@);
    assert("label_top"@[0] == 'l');
    assert(s != "label_top"@);
    assert("label_depth"@[0] == 'l');
    assert(s != "label_depth"@);
    assert(number(s.skip(6), 10, 255) == Some(n as nat));
}

/// A punt reason is one word.
proof fn lemma_reason_solid(r: PuntReasonW)
    ensures
        solid(reason_name(r)),
{
    reveal(solid);
    reveal_strlit("no_route");
    reveal_strlit("ttl_expired");
    match r {
        PuntReasonW::Custom(n) => lemma_digits(n as nat),
        _ => {},
    }
}

/// A punt reason names the reason.
proof fn lemma_reason(op: Seq<char>, r: PuntReasonW)
    ensures
        reason_in(seq![op, reason_name(r)]) == Ok::<PuntReasonW, Seq<char>>(r),
{
    reveal_strlit("no_route");
    reveal_strlit("ttl_expired");
    match r {
        PuntReasonW::Custom(n) => {
            lemma_digits(n as nat);
            lemma_number(n as nat, u32::MAX as nat);
            assert('0' as u32 <= decimal(n as nat)[0] as u32 <= '9' as u32);
        },
        _ => {},
    }
}

/// The line of an instruction spells that instruction.
#[verifier::opaque]
spec fn line_spells(i: InstrW) -> bool {
    let s = "    "@ + instr_words(i);
    &&& instr_on(s) == Ok::<InstrW, Seq<char>>(i)
    &&& words(s, true).len() > 0
    &&& words(s, true)[0] != "stage"@
    &&& !blank(s)
    &&& forall|k: int| 0 <= k < s.len() ==> #[trigger] s[k] != '#' && s[k] != '\n'
}

/// Words that spell an instruction.
#[verifier::opaque]
spec fn means(toks: Seq<Seq<char>>, i: InstrW) -> bool {
    instr_in(toks) == Ok::<InstrW, Seq<char>>(i) && opcode_of(toks[0]) is Some
}

proof fn lemma_line(i: InstrW, s: Seq<char>, toks: Seq<Seq<char>>)
    requires
        spelled(s, toks),
        s == "    "@ + instr_words(i),
        means(toks, i),
    ensures
        line_spells(i),
{
    lemma_ops();
    reveal(means);
    reveal(line_spells);
    reveal(spelled);
}

/// The opcode words name their opcodes.
#[verifier::rlimit(60)]
proof fn lemma_ops()
    ensures
        opcode_of("load"@) == Some(Opcode::Load),
        opcode_of("store"@) == Some(Opcode::Store),
        opcode_of("loadm"@) == Some(Opcode::Loadm),
        opcode_of("storem"@) == Some(Opcode::Storem),
        opcode_of("const"@) == Some(Opcode::Const),
        opcode_of("add"@) == Some(Opcode::Add),
        opcode_of("sub"@) == Some(Opcode::Sub),
        opcode_of("and"@) == Some(Opcode::And),
        opcode_of("or"@) == Some(Opcode::Or),
        opcode_of("xor"@) == Some(Opcode::Xor),
        opcode_of("eq"@) == Some(Opcode::Eq),
        opcode_of("lt"@) == Some(Opcode::Lt),
        opcode_of("table"@) == Some(Opcode::Table),
        opcode_of("rread"@) == Some(Opcode::Rread),
        opcode_of("rwrite"@) == Some(Opcode::Rwrite),
        opcode_of("counter"@) == Some(Opcode::Counter),
        opcode_of("bif"@) == Some(Opcode::Bif),
        opcode_of("drop"@) == Some(Opcode::Drop),
        opcode_of("punt"@) == Some(Opcode::Punt),
        opcode_of("egress"@) == Some(Opcode::Egress),
        opcode_of("queue"@) == Some(Opcode::Queue),
        opcode_of("recirc"@) == Some(Opcode::Recirc),
        opcode_of("noop"@) == Some(Opcode::Noop),
        opcode_of("push_label"@) == Some(Opcode::PushLabel),
        opcode_of("pop_label"@) == Some(Opcode::PopLabel),
        opcode_of("swap_label"@) == Some(Opcode::SwapLabel),
        opcode_of("mark_trace"@) == Some(Opcode::MarkTrace),
        opcode_of("stage"@) is None,
{
    reveal_strlit("load");
    reveal_strlit("store");
    reveal_strlit("loadm");
    reveal_strlit("storem");
    reveal_strlit("const");
    reveal_strlit("add");
    reveal_strlit("sub");
    reveal_strlit("and");
    reveal_strlit("or");
    reveal_strlit("xor");
    reveal_strlit("eq");
    reveal_strlit("lt");
    reveal_strlit("table");
    reveal_strlit("rread");
    reveal_strlit("rwrite");
    reveal_strlit("counter");
    reveal_strlit("bif");
    reveal_strlit("drop");
    reveal_strlit("punt");
    reveal_strlit("egress");
    reveal_strlit("queue");
    reveal_strlit("recirc");
    reveal_strlit("noop");
    reveal_strlit("push_label");
    reveal_strlit("pop_label");
    reveal_strlit("swap_label");
    reveal_strlit("mark_trace");
    reveal_strlit("stage");
    assert("load"@.len() == 4 && "load"@[0] == 'l' && "load"@[1] == 'o' && "load"@[2] == 'a' && "load"@[3] == 'd');
    assert("store"@.len() == 5 && "store"@[0] == 's' && "store"@[1] == 't' && "store"@[2] == 'o' && "store"@[3] == 'r' && "store"@[4] == 'e');
    assert("loadm"@.len() == 5 && "loadm"@[0] == 'l' && "loadm"@[1] == 'o' && "loadm"@[2] == 'a' && "loadm"@[3] == 'd' && "loadm"@[4] == 'm');
    assert("storem"@.len() == 6 && "storem"@[0] == 's' && "storem"@[1] == 't' && "storem"@[2] == 'o' && "storem"@[3] == 'r' && "storem"@[4] == 'e' && "storem"@[5] == 'm');
    assert("const"@.len() == 5 && "const"@[0] == 'c' && "const"@[1] == 'o' && "const"@[2] == 'n' && "const"@[3] == 's' && "const"@[4] == 't');
    assert("add"@.len() == 3 && "add"@[0] == 'a' && "add"@[1] == 'd' && "add"@[2] == 'd');
    assert("sub"@.len() == 3 && "sub"@[0] == 's' && "sub"@[1] == 'u' && "sub"@[2] == 'b');
    assert("and"@.len() == 3 && "and"@[0] == 'a' && "and"@[1] == 'n' && "and"@[2] == 'd');
    assert("or"@.len() == 2 && "or"@[0] == 'o' && "or"@[1] == 'r');
    assert("xor"@.len() == 3 && "xor"@[0] == 'x' && "xor"@[1] == 'o' && "xor"@[2] == 'r');
    assert("eq"@.len() == 2 && "eq"@[0] == 'e' && "eq"@[1] == 'q');
    assert("lt"@.len() == 2 && "lt"@[0] == 'l' && "lt"@[1] == 't');
    assert("table"@.len() == 5 && "table"@[0] == 't' && "table"@[1] == 'a' && "table"@[2] == 'b' && "table"@[3] == 'l' && "table"@[4] == 'e');
    assert("rread"@.len() == 5 && "rread"@[0] == 'r' && "rread"@[1] == 'r' && "rread"@[2] == 'e' && "rread"@[3] == 'a' && "rread"@[4] == 'd');
    assert("rwrite"@.len() == 6 && "rwrite"@[0] == 'r' && "rwrite"@[1] == 'w' && "rwrite"@[2] == 'r' && "rwrite"@[3] == 'i' && "rwrite"@[4] == 't' && "rwrite"@[5] == 'e');
    assert("counter"@.len() == 7 && "counter"@[0] == 'c' && "counter"@[1] == 'o' && "counter"@[2] == 'u' && "counter"@[3] == 'n' && "counter"@[4] == 't' && "counter"@[5] == 'e' && "counter"@[6] == 'r');
    assert("bif"@.len() == 3 && "bif"@[0] == 'b' && "bif"@[1] == 'i' && "bif"@[2] == 'f');
    assert("drop"@.len() == 4 && "drop"@[0] == 'd' && "drop"@[1] == 'r' && "drop"@[2] == 'o' && "drop"@[3] == 'p');
    assert("punt"@.len() == 4 && "punt"@[0] == 'p' && "punt"@[1] == 'u' && "punt"@[2] == 'n' && "punt"@[3] == 't');
    assert("egress"@.len() == 6 && "egress"@[0] == 'e' && "egress"@[1] == 'g' && "egress"@[2] == 'r' && "egress"@[3] == 'e' && "egress"@[4] == 's' && "egress"@[5] == 's');
    assert("queue"@.len() == 5 && "queue"@[0] == 'q' && "queue"@[1] == 'u' && "queue"@[2] == 'e' && "queue"@[3] == 'u' && "queue"@[4] == 'e');
    assert("recirc"@.len() == 6 && "recirc"@[0] == 'r' && "recirc"@[1] == 'e' && "recirc"@[2] == 'c' && "recirc"@[3] == 'i' && "recirc"@[4] == 'r' && "recirc"@[5] == 'c');
    assert("noop"@.len() == 4 && "noop"@[0] == 'n' && "noop"@[1] == 'o' && "noop"@[2] == 'o' && "noop"@[3] == 'p');
    assert("push_label"@.len() == 10 && "push_label"@[0] == 'p' && "push_label"@[1] == 'u' && "push_label"@[2] == 's' && "push_label"@[3] == 'h' && "push_label"@[4] == '_' && "push_label"@[5] == 'l' && "push_label"@[6] == 'a' && "push_label"@[7] == 'b' && "push_label"@[8] == 'e' && "push_label"@[9] == 'l');
    assert("pop_label"@.len() == 9 && "pop_label"@[0] == 'p' && "pop_label"@[1] == 'o' && "pop_label"@[2] == 'p' && "pop_label"@[3] == '_' && "pop_label"@[4] == 'l' && "pop_label"@[5] == 'a' && "pop_label"@[6] == 'b' && "pop_label"@[7] == 'e' && "pop_label"@[8] == 'l');
    assert("swap_label"@.len() == 10 && "swap_label"@[0] == 's' && "swap_label"@[1] == 'w' && "swap_label"@[2] == 'a' && "swap_label"@[3] == 'p' && "swap_label"@[4] == '_' && "swap_label"@[5] == 'l' && "swap_label"@[6] == 'a' && "swap_label"@[7] == 'b' && "swap_label"@[8] == 'e' && "swap_label"@[9] == 'l');
    assert("mark_trace"@.len() == 10 && "mark_trace"@[0] == 'm' && "mark_trace"@[1] == 'a' && "mark_trace"@[2] == 'r' && "mark_trace"@[3] == 'k' && "mark_trace"@[4] == '_' && "mark_trace"@[5] == 't' && "mark_trace"@[6] == 'r' && "mark_trace"@[7] == 'a' && "mark_trace"@[8] == 'c' && "mark_trace"@[9] == 'e');
    assert("stage"@.len() == 5 && "stage"@[0] == 's' && "stage"@[1] == 't' && "stage"@[2] == 'a' && "stage"@[3] == 'g' && "stage"@[4] == 'e');
}

proof fn lemma_op_words()
    ensures
        solid("load"@),
        solid("store"@),
        solid("loadm"@),
        solid("storem"@),
        solid("const"@),
        solid("add"@),
        solid("sub"@),
        solid("and"@),
        solid("or"@),
        solid("xor"@),
        solid("eq"@),
        solid("lt"@),
        solid("table"@),
        solid("rread"@),
        solid("rwrite"@),
        solid("counter"@),
        solid("bif"@),
        solid("drop"@),
        solid("punt"@),
        solid("egress"@),
        solid("queue"@),
        solid("recirc"@),
        solid("noop"@),
        solid("push_label"@),
        solid("pop_label"@),
        solid("swap_label"@),
        solid("mark_trace"@),
{
    reveal(solid);
    reveal_strlit("load");
    reveal_strlit("store");
    reveal_strlit("loadm");
    reveal_strlit("storem");
    reveal_strlit("const");
    reveal_strlit("add");
    reveal_strlit("sub");
    reveal_strlit("and");
    reveal_strlit("or");
    reveal_strlit("xor");
    reveal_strlit("eq");
    reveal_strlit("lt");
    reveal_strlit("table");
    reveal_strlit("rread");
    reveal_strlit("rwrite");
    reveal_strlit("counter");
    reveal_strlit("bif");
    reveal_strlit("drop");
    reveal_strlit("punt");
    reveal_strlit("egress");
    reveal_strlit("queue");
    reveal_strlit("recirc");
    reveal_strlit("noop");
    reveal_strlit("push_label");
    reveal_strlit("pop_label");
    reveal_strlit("swap_label");
    reveal_strlit("mark_trace");
}

proof fn lemma_gaps()
    ensures
        gap(" "@),
        gap("  "@),
        gap("   "@),
        gap("    "@),
        gap("     "@),
        gap("      "@),
        gap(", "@),
{
    reveal(gap);
    reveal_strlit(" ");
    reveal_strlit("  ");
    reveal_strlit("   ");
    reveal_strlit("    ");
    reveal_strlit("     ");
    reveal_strlit("      ");
    reveal_strlit(", ");
}

/// A line with a cell, in its two groupings.
proof fn lemma_regroup(
    op: Seq<char>,
    g: Seq<char>,
    tag: Seq<char>,
    n: Seq<char>,
    k: Seq<char>,
    m: Seq<char>,
    v: Seq<char>,
)
    ensures
        "    "@ + op + g + (tag + n + seq!['['] + (seq!['r'] + k) + seq![']']) + m + (seq!['r'] + v)
            == "    "@ + ((op + g + tag) + n + (seq!['['] + seq!['r']) + k + (seq![']'] + m + seq![
            'r']) + v),
{
    assert("    "@ + op + g + (tag + n + seq!['['] + (seq!['r'] + k) + seq![']']) + m + (seq!['r']
        + v) =~= "    "@ + ((op + g + tag) + n + (seq!['['] + seq!['r']) + k + (seq![']'] + m
        + seq!['r']) + v));
}

/// An opcode with one operand.
proof fn lemma_one(op: Seq<char>, g: Seq<char>, a: Seq<char>)
    requires
        solid(op),
        solid(a),
        gap(g),
    ensures
        reads("    "@ + op + g + a, seq![op, a]),
{
    lemma_first(op);
    lemma_next("    "@ + op, seq![op], g, a);
    assert(seq![op].push(a) =~= seq![op, a]);
}

/// An opcode with two operands.
proof fn lemma_two(op: Seq<char>, g: Seq<char>, a: Seq<char>, b: Seq<char>)
    requires
        solid(op),
        solid(a),
        solid(b),
        gap(g),
    ensures
        reads("    "@ + op + g + a + ", "@ + b, seq![op, a, b]),
{
    lemma_gaps();
    lemma_one(op, g, a);
    lemma_next("    "@ + op + g + a, seq![op, a], ", "@, b);
    assert(seq![op, a].push(b) =~= seq![op, a, b]);
}

/// An opcode with three operands.
proof fn lemma_three(op: Seq<char>, g: Seq<char>, a: Seq<char>, b: Seq<char>, c: Seq<char>)
    requires
        solid(op),
        solid(a),
        solid(b),
        solid(c),
        gap(g),
    ensures
        reads("    "@ + op + g + a + ", "@ + b + ", "@ + c, seq![op, a, b, c]),
{
    lemma_gaps();
    lemma_two(op, g, a, b);
    lemma_next("    "@ + op + g + a + ", "@ + b, seq![op, a, b], ", "@, c);
    assert(seq![op, a, b].push(c) =~= seq![op, a, b, c]);
}

proof fn lemma_load(dst: RegW, field: PacketFieldW)
    ensures
        line_spells(InstrW::LoadField { dst, field }),
{
    let i = InstrW::LoadField { dst, field };
    let op = "load"@;
    let w1 = seq!['r'] + decimal(dst.0 as nat);
    let w2 = field_words(field);
    let s = "    "@ + op + "    "@ + w1 + ", "@ + w2;
    let toks = seq![op, w1, w2];
    assert(s == "    "@ + instr_words(i)) by {
        reveal_strlit("    ");
        reveal_strlit("load");
        reveal_strlit(", ");
        reveal_strlit("load    r");
        assert(s =~= "    "@ + instr_words(i));
    }
    assert(means(toks, i)) by {
        reveal(means);
        lemma_ops();
        lemma_reg(dst);
        lemma_field(field);
    }
    lemma_op_words();
    lemma_gaps();
    lemma_tagged('r', dst.0 as nat);
    lemma_field_solid(field);
    lemma_two(op, "    "@, w1, w2);
    lemma_spelled(s, toks);
    lemma_line(i, s, toks);
}

proof fn lemma_store(field: PacketFieldW, src: RegW)
    ensures
        line_spells(InstrW::StoreField { field, src }),
{
    let i = InstrW::StoreField { field, src };
    let op = "store"@;
    let w1 = field_words(field);
    let w2 = seq!['r'] + decimal(src.0 as nat);
    let s = "    "@ + op + "   "@ + w1 + ", "@ + w2;
    let toks = seq![op, w1, w2];
    assert(s == "    "@ + instr_words(i)) by {
        reveal_strlit("    ");
        reveal_strlit("store");
        reveal_strlit("   ");
        reveal_strlit(", ");
        reveal_strlit("store   ");
        reveal_strlit(", r");
        assert(s =~= "    "@ + instr_words(i));
    }
    assert(means(toks, i)) by {
        reveal(means);
        lemma_ops();
        lemma_field(field);
        lemma_reg(src);
    }
    lemma_op_words();
    lemma_gaps();
    lemma_field_solid(field);
    lemma_tagged('r', src.0 as nat);
    lemma_two(op, "   "@, w1, w2);
    lemma_spelled(s, toks);
    lemma_line(i, s, toks);
}

proof fn lemma_loadm(dst: RegW, key: MetaKeyW)
    ensures
        line_spells(InstrW::LoadMeta { dst, key }),
{
    let i = InstrW::LoadMeta { dst, key };
    let op = "loadm"@;
    let w1 = seq!['r'] + decimal(dst.0 as nat);
    let w2 = seq!['m'] + decimal(key.0 as nat);
    let s = "    "@ + op + "   "@ + w1 + ", "@ + w2;
    let toks = seq![op, w1, w2];
    assert(s == "    "@ + instr_words(i)) by {
        reveal_strlit("    ");
        reveal_strlit("loadm");
        reveal_strlit("   ");
        reveal_strlit(", ");
        reveal_strlit("loadm   r");
        reveal_strlit(", m");
        assert(s =~= "    "@ + instr_words(i));
    }
    assert(means(toks, i)) by {
        reveal(means);
        lemma_ops();
        lemma_reg(dst);
        lemma_tagged('m', key.0 as nat);
        lemma_number(key.0 as nat, u32::MAX as nat);
    }
    lemma_op_words();
    lemma_gaps();
    lemma_tagged('r', dst.0 as nat);
    lemma_tagged('m', key.0 as nat);
    lemma_two(op, "   "@, w1, w2);
    lemma_spelled(s, toks);
    lemma_line(i, s, toks);
}

proof fn lemma_storem(key: MetaKeyW, src: RegW)
    ensures
        line_spells(InstrW::StoreMeta { key, src }),
{
    let i = InstrW::StoreMeta { key, src };
    let op = "storem"@;
    let w1 = seq!['m'] + decimal(key.0 as nat);
    let w2 = seq!['r'] + decimal(src.0 as nat);
    let s = "    "@ + op + "  "@ + w1 + ", "@ + w2;
    let toks = seq![op, w1, w2];
    assert(s == "    "@ + instr_words(i)) by {
        reveal_strlit("    ");
        reveal_strlit("storem");
        reveal_strlit("  ");
        reveal_strlit(", ");
        reveal_strlit("storem  m");
        reveal_strlit(", r");
        assert(s =~= "    "@ + instr_words(i));
    }
    assert(means(toks, i)) by {
        reveal(means);
        lemma_ops();
        lemma_tagged('m', key.0 as nat);
        lemma_number(key.0 as nat, u32::MAX as nat);
        lemma_reg(src);
    }
    lemma_op_words();
    lemma_gaps();
    lemma_tagged('m', key.0 as nat);
    lemma_tagged('r', src.0 as nat);
    lemma_two(op, "  "@, w1, w2);
    lemma_spelled(s, toks);
    lemma_line(i, s, toks);
}

proof fn lemma_const(dst: RegW, value: u64)
    ensures
        line_spells(InstrW::Const { dst, value }),
{
    let i = InstrW::Const { dst, value };
    let op = "const"@;
    let w1 = seq!['r'] + decimal(dst.0 as nat);
    let w2 = decimal(value as nat);
    let s = "    "@ + op + "   "@ + w1 + ", "@ + w2;
    let toks = seq![op, w1, w2];
    assert(s == "    "@ + instr_words(i)) by {
        reveal_strlit("    ");
        reveal_strlit("const");
        reveal_strlit("   ");
        reveal_strlit(", ");
        reveal_strlit("const   r");
        assert(s =~= "    "@ + instr_words(i));
    }
    assert(means(toks, i)) by {
        reveal(means);
        lemma_ops();
        lemma_reg(dst);
        lemma_number(value as nat, u64::MAX as nat);
    }
    lemma_op_words();
    lemma_gaps();
    lemma_tagged('r', dst.0 as nat);
    lemma_digits(value as nat);
    lemma_two(op, "   "@, w1, w2);
    lemma_spelled(s, toks);
    lemma_line(i, s, toks);
}

proof fn lemma_add(dst: RegW, a: RegW, b: RegW)
    ensures
        line_spells(InstrW::Add { dst, a, b }),
{
    let i = InstrW::Add { dst, a, b };
    let op = "add"@;
    let w1 = seq!['r'] + decimal(dst.0 as nat);
    let w2 = seq!['r'] + decimal(a.0 as nat);
    let w3 = seq!['r'] + decimal(b.0 as nat);
    let s = "    "@ + op + "     "@ + w1 + ", "@ + w2 + ", "@ + w3;
    let toks = seq![op, w1, w2, w3];
    assert(s == "    "@ + instr_words(i)) by {
        reveal_strlit("    ");
        reveal_strlit("add");
        reveal_strlit("     ");
        reveal_strlit(", ");
        reveal_strlit("add     r");
        reveal_strlit(", r");
        assert(s =~= "    "@ + instr_words(i));
    }
    assert(means(toks, i)) by {
        reveal(means);
        lemma_ops();
        lemma_reg(dst);
        lemma_reg(a);
        lemma_reg(b);
    }
    lemma_op_words();
    lemma_gaps();
    lemma_tagged('r', dst.0 as nat);
    lemma_tagged('r', a.0 as nat);
    lemma_tagged('r', b.0 as nat);
    lemma_three(op, "     "@, w1, w2, w3);
    lemma_spelled(s, toks);
    lemma_line(i, s, toks);
}

proof fn lemma_sub(dst: RegW, a: RegW, b: RegW)
    ensures
        line_spells(InstrW::Sub { dst, a, b }),
{
    let i = InstrW::Sub { dst, a, b };
    let op = "sub"@;
    let w1 = seq!['r'] + decimal(dst.0 as nat);
    let w2 = seq!['r'] + decimal(a.0 as nat);
    let w3 = seq!['r'] + decimal(b.0 as nat);
    let s = "    "@ + op + "     "@ + w1 + ", "@ + w2 + ", "@ + w3;
    let toks = seq![op, w1, w2, w3];
    assert(s == "    "@ + instr_words(i)) by {
        reveal_strlit("    ");
        reveal_strlit("sub");
        reveal_strlit("     ");
        reveal_strlit(", ");
        reveal_strlit("sub     r");
        reveal_strlit(", r");
        assert(s =~= "    "@ + instr_words(i));
    }
    assert(means(toks, i)) by {
        reveal(means);
        lemma_ops();
        lemma_reg(dst);
        lemma_reg(a);
        lemma_reg(b);
    }
    lemma_op_words();
    lemma_gaps();
    lemma_tagged('r', dst.0 as nat);
    lemma_tagged('r', a.0 as nat);
    lemma_tagged('r', b.0 as nat);
    lemma_three(op, "     "@, w1, w2, w3);
    lemma_spelled(s, toks);
    lemma_line(i, s, toks);
}

proof fn lemma_and(dst: RegW, a: RegW, b: RegW)
    ensures
        line_spells(InstrW::And { dst, a, b }),
{
    let i = InstrW::And { dst, a, b };
    let op = "and"@;
    let w1 = seq!['r'] + decimal(dst.0 as nat);
    let w2 = seq!['r'] + decimal(a.0 as nat);
    let w3 = seq!['r'] + decimal(b.0 as nat);
    let s = "    "@ + op + "     "@ + w1 + ", "@ + w2 + ", "@ + w3;
    let toks = seq![op, w1, w2, w3];
    assert(s == "    "@ + instr_words(i)) by {
        reveal_strlit("    ");
        reveal_strlit("and");
        reveal_strlit("     ");
        reveal_strlit(", ");
        reveal_strlit("and     r");
        reveal_strlit(", r");
        assert(s =~= "    "@ + instr_words(i));
    }
    assert(means(toks, i)) by {
        reveal(means);
        lemma_ops();
        lemma_reg(dst);
        lemma_reg(a);
        lemma_reg(b);
    }
    lemma_op_words();
    lemma_gaps();
    lemma_tagged('r', dst.0 as nat);
    lemma_tagged('r', a.0 as nat);
    lemma_tagged('r', b.0 as nat);
    lemma_three(op, "     "@, w1, w2, w3);
    lemma_spelled(s, toks);
    lemma_line(i, s, toks);
}

proof fn lemma_or(dst: RegW, a: RegW, b: RegW)
    ensures
        line_spells(InstrW::Or { dst, a, b }),
{
    let i = InstrW::Or { dst, a, b };
    let op = "or"@;
    let w1 = seq!['r'] + decimal(dst.0 as nat);
    let w2 = seq!['r'] + decimal(a.0 as nat);
    let w3 = seq!['r'] + decimal(b.0 as nat);
    let s = "    "@ + op + "      "@ + w1 + ", "@ + w2 + ", "@ + w3;
    let toks = seq![op, w1, w2, w3];
    assert(s == "    "@ + instr_words(i)) by {
        reveal_strlit("    ");
        reveal_strlit("or");
        reveal_strlit("      ");
        reveal_strlit(", ");
        reveal_strlit("or      r");
        reveal_strlit(", r");
        assert(s =~= "    "@ + instr_words(i));
    }
    assert(means(toks, i)) by {
        reveal(means);
        lemma_ops();
        lemma_reg(dst);
        lemma_reg(a);
        lemma_reg(b);
    }
    lemma_op_words();
    lemma_gaps();
    lemma_tagged('r', dst.0 as nat);
    lemma_tagged('r', a.0 as nat);
    lemma_tagged('r', b.0 as nat);
    lemma_three(op, "      "@, w1, w2, w3);
    lemma_spelled(s, toks);
    lemma_line(i, s, toks);
}

proof fn lemma_xor(dst: RegW, a: RegW, b: RegW)
    ensures
        line_spells(InstrW::Xor { dst, a, b }),
{
    let i = InstrW::Xor { dst, a, b };
    let op = "xor"@;
    let w1 = seq!['r'] + decimal(dst.0 as nat);
    let w2 = seq!['r'] + decimal(a.0 as nat);
    let w3 = seq!['r'] + decimal(b.0 as nat);
    let s = "    "@ + op + "     "@ + w1 + ", "@ + w2 + ", "@ + w3;
    let toks = seq![op, w1, w2, w3];
    assert(s == "    "@ + instr_words(i)) by {
        reveal_strlit("    ");
        reveal_strlit("xor");
        reveal_strlit("     ");
        reveal_strlit(", ");
        reveal_strlit("xor     r");
        reveal_strlit(", r");
        assert(s =~= "    "@ + instr_words(i));
    }
    assert(means(toks, i)) by {
        reveal(means);
        lemma_ops();
        lemma_reg(dst);
        lemma_reg(a);
        lemma_reg(b);
    }
    lemma_op_words();
    lemma_gaps();
    lemma_tagged('r', dst.0 as nat);
    lemma_tagged('r', a.0 as nat);
    lemma_tagged('r', b.0 as nat);
    lemma_three(op, "     "@, w1, w2, w3);
    lemma_spelled(s, toks);
    lemma_line(i, s, toks);
}

proof fn lemma_eq(dst: RegW, a: RegW, b: RegW)
    ensures
        line_spells(InstrW::Eq { dst, a, b }),
{
    let i = InstrW::Eq { dst, a, b };
    let op = "eq"@;
    let w1 = seq!['r'] + decimal(dst.0 as nat);
    let w2 = seq!['r'] + decimal(a.0 as nat);
    let w3 = seq!['r'] + decimal(b.0 as nat);
    let s = "    "@ + op + "      "@ + w1 + ", "@ + w2 + ", "@ + w3;
    let toks = seq![op, w1, w2, w3];
    assert(s == "    "@ + instr_words(i)) by {
        reveal_strlit("    ");
        reveal_strlit("eq");
        reveal_strlit("      ");
        reveal_strlit(", ");
        reveal_strlit("eq      r");
        reveal_strlit(", r");
        assert(s =~= "    "@ + instr_words(i));
    }
    assert(means(toks, i)) by {
        reveal(means);
        lemma_ops();
        lemma_reg(dst);
        lemma_reg(a);
        lemma_reg(b);
    }
    lemma_op_words();
    lemma_gaps();
    lemma_tagged('r', dst.0 as nat);
    lemma_tagged('r', a.0 as nat);
    lemma_tagged('r', b.0 as nat);
    lemma_three(op, "      "@, w1, w2, w3);
    lemma_spelled(s, toks);
    lemma_line(i, s, toks);
}

proof fn lemma_lt(dst: RegW, a: RegW, b: RegW)
    ensures
        line_spells(InstrW::Lt { dst, a, b }),
{
    let i = InstrW::Lt { dst, a, b };
    let op = "lt"@;
    let w1 = seq!['r'] + decimal(dst.0 as nat);
    let w2 = seq!['r'] + decimal(a.0 as nat);
    let w3 = seq!['r'] + decimal(b.0 as nat);
    let s = "    "@ + op + "      "@ + w1 + ", "@ + w2 + ", "@ + w3;
    let toks = seq![op, w1, w2, w3];
    assert(s == "    "@ + instr_words(i)) by {
        reveal_strlit("    ");
        reveal_strlit("lt");
        reveal_strlit("      ");
        reveal_strlit(", ");
        reveal_strlit("lt      r");
        reveal_strlit(", r");
        assert(s =~= "    "@ + instr_words(i));
    }
    assert(means(toks, i)) by {
        reveal(means);
        lemma_ops();
        lemma_reg(dst);
        lemma_reg(a);
        lemma_reg(b);
    }
    lemma_op_words();
    lemma_gaps();
    lemma_tagged('r', dst.0 as nat);
    lemma_tagged('r', a.0 as nat);
    lemma_tagged('r', b.0 as nat);
    lemma_three(op, "      "@, w1, w2, w3);
    lemma_spelled(s, toks);
    lemma_line(i, s, toks);
}

proof fn lemma_table(table_id: TableIdW, key_reg: RegW, result_meta: MetaKeyW)
    ensures
        line_spells(InstrW::TableLookup { table_id, key_reg, result_meta }),
{
    let i = InstrW::TableLookup { table_id, key_reg, result_meta };
    let op = "table"@;
    let w1 = seq!['t'] + decimal(table_id.0 as nat);
    let w2 = seq!['r'] + decimal(key_reg.0 as nat);
    let w3 = seq!['m'] + decimal(result_meta.0 as nat);
    let s = "    "@ + op + "   "@ + w1 + ", "@ + w2 + " -> "@ + w3;
    let toks = seq![op, w1, w2, "->"@, w3];
    assert(s == "    "@ + instr_words(i)) by {
        reveal_strlit("    ");
        reveal_strlit("table");
        reveal_strlit("   ");
        reveal_strlit(", ");
        reveal_strlit(" -> ");
        reveal_strlit("table   t");
        reveal_strlit(", r");
        reveal_strlit(" -> m");
        assert(s =~= "    "@ + instr_words(i));
    }
    assert(means(toks, i)) by {
        reveal(means);
        lemma_ops();
        lemma_tagged('t', table_id.0 as nat);
        lemma_number(table_id.0 as nat, u32::MAX as nat);
        lemma_reg(key_reg);
        lemma_tagged('m', result_meta.0 as nat);
        lemma_number(result_meta.0 as nat, u32::MAX as nat);
    }
    lemma_op_words();
    lemma_gaps();
    lemma_tagged('t', table_id.0 as nat);
    lemma_tagged('r', key_reg.0 as nat);
    lemma_tagged('m', result_meta.0 as nat);
    lemma_two(op, "   "@, w1, w2);
    lemma_spelled_with_arrow("    "@ + op + "   "@ + w1 + ", "@ + w2, seq![op, w1, w2], w3);
    assert(seq![op, w1, w2].push("->"@).push(w3) =~= toks);
    lemma_line(i, s, toks);
}

#[verifier::rlimit(40)]
#[verifier::spinoff_prover]
proof fn lemma_rread(array: RegisterArrayIdW, index: RegW, dst: RegW)
    ensures
        line_spells(InstrW::RegisterRead { array, index, dst }),
{
    let i = InstrW::RegisterRead { array, index, dst };
    let op = "rread"@;
    let w1 = cell('a', array.0, index);
    let w2 = seq!['r'] + decimal(dst.0 as nat);
    let s = "    "@ + op + "   "@ + w1 + " -> "@ + w2;
    let toks = seq![op, w1, "->"@, w2];
    assert(s == "    "@ + instr_words(i)) by {
        reveal(cell);
        reveal_strlit("    ");
        reveal_strlit("rread");
        reveal_strlit("   ");
        reveal_strlit(" -> ");
        reveal_strlit("rread   a");
        reveal_strlit("[r");
        reveal_strlit("] -> r");
        assert("rread   a"@ =~= op + "   "@ + seq!['a']);
        assert("[r"@ =~= seq!['['] + seq!['r']);
        assert("] -> r"@ =~= seq![']'] + " -> "@ + seq!['r']);
        lemma_regroup(op, "   "@, seq!['a'], decimal(array.0 as nat), decimal(index.0 as nat), " -> "@, decimal(dst.0 as nat));
    }
    assert(means(toks, i)) by {
        reveal(means);
        lemma_ops();
        lemma_cell('a', array.0, index);
        lemma_reg(dst);
    }
    lemma_op_words();
    lemma_gaps();
    lemma_cell_solid('a', array.0, index);
    lemma_tagged('r', dst.0 as nat);
    lemma_one(op, "   "@, w1);
    lemma_spelled_with_arrow("    "@ + op + "   "@ + w1, seq![op, w1], w2);
    assert(seq![op, w1].push("->"@).push(w2) =~= toks);
    lemma_line(i, s, toks);
}

#[verifier::rlimit(40)]
#[verifier::spinoff_prover]
proof fn lemma_rwrite(array: RegisterArrayIdW, index: RegW, src: RegW)
    ensures
        line_spells(InstrW::RegisterWrite { array, index, src }),
{
    let i = InstrW::RegisterWrite { array, index, src };
    let op = "rwrite"@;
    let w1 = cell('a', array.0, index);
    let w2 = seq!['r'] + decimal(src.0 as nat);
    let s = "    "@ + op + "  "@ + w1 + ", "@ + w2;
    let toks = seq![op, w1, w2];
    assert(s == "    "@ + instr_words(i)) by {
        reveal(cell);
        reveal_strlit("    ");
        reveal_strlit("rwrite");
        reveal_strlit("  ");
        reveal_strlit(", ");
        reveal_strlit("rwrite  a");
        reveal_strlit("[r");
        reveal_strlit("], r");
        assert("rwrite  a"@ =~= op + "  "@ + seq!['a']);
        assert("[r"@ =~= seq!['['] + seq!['r']);
        assert("], r"@ =~= seq![']'] + ", "@ + seq!['r']);
        lemma_regroup(op, "  "@, seq!['a'], decimal(array.0 as nat), decimal(index.0 as nat), ", "@, decimal(src.0 as nat));
    }
    assert(means(toks, i)) by {
        reveal(means);
        lemma_ops();
        lemma_cell('a', array.0, index);
        lemma_reg(src);
    }
    lemma_op_words();
    lemma_gaps();
    lemma_cell_solid('a', array.0, index);
    lemma_tagged('r', src.0 as nat);
    lemma_two(op, "  "@, w1, w2);
    lemma_spelled(s, toks);
    lemma_line(i, s, toks);
}

#[verifier::rlimit(40)]
#[verifier::spinoff_prover]
proof fn lemma_counter(counter: CounterArrayIdW, index: RegW, value: RegW)
    ensures
        line_spells(InstrW::CounterAdd { counter, index, value }),
{
    let i = InstrW::CounterAdd { counter, index, value };
    let op = "counter"@;
    let w1 = cell('c', counter.0, index);
    let w2 = seq!['r'] + decimal(value.0 as nat);
    let s = "    "@ + op + " "@ + w1 + ", "@ + w2;
    let toks = seq![op, w1, w2];
    assert(s == "    "@ + instr_words(i)) by {
        reveal(cell);
        reveal_strlit("    ");
        reveal_strlit("counter");
        reveal_strlit(" ");
        reveal_strlit(", ");
        reveal_strlit("counter c");
        reveal_strlit("[r");
        reveal_strlit("], r");
        assert("counter c"@ =~= op + " "@ + seq!['c']);
        assert("[r"@ =~= seq!['['] + seq!['r']);
        assert("], r"@ =~= seq![']'] + ", "@ + seq!['r']);
        lemma_regroup(op, " "@, seq!['c'], decimal(counter.0 as nat), decimal(index.0 as nat), ", "@, decimal(value.0 as nat));
    }
    assert(means(toks, i)) by {
        reveal(means);
        lemma_ops();
        lemma_cell('c', counter.0, index);
        lemma_reg(value);
    }
    lemma_op_words();
    lemma_gaps();
    lemma_cell_solid('c', counter.0, index);
    lemma_tagged('r', value.0 as nat);
    lemma_two(op, " "@, w1, w2);
    lemma_spelled(s, toks);
    lemma_line(i, s, toks);
}

proof fn lemma_bif(cond: RegW, target: u32)
    ensures
        line_spells(InstrW::BranchIf { cond, target }),
{
    let i = InstrW::BranchIf { cond, target };
    let op = "bif"@;
    let w1 = seq!['r'] + decimal(cond.0 as nat);
    let w2 = decimal(target as nat);
    let s = "    "@ + op + "     "@ + w1 + " -> "@ + w2;
    let toks = seq![op, w1, "->"@, w2];
    assert(s == "    "@ + instr_words(i)) by {
        reveal_strlit("    ");
        reveal_strlit("bif");
        reveal_strlit("     ");
        reveal_strlit(" -> ");
        reveal_strlit("bif     r");
        assert(s =~= "    "@ + instr_words(i));
    }
    assert(means(toks, i)) by {
        reveal(means);
        lemma_ops();
        lemma_reg(cond);
        lemma_number(target as nat, u32::MAX as nat);
    }
    lemma_op_words();
    lemma_gaps();
    lemma_tagged('r', cond.0 as nat);
    lemma_digits(target as nat);
    lemma_one(op, "     "@, w1);
    lemma_spelled_with_arrow("    "@ + op + "     "@ + w1, seq![op, w1], w2);
    assert(seq![op, w1].push("->"@).push(w2) =~= toks);
    lemma_line(i, s, toks);
}

proof fn lemma_punt(reason: PuntReasonW)
    ensures
        line_spells(InstrW::Punt { reason }),
{
    let i = InstrW::Punt { reason };
    let op = "punt"@;
    let w1 = reason_name(reason);
    let s = "    "@ + op + "    "@ + w1;
    let toks = seq![op, w1];
    assert(s == "    "@ + instr_words(i)) by {
        reveal_strlit("    ");
        reveal_strlit("punt");
        reveal_strlit("punt    ");
        assert(s =~= "    "@ + instr_words(i));
    }
    assert(means(toks, i)) by {
        reveal(means);
        lemma_ops();
        lemma_reason("punt"@, reason);
    }
    lemma_op_words();
    lemma_gaps();
    lemma_reason_solid(reason);
    lemma_one(op, "    "@, w1);
    lemma_spelled(s, toks);
    lemma_line(i, s, toks);
}

proof fn lemma_egress(port: PortIdW)
    ensures
        line_spells(InstrW::SetEgress { port }),
{
    let i = InstrW::SetEgress { port };
    let op = "egress"@;
    let w1 = decimal(port.0 as nat);
    let s = "    "@ + op + "  "@ + w1;
    let toks = seq![op, w1];
    assert(s == "    "@ + instr_words(i)) by {
        reveal_strlit("    ");
        reveal_strlit("egress");
        reveal_strlit("  ");
        reveal_strlit("egress  ");
        assert(s =~= "    "@ + instr_words(i));
    }
    assert(means(toks, i)) by {
        reveal(means);
        lemma_ops();
        lemma_number(port.0 as nat, u32::MAX as nat);
    }
    lemma_op_words();
    lemma_gaps();
    lemma_digits(port.0 as nat);
    lemma_one(op, "  "@, w1);
    lemma_spelled(s, toks);
    lemma_line(i, s, toks);
}

proof fn lemma_queue(queue: QueueIdW)
    ensures
        line_spells(InstrW::SetQueue { queue }),
{
    let i = InstrW::SetQueue { queue };
    let op = "queue"@;
    let w1 = decimal(queue.0 as nat);
    let s = "    "@ + op + "   "@ + w1;
    let toks = seq![op, w1];
    assert(s == "    "@ + instr_words(i)) by {
        reveal_strlit("    ");
        reveal_strlit("queue");
        reveal_strlit("   ");
        reveal_strlit("queue   ");
        assert(s =~= "    "@ + instr_words(i));
    }
    assert(means(toks, i)) by {
        reveal(means);
        lemma_ops();
        lemma_number(queue.0 as nat, u32::MAX as nat);
    }
    lemma_op_words();
    lemma_gaps();
    lemma_digits(queue.0 as nat);
    lemma_one(op, "   "@, w1);
    lemma_spelled(s, toks);
    lemma_line(i, s, toks);
}

proof fn lemma_push_label(label: u32)
    ensures
        line_spells(InstrW::PushLabel { label }),
{
    let i = InstrW::PushLabel { label };
    let op = "push_label"@;
    let w1 = decimal(label as nat);
    let s = "    "@ + op + " "@ + w1;
    let toks = seq![op, w1];
    assert(s == "    "@ + instr_words(i)) by {
        reveal_strlit("    ");
        reveal_strlit("push_label");
        reveal_strlit(" ");
        reveal_strlit("push_label ");
        assert(s =~= "    "@ + instr_words(i));
    }
    assert(means(toks, i)) by {
        reveal(means);
        lemma_ops();
        lemma_number(label as nat, u32::MAX as nat);
    }
    lemma_op_words();
    lemma_gaps();
    lemma_digits(label as nat);
    lemma_one(op, " "@, w1);
    lemma_spelled(s, toks);
    lemma_line(i, s, toks);
}

proof fn lemma_swap_label(label: u32)
    ensures
        line_spells(InstrW::SwapLabel { label }),
{
    let i = InstrW::SwapLabel { label };
    let op = "swap_label"@;
    let w1 = decimal(label as nat);
    let s = "    "@ + op + " "@ + w1;
    let toks = seq![op, w1];
    assert(s == "    "@ + instr_words(i)) by {
        reveal_strlit("    ");
        reveal_strlit("swap_label");
        reveal_strlit(" ");
        reveal_strlit("swap_label ");
        assert(s =~= "    "@ + instr_words(i));
    }
    assert(means(toks, i)) by {
        reveal(means);
        lemma_ops();
        lemma_number(label as nat, u32::MAX as nat);
    }
    lemma_op_words();
    lemma_gaps();
    lemma_digits(label as nat);
    lemma_one(op, " "@, w1);
    lemma_spelled(s, toks);
    lemma_line(i, s, toks);
}

proof fn lemma_drop()
    ensures
        line_spells(InstrW::Drop),
{
    lemma_op_words();
    assert(means(seq!["drop"@], InstrW::Drop)) by {
        reveal(means);
        lemma_ops();
    }
    lemma_first("drop"@);
    lemma_spelled("    "@ + "drop"@, seq!["drop"@]);
    lemma_line(InstrW::Drop, "    "@ + "drop"@, seq!["drop"@]);
}

proof fn lemma_recirc()
    ensures
        line_spells(InstrW::Recirculate),
{
    lemma_op_words();
    assert(means(seq!["recirc"@], InstrW::Recirculate)) by {
        reveal(means);
        lemma_ops();
    }
    lemma_first("recirc"@);
    lemma_spelled("    "@ + "recirc"@, seq!["recirc"@]);
    lemma_line(InstrW::Recirculate, "    "@ + "recirc"@, seq!["recirc"@]);
}

proof fn lemma_noop()
    ensures
        line_spells(InstrW::Noop),
{
    lemma_op_words();
    assert(means(seq!["noop"@], InstrW::Noop)) by {
        reveal(means);
        lemma_ops();
    }
    lemma_first("noop"@);
    lemma_spelled("    "@ + "noop"@, seq!["noop"@]);
    lemma_line(InstrW::Noop, "    "@ + "noop"@, seq!["noop"@]);
}

proof fn lemma_pop_label()
    ensures
        line_spells(InstrW::PopLabel),
{
    lemma_op_words();
    assert(means(seq!["pop_label"@], InstrW::PopLabel)) by {
        reveal(means);
        lemma_ops();
    }
    lemma_first("pop_label"@);
    lemma_spelled("    "@ + "pop_label"@, seq!["pop_label"@]);
    lemma_line(InstrW::PopLabel, "    "@ + "pop_label"@, seq!["pop_label"@]);
}

proof fn lemma_mark_trace()
    ensures
        line_spells(InstrW::MarkTrace),
{
    lemma_op_words();
    assert(means(seq!["mark_trace"@], InstrW::MarkTrace)) by {
        reveal(means);
        lemma_ops();
    }
    lemma_first("mark_trace"@);
    lemma_spelled("    "@ + "mark_trace"@, seq!["mark_trace"@]);
    lemma_line(InstrW::MarkTrace, "    "@ + "mark_trace"@, seq!["mark_trace"@]);
}

proof fn lemma_instr(i: InstrW)
    ensures
        line_spells(i),
{
    match i {
        InstrW::LoadField { dst, field } => lemma_load(dst, field),
        InstrW::StoreField { field, src } => lemma_store(field, src),
        InstrW::LoadMeta { dst, key } => lemma_loadm(dst, key),
        InstrW::StoreMeta { key, src } => lemma_storem(key, src),
        InstrW::Const { dst, value } => lemma_const(dst, value),
        InstrW::Add { dst, a, b } => lemma_add(dst, a, b),
        InstrW::Sub { dst, a, b } => lemma_sub(dst, a, b),
        InstrW::And { dst, a, b } => lemma_and(dst, a, b),
        InstrW::Or { dst, a, b } => lemma_or(dst, a, b),
        InstrW::Xor { dst, a, b } => lemma_xor(dst, a, b),
        InstrW::Eq { dst, a, b } => lemma_eq(dst, a, b),
        InstrW::Lt { dst, a, b } => lemma_lt(dst, a, b),
        InstrW::TableLookup { table_id, key_reg, result_meta } => lemma_table(table_id, key_reg, result_meta),
        InstrW::RegisterRead { array, index, dst } => lemma_rread(array, index, dst),
        InstrW::RegisterWrite { array, index, src } => lemma_rwrite(array, index, src),
        InstrW::CounterAdd { counter, index, value } => lemma_counter(counter, index, value),
        InstrW::BranchIf { cond, target } => lemma_bif(cond, target),
        InstrW::Punt { reason } => lemma_punt(reason),
        InstrW::SetEgress { port } => lemma_egress(port),
        InstrW::SetQueue { queue } => lemma_queue(queue),
        InstrW::PushLabel { label } => lemma_push_label(label),
        InstrW::SwapLabel { label } => lemma_swap_label(label),
        InstrW::Drop => lemma_drop(),
        InstrW::Recirculate => lemma_recirc(),
        InstrW::Noop => lemma_noop(),
        InstrW::PopLabel => lemma_pop_label(),
        InstrW::MarkTrace => lemma_mark_trace(),
    }
}

/// The first line of a stage opens that stage.
proof fn lemma_stage_line(r: Reading, alu: u32, mem: u8)
    ensures
        ({
            let s = "stage alu="@ + decimal(alu as nat) + " mem="@ + decimal(mem as nat);
            &&& r.line(s) == Ok::<Reading, Seq<char>>(
                Reading {
                    done: r.stages(),
                    current: Some(
                        StageProgramV {
                            instrs: Seq::empty(),
                            max_alu_ops: alu,
                            max_memory_accesses: mem,
                        },
                    ),
                },
            )
            &&& forall|k: int| 0 <= k < s.len() ==> #[trigger] s[k] != '\n'
        }),
{
    let s = "stage alu="@ + decimal(alu as nat) + " mem="@ + decimal(mem as nat);
    let toks = seq!["stage"@, "alu="@ + decimal(alu as nat), "mem="@ + decimal(mem as nat)];
    lemma_stage_words(alu, mem);
    lemma_attrs(alu, mem);
    reveal(Reading::line);
    reveal(reads);
    reveal(plain);
    lemma_place_of(s, '#', 0);
    assert(code_of(s) =~= s);
    if blank(s) {
        lemma_blank_has_no_words(s);
    }
}

/// `alu=N` and `mem=N` are words.
proof fn lemma_budget(tag: Seq<char>, n: nat)
    requires
        tag == "alu="@ || tag == "mem="@,
    ensures
        solid(tag + decimal(n)),
        tag.len() == 4,
        begins(tag + decimal(n), tag),
        (tag + decimal(n)).skip(4) == decimal(n),
{
    reveal(solid);
    reveal_strlit("alu=");
    reveal_strlit("mem=");
    let d = decimal(n);
    let s = tag + d;
    lemma_digits(n);
    assert(s.take(4) =~= tag);
    assert(s.skip(4) =~= d);
    assert forall|i: int| 0 <= i < s.len() implies !separates(#[trigger] s[i], true) && s[i] != '#'
        && s[i] != '\n' && s[i] != '-' by {
        if i < 4 {
            assert(s[i] == tag[i]);
        } else {
            assert(s[i] == d[i - 4]);
        }
    }
}

proof fn lemma_attrs(alu: u32, mem: u8)
    ensures
        attrs_in(
            seq!["stage"@, "alu="@ + decimal(alu as nat), "mem="@ + decimal(mem as nat)],
            1,
            32,
            1,
        ) == Ok::<(u32, u8), Seq<char>>((alu, mem)),
{
    reveal_strlit("alu=");
    reveal_strlit("mem=");
    let a = "alu="@ + decimal(alu as nat);
    let m = "mem="@ + decimal(mem as nat);
    let toks = seq!["stage"@, a, m];
    lemma_budget("alu="@, alu as nat);
    lemma_budget("mem="@, mem as nat);
    lemma_number(alu as nat, u32::MAX as nat);
    lemma_number(mem as nat, 255);
    assert(attrs_in(toks, 3, alu, mem) == Ok::<(u32, u8), Seq<char>>((alu, mem)));
    assert("alu="@[0] == 'a' && "mem="@[0] == 'm');
    assert(m.take(4)[0] == 'm');
    assert(!begins(m, "alu="@));
    assert(attrs_in(toks, 2, alu, 1) == attrs_in(toks, 3, alu, mem));
    assert(attrs_in(toks, 1, 32, 1) == attrs_in(toks, 2, alu, 1));
}

proof fn lemma_stage_words(alu: u32, mem: u8)
    ensures
        reads(
            "stage alu="@ + decimal(alu as nat) + " mem="@ + decimal(mem as nat),
            seq!["stage"@, "alu="@ + decimal(alu as nat), "mem="@ + decimal(mem as nat)],
        ),
{
    let op = "stage"@;
    let g = seq![' '];
    let a = "alu="@ + decimal(alu as nat);
    let m = "mem="@ + decimal(mem as nat);
    lemma_budget("alu="@, alu as nat);
    lemma_budget("mem="@, mem as nat);
    assert(reads(op, seq![op])) by {
        reveal(reads);
        reveal(plain);
        reveal_strlit("stage");
        lemma_whole_word(op);
    }
    assert(gap(g)) by {
        reveal(gap);
    }
    lemma_next(op, seq![op], g, a);
    lemma_next(op + g + a, seq![op].push(a), g, m);
    assert(seq![op].push(a).push(m) =~= seq![op, a, m]);
    reveal_strlit("stage");
    reveal_strlit("stage alu=");
    reveal_strlit(" mem=");
    reveal_strlit("alu=");
    reveal_strlit("mem=");
    assert("stage alu="@ + decimal(alu as nat) + " mem="@ + decimal(mem as nat) =~= op + g + a + g
        + m);
}

/// The line of an instruction adds that instruction.
proof fn lemma_instr_line(r: Reading, s: StageProgramV, i: InstrW)
    requires
        r.current == Some(s),
    ensures
        r.line("    "@ + instr_words(i)) == Ok::<Reading, Seq<char>>(
            Reading { current: Some(StageProgramV { instrs: s.instrs.push(i), ..s }), ..r },
        ),
        forall|k: int|
            0 <= k < ("    "@ + instr_words(i)).len() ==> #[trigger] ("    "@ + instr_words(i))[k]
                != '\n',
{
    reveal(Reading::line);
    reveal(line_spells);
    lemma_instr(i);
    let line = "    "@ + instr_words(i);
    lemma_place_of(line, '#', 0);
    assert(code_of(line) =~= line);
}

/// A text is read line by line.
proof fn lemma_one_line(r: Reading, line: Seq<char>, tail: Seq<char>, n: nat)
    requires
        forall|k: int| 0 <= k < line.len() ==> #[trigger] line[k] != '\n',
        r.line(line) is Ok,
    ensures
        r.rest(line + "\n"@ + tail, n) == r.line(line)->Ok_0.rest(tail, n + 1),
{
    reveal_strlit("\n");
    let s = line + "\n"@ + tail;
    let end = line.len() as int;
    assert(s[end] == '\n');
    lemma_place_of(s, '\n', 0);
    let k = place_of(s, '\n', 0);
    if k < end {
        assert(s[k] == line[k]);
    }
    assert(s.subrange(0, k) =~= line);
    assert(s.skip(k + 1) =~= tail);
}

/// The lines of instructions add those instructions.
proof fn lemma_instr_lines(
    r: Reading,
    s: StageProgramV,
    is: Seq<InstrW>,
    n: int,
    tail: Seq<char>,
    at: nat,
)
    requires
        0 <= n <= is.len(),
        r.current == Some(s),
    ensures
        r.rest(instr_lines(is, n) + tail, at) == (Reading {
            current: Some(StageProgramV { instrs: s.instrs + is.take(n), ..s }),
            ..r
        }).rest(tail, (at + n) as nat),
    decreases n,
{
    if n == 0 {
        assert(instr_lines(is, n) + tail =~= tail);
        assert(s.instrs + is.take(n) =~= s.instrs);
    } else {
        let line = "    "@ + instr_words(is[n - 1]);
        let rest = line + "\n"@ + tail;
        assert(instr_lines(is, n) + tail =~= instr_lines(is, n - 1) + rest);
        lemma_instr_lines(r, s, is, n - 1, rest, at);
        let s1 = StageProgramV { instrs: s.instrs + is.take(n - 1), ..s };
        let r1 = Reading { current: Some(s1), ..r };
        lemma_instr_line(r1, s1, is[n - 1]);
        lemma_one_line(r1, line, tail, (at + n - 1) as nat);
        assert(s1.instrs.push(is[n - 1]) =~= s.instrs + is.take(n));
    }
}

/// The lines of a stage add that stage.
proof fn lemma_stage(r: Reading, s: StageProgramV, tail: Seq<char>, at: nat)
    ensures
        r.rest(stage_words(s) + tail, at) == (Reading {
            done: r.stages(),
            current: Some(s),
        }).rest(tail, at + 1 + s.instrs.len()),
{
    let line = "stage alu="@ + decimal(s.max_alu_ops as nat) + " mem="@ + decimal(
        s.max_memory_accesses as nat,
    );
    let n = s.instrs.len() as int;
    let body = instr_lines(s.instrs, n) + tail;
    assert(stage_words(s) + tail =~= line + "\n"@ + body);
    lemma_stage_line(r, s.max_alu_ops, s.max_memory_accesses);
    lemma_one_line(r, line, body, at);
    let s0 = StageProgramV { instrs: Seq::empty(), ..s };
    let r0 = Reading { done: r.stages(), current: Some(s0) };
    lemma_instr_lines(r0, s0, s.instrs, n, tail, at + 1);
    assert(s0.instrs + s.instrs.take(n) =~= s.instrs);
}

/// The reading after the first `n` stages of a program.
spec fn reading_after(p: TinyProgramV, n: int) -> Reading {
    if n <= 0 {
        Reading { done: Seq::empty(), current: None }
    } else {
        Reading { done: p.stages.take(n - 1), current: Some(p.stages[n - 1]) }
    }
}

proof fn lemma_stages(p: TinyProgramV, n: int, tail: Seq<char>)
    requires
        0 <= n <= p.stages.len(),
    ensures
        exists|at: nat| program_in(stage_lines(p, n) + tail) == #[trigger] reading_after(p, n).rest(
            tail,
            at,
        ),
    decreases n,
{
    if n == 0 {
        assert(stage_lines(p, n) + tail =~= tail);
        assert(program_in(stage_lines(p, n) + tail) == reading_after(p, n).rest(tail, 1));
    } else {
        let s = p.stages[n - 1];
        let rest = stage_words(s) + tail;
        assert(stage_lines(p, n) + tail =~= stage_lines(p, n - 1) + rest);
        lemma_stages(p, n - 1, rest);
        let r = reading_after(p, n - 1);
        let at = choose|at: nat| program_in(stage_lines(p, n - 1) + rest) == #[trigger] r.rest(rest, at);
        lemma_stage(r, s, tail, at);
        assert(r.stages() =~= p.stages.take(n - 1));
        assert(program_in(stage_lines(p, n) + tail) == reading_after(p, n).rest(
            tail,
            at + 1 + s.instrs.len(),
        ));
    }
}

/// The listing of a program with at least one stage is a text that the assembler
/// reads as that very program.
pub proof fn listings_read_back(p: TinyProgramV)
    requires
        p.stages.len() > 0,
    ensures
        program_in(stage_lines(p, p.stages.len() as int)) == Ok::<
            Seq<StageProgramV>,
            (nat, Seq<char>),
        >(p.stages),
{
    let n = p.stages.len() as int;
    let e = Seq::<char>::empty();
    lemma_stages(p, n, e);
    assert(stage_lines(p, n) + e =~= stage_lines(p, n));
    assert(reading_after(p, n).stages() =~= p.stages);
}

} // verus!
