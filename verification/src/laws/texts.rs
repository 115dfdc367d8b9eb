//! How numbers, words and programs are spelled.

use crate::chars::{
    begins, decimal, digit, digit_value, digits_value, left_aligned, number, pieces, place_of,
    right_aligned, separates, white, word_len, words,
};
use crate::text::{
    attrs_in, blank, cell_in, code_of, field_in, instr_add_in, instr_and_in, instr_bif_in,
    instr_const_in, instr_counter_in, instr_egress_in, instr_eq_in, instr_load_in, instr_loadm_in,
    instr_lt_in, instr_or_in, instr_punt_in, instr_push_label_in, instr_queue_in, instr_rread_in,
    instr_rwrite_in, instr_store_in, instr_storem_in, instr_sub_in, instr_swap_label_in,
    instr_table_in, instr_xor_in, integer, meta_in, reg_in, table_in, Reading,
};
use crate::wire::{
    CounterArrayIdW, InstrW, MetaKeyW, PacketFieldW, PuntReasonW, RegW, RegisterArrayIdW, TableIdW,
};
use vstd::prelude::*;

verus! {

/// The value of characters, each taken as a decimal digit.
pub open spec fn spelled(s: Seq<char>) -> int
    decreases s.len(),
{
    if s.len() == 0 {
        0
    } else {
        spelled(s.drop_last()) * 10 + (s.last() as int - 48)
    }
}

/// Whether every character is a decimal digit.
pub open spec fn all_digits(s: Seq<char>) -> bool {
    forall|i: int| 0 <= i < s.len() ==> 48 <= (#[trigger] s[i]) as int <= 57
}

/// A number is spelled by its digits, the highest first and no nought before it.
pub proof fn numbers_are_spelled_digit_by_digit(n: nat)
    ensures
        all_digits(decimal(n)),
        spelled(decimal(n)) == n,
        decimal(n).len() > 0,
        n > 0 ==> decimal(n)[0] as int != 48,
        n == 0 ==> decimal(n) == seq!['0'],
    decreases n,
{
    if n < 10 {
        assert(seq![digit(n)].drop_last() =~= Seq::<char>::empty());
        assert(spelled(Seq::<char>::empty()) == 0);
        assert(decimal(n).last() == digit(n));
        assert(digit(n) as int == 48 + n);
    } else {
        numbers_are_spelled_digit_by_digit(n / 10);
        let d = decimal(n / 10);
        assert(decimal(n).drop_last() =~= d);
        assert(decimal(n).last() == digit(n % 10));
        assert(digit(n % 10) as int == 48 + n % 10);
        assert(decimal(n)[0] == d[0]);
        assert forall|i: int| 0 <= i < decimal(n).len() implies 48 <= (
        #[trigger] decimal(n)[i]) as int <= 57 by {
            if i < d.len() {
                assert(decimal(n)[i] == d[i]);
            }
        }
    }
}

proof fn lemma_digits(s: Seq<char>)
    requires
        all_digits(s),
    ensures
        digits_value(s, 10) == Some(spelled(s) as nat),
        spelled(s) >= 0,
    decreases s.len(),
{
    if s.len() > 0 {
        let t = s.drop_last();
        assert forall|i: int| 0 <= i < t.len() implies 48 <= (#[trigger] t[i]) as int <= 57 by {
            assert(t[i] == s[i]);
        }
        lemma_digits(t);
        assert(48 <= s[s.len() - 1] as int <= 57);
        assert(digit_value(s.last(), 10) == Some((s.last() as int - 48) as nat));
    }
}

/// Digits are read as the number that they spell, if it is not too large; without a
/// digit there is no number. A plus sign before the digits changes nothing.
pub proof fn numbers_are_read_digit_by_digit(s: Seq<char>, max: nat)
    requires
        all_digits(s),
        s.len() > 0,
    ensures
        number(s, 10, max) == (if spelled(s) <= max {
            Some(spelled(s) as nat)
        } else {
            None
        }),
        number(seq!['+'] + s, 10, max) == number(s, 10, max),
        number(Seq::empty(), 10, max) is None,
{
    lemma_digits(s);
    assert(48 <= s[0] as int);
    let t = seq!['+'] + s;
    assert(t[0] == '+' && t.len() > 1);
    assert(t.drop_first() =~= s);
}

/// A text with anything but digits after its sign is no number.
pub proof fn other_characters_are_no_digits(s: Seq<char>, i: int, max: nat)
    requires
        0 < i < s.len(),
        !(48 <= s[i] as int <= 57),
    ensures
        number(s, 10, max) is None,
{
    if s[0] == '+' {
        assert(s.drop_first()[i - 1] == s[i]);
        lemma_no_digit(s.drop_first(), i - 1);
    } else {
        lemma_no_digit(s, i);
    }
}

proof fn lemma_not_digit(c: char)
    requires
        !(48 <= c as int <= 57),
    ensures
        digit_value(c, 10) is None,
{
}

proof fn lemma_no_digit(s: Seq<char>, i: int)
    requires
        0 <= i < s.len(),
        !(48 <= s[i] as int <= 57),
    ensures
        digits_value(s, 10) is None,
    decreases s.len(),
{
    if i < s.len() - 1 {
        assert(s.drop_last()[i] == s[i]);
        lemma_no_digit(s.drop_last(), i);
    } else {
        lemma_not_digit(s.last());
    }
}

/// In a radix of sixteen the letters up to F stand for ten to fifteen, large or small.
pub proof fn letters_are_digits_of_sixteen(c: char)
    ensures
        97 <= c as int <= 102 ==> digit_value(c, 16) == Some((c as int - 87) as nat),
        65 <= c as int <= 70 ==> digit_value(c, 16) == Some((c as int - 55) as nat),
        48 <= c as int <= 57 ==> digit_value(c, 16) == Some((c as int - 48) as nat),
        digit_value(c, 2) is Some <==> c as int == 48 || c as int == 49,
        digit_value(c, 16) is Some <==> 48 <= c as int <= 57 || 65 <= c as int <= 70 || 97
            <= c as int <= 102,
{
}

/// Among the first characters, white space is the blank and the controls from tab to
/// carriage return.
pub proof fn blanks_are_white(c: char)
    requires
        c as u32 <= 127,
    ensures
        white(c) <==> c == ' ' || 9 <= c as u32 <= 13,
        separates(c, true) <==> white(c) || c == ',',
        separates(c, false) <==> white(c),
{
}

proof fn lemma_word_len(s: Seq<char>, commas: bool)
    ensures
        word_len(s, commas) <= s.len(),
        forall|i: int| 0 <= i < word_len(s, commas) ==> !separates(#[trigger] s[i], commas),
        word_len(s, commas) < s.len() ==> separates(s[word_len(s, commas) as int], commas),
    decreases s.len(),
{
    if s.len() > 0 && !separates(s[0], commas) {
        let t = s.drop_first();
        lemma_word_len(t, commas);
        assert forall|i: int| 0 <= i < word_len(s, commas) implies !separates(
            #[trigger] s[i],
            commas,
        ) by {
            if i > 0 {
                assert(s[i] == t[i - 1]);
            }
        }
        if word_len(s, commas) < s.len() {
            assert(s[word_len(s, commas) as int] == t[word_len(t, commas) as int]);
        }
    }
}

/// The characters of words, one after the other.
pub open spec fn strung(w: Seq<Seq<char>>) -> Seq<char>
    decreases w.len(),
{
    if w.len() == 0 {
        Seq::empty()
    } else {
        w[0] + strung(w.drop_first())
    }
}

/// Words are what stands between separators: none is empty or holds one, and
/// together they are all the rest of the text.
pub proof fn words_are_what_is_between(s: Seq<char>, commas: bool)
    ensures
        forall|i: int|
            0 <= i < words(s, commas).len() ==> (#[trigger] words(s, commas)[i]).len() > 0,
        forall|i: int, j: int|
            #![trigger words(s, commas)[i][j]]
            0 <= i < words(s, commas).len() && 0 <= j < words(s, commas)[i].len() ==> !separates(
                words(s, commas)[i][j],
                commas,
            ),
        strung(words(s, commas)) == s.filter(|c: char| !separates(c, commas)),
    decreases s.len(),
{
    let f = |c: char| !separates(c, commas);
    let w = words(s, commas);
    if s.len() == 0 {
        reveal(Seq::filter);
        assert(s.filter(f) =~= Seq::<char>::empty());
    } else if separates(s[0], commas) {
        words_are_what_is_between(s.drop_first(), commas);
        assert(s =~= seq![s[0]] + s.drop_first());
        Seq::filter_distributes_over_add(seq![s[0]], s.drop_first(), f);
        lemma_dropped(seq![s[0]], f);
        assert(seq![s[0]].filter(f) + s.drop_first().filter(f) =~= s.drop_first().filter(f));
    } else {
        let n = word_len(s, commas) as int;
        lemma_word_len(s, commas);
        let rest = words(s.skip(n), commas);
        words_are_what_is_between(s.skip(n), commas);
        assert(w =~= seq![s.take(n)] + rest);
        assert(w.drop_first() =~= rest);
        assert(s =~= s.take(n) + s.skip(n));
        Seq::filter_distributes_over_add(s.take(n), s.skip(n), f);
        lemma_kept(s.take(n), f);
        assert forall|i: int| 0 <= i < w.len() implies (#[trigger] w[i]).len() > 0 by {
            if i > 0 {
                assert(w[i] == rest[i - 1]);
            }
        }
        assert forall|i: int, j: int|
            #![trigger w[i][j]]
            0 <= i < w.len() && 0 <= j < w[i].len() implies !separates(w[i][j], commas) by {
            if i > 0 {
                assert(w[i] == rest[i - 1]);
                assert(!separates(rest[i - 1][j], commas));
            } else {
                assert(w[0][j] == s[j]);
            }
        }
    }
}

proof fn lemma_dropped(s: Seq<char>, f: spec_fn(char) -> bool)
    requires
        s.len() == 1,
        !f(s[0]),
    ensures
        s.filter(f) == Seq::<char>::empty(),
{
    reveal(Seq::filter);
    assert(s.drop_last() =~= Seq::<char>::empty());
    assert(s.drop_last().filter(f) =~= Seq::<char>::empty());
}

proof fn lemma_kept(s: Seq<char>, f: spec_fn(char) -> bool)
    requires
        forall|i: int| 0 <= i < s.len() ==> f(#[trigger] s[i]),
    ensures
        s.filter(f) == s,
    decreases s.len(),
{
    reveal(Seq::filter);
    if s.len() > 0 {
        let t = s.drop_last();
        assert forall|i: int| 0 <= i < t.len() implies f(#[trigger] t[i]) by {
            assert(t[i] == s[i]);
        }
        lemma_kept(t, f);
        assert(f(s[s.len() - 1]));
        assert(t.push(s.last()) =~= s);
    } else {
        assert(s.filter(f) =~= s);
    }
}

/// Pieces with a character between each and the next.
pub open spec fn joined(p: Seq<Seq<char>>, c: char) -> Seq<char>
    decreases p.len(),
{
    if p.len() == 0 {
        Seq::empty()
    } else if p.len() == 1 {
        p[0]
    } else {
        p[0] + seq![c] + joined(p.drop_first(), c)
    }
}

proof fn lemma_place(s: Seq<char>, c: char, i: int)
    requires
        0 <= i <= s.len(),
    ensures
        i <= place_of(s, c, i) <= s.len(),
        forall|j: int| i <= j < place_of(s, c, i) ==> #[trigger] s[j] != c,
        place_of(s, c, i) < s.len() ==> s[place_of(s, c, i)] == c,
    decreases s.len() - i,
{
    if i < s.len() && s[i] != c {
        lemma_place(s, c, i + 1);
    }
}

/// A text is its pieces with the character between them, and no piece holds it.
pub proof fn pieces_make_the_text(s: Seq<char>, c: char)
    ensures
        pieces(s, c).len() > 0,
        joined(pieces(s, c), c) == s,
        forall|i: int, j: int|
            #![trigger pieces(s, c)[i][j]]
            0 <= i < pieces(s, c).len() && 0 <= j < pieces(s, c)[i].len() ==> pieces(s, c)[i][j]
                != c,
    decreases s.len(),
{
    lemma_place(s, c, 0);
    let k = place_of(s, c, 0);
    let p = pieces(s, c);
    if k < s.len() {
        let rest = pieces(s.skip(k + 1), c);
        pieces_make_the_text(s.skip(k + 1), c);
        assert(p =~= seq![s.take(k)] + rest);
        assert(p.drop_first() =~= rest);
        assert(s =~= s.take(k) + seq![c] + s.skip(k + 1));
        assert forall|i: int, j: int|
            #![trigger p[i][j]]
            0 <= i < p.len() && 0 <= j < p[i].len() implies p[i][j] != c by {
            if i > 0 {
                assert(p[i] == rest[i - 1]);
                assert(rest[i - 1][j] != c);
            } else {
                assert(p[0][j] == s[j]);
            }
        }
    }
}

/// A text that is aligned is as wide as asked for or as it is, stands at its side, and
/// has blanks on the other.
pub proof fn columns_are_filled_with_blanks(s: Seq<char>, width: nat, i: int)
    requires
        0 <= i,
    ensures
        left_aligned(s, width).len() == (if s.len() > width {
            s.len()
        } else {
            width
        }),
        right_aligned(s, width).len() == left_aligned(s, width).len(),
        i < s.len() ==> left_aligned(s, width)[i] == s[i],
        s.len() <= i < width ==> left_aligned(s, width)[i] == ' ',
        i < width - s.len() ==> right_aligned(s, width)[i] == ' ',
        i < s.len() && s.len() <= width ==> right_aligned(s, width)[width - s.len() + i] == s[i],
        s.len() > width ==> right_aligned(s, width) == s,
{
}

/// How a register is written.
pub open spec fn reg_text(n: u8) -> Seq<char> {
    seq!['r'] + decimal(n as nat)
}

proof fn lemma_number(n: nat, max: nat)
    requires
        n <= max,
    ensures
        number(decimal(n), 10, max) == Some(n),
{
    numbers_are_spelled_digit_by_digit(n);
    numbers_are_read_digit_by_digit(decimal(n), max);
}

proof fn lemma_reg(n: u8)
    ensures
        reg_in(reg_text(n)) == Ok::<RegW, Seq<char>>(RegW(n)),
{
    assert(reg_text(n).skip(1) =~= decimal(n as nat));
    lemma_number(n as nat, 255);
}

/// An operation on registers names its result first, then what it works on, in
/// order.
pub proof fn operations_name_their_result_first(t: Seq<Seq<char>>, d: u8, a: u8, b: u8)
    requires
        t.len() >= 4,
        t[1] == reg_text(d) && t[2] == reg_text(a) && t[3] == reg_text(b),
    ensures
        ({
            let (x, y, z) = (RegW(d), RegW(a), RegW(b));
            &&& instr_add_in(t) == Ok::<InstrW, Seq<char>>(InstrW::Add { dst: x, a: y, b: z })
            &&& instr_sub_in(t) == Ok::<InstrW, Seq<char>>(InstrW::Sub { dst: x, a: y, b: z })
            &&& instr_and_in(t) == Ok::<InstrW, Seq<char>>(InstrW::And { dst: x, a: y, b: z })
            &&& instr_or_in(t) == Ok::<InstrW, Seq<char>>(InstrW::Or { dst: x, a: y, b: z })
            &&& instr_xor_in(t) == Ok::<InstrW, Seq<char>>(InstrW::Xor { dst: x, a: y, b: z })
            &&& instr_eq_in(t) == Ok::<InstrW, Seq<char>>(InstrW::Eq { dst: x, a: y, b: z })
            &&& instr_lt_in(t) == Ok::<InstrW, Seq<char>>(InstrW::Lt { dst: x, a: y, b: z })
        }),
{
    lemma_reg(d);
    lemma_reg(a);
    lemma_reg(b);
}

/// Without all its operands an operation is refused.
pub proof fn operations_need_their_operands(t: Seq<Seq<char>>)
    ensures
        t.len() < 4 ==> instr_add_in(t) is Err && instr_sub_in(t) is Err && instr_and_in(t) is Err
            && instr_or_in(t) is Err && instr_xor_in(t) is Err && instr_eq_in(t) is Err
            && instr_lt_in(t) is Err,
        t.len() < 3 ==> instr_load_in(t) is Err && instr_store_in(t) is Err && instr_loadm_in(t)
            is Err && instr_storem_in(t) is Err && instr_const_in(t) is Err,
{
}

/// A stage that says nothing more has room for thirty-two operations and one memory
/// access, and starts empty; the stage before it is finished.
pub proof fn stages_have_room_unless_they_say(r: Reading, raw: Seq<char>)
    requires
        !blank(code_of(raw)),
        words(code_of(raw), true) == seq!["stage"@],
    ensures
        ({
            let n = r.line(raw)->Ok_0;
            &&& r.line(raw) is Ok
            &&& n.current is Some
            &&& n.current->0.max_alu_ops == 32
            &&& n.current->0.max_memory_accesses == 1
            &&& n.current->0.instrs.len() == 0
            &&& n.done == (match r.current {
                Some(s) => r.done.push(s),
                None => r.done,
            })
        }),
{
    reveal(Reading::line);
    let t = words(code_of(raw), true);
    assert(t.len() == 1 && t[0] == "stage"@);
    assert(attrs_in(t, 1, 32, 1) == Ok::<(u32, u8), Seq<char>>((32, 1)));
}

/// A number in decimal is read as that number wherever a number may stand.
pub proof fn decimals_are_integers(n: nat, max: nat)
    requires
        n <= max,
    ensures
        integer(decimal(n), max) == Some(n),
{
    let s = decimal(n);
    numbers_are_spelled_digit_by_digit(n);
    lemma_number(n, max);
    reveal_strlit("0x");
    reveal_strlit("0b");
    if begins(s, "0x"@) {
        assert(s.take(2)[1] == 'x');
        assert(s[1] == 'x');
    }
    if begins(s, "0b"@) {
        assert(s.take(2)[1] == 'b');
        assert(s[1] == 'b');
    }
}

/// After `0x` digits count by sixteen, and after `0b` by two.
pub proof fn prefixes_set_the_radix(s: Seq<char>, max: nat)
    ensures
        integer("0x"@ + s, max) == number(s, 16, max),
        integer("0b"@ + s, max) == number(s, 2, max),
{
    reveal_strlit("0x");
    reveal_strlit("0b");
    let h = "0x"@ + s;
    let b = "0b"@ + s;
    assert(h.take(2) =~= "0x"@);
    assert(b.take(2) =~= "0b"@);
    assert(h.skip(2) =~= s);
    assert(b.skip(2) =~= s);
    assert(b.take(2)[1] == 'b');
    if begins(b, "0x"@) {
        assert(b.take(2)[1] == 'x');
    }
}

proof fn lemma_named(c: char, n: u32)
    ensures
        (seq![c] + decimal(n as nat)).skip(1) == decimal(n as nat),
        integer(decimal(n as nat), u32::MAX as nat) == Some(n as nat),
{
    assert((seq![c] + decimal(n as nat)).skip(1) =~= decimal(n as nat));
    decimals_are_integers(n as nat, u32::MAX as nat);
}

/// Registers, metadata and tables are named by their letter and their number.
pub proof fn operands_are_named_by_letter_and_number(r: u8, n: u32)
    ensures
        reg_in(seq!['r'] + decimal(r as nat)) == Ok::<RegW, Seq<char>>(RegW(r)),
        meta_in(seq!['m'] + decimal(n as nat)) == Ok::<MetaKeyW, Seq<char>>(MetaKeyW(n)),
        table_in(seq!['t'] + decimal(n as nat)) == Ok::<TableIdW, Seq<char>>(TableIdW(n)),
{
    lemma_reg(r);
    lemma_named('m', n);
    lemma_named('t', n);
}

/// Loads name where to, then what; stores name what, then where from.
pub proof fn loads_and_stores_name_the_target_first(
    t: Seq<Seq<char>>,
    r: u8,
    field: PacketFieldW,
    m: u32,
    v: u64,
)
    requires
        t.len() >= 3,
    ensures
        t[1] == reg_text(r) && field_in(t[2]) == Ok::<PacketFieldW, Seq<char>>(field)
            ==> instr_load_in(t) == Ok::<InstrW, Seq<char>>(
            InstrW::LoadField { dst: RegW(r), field },
        ),
        field_in(t[1]) == Ok::<PacketFieldW, Seq<char>>(field) && t[2] == reg_text(r)
            ==> instr_store_in(t) == Ok::<InstrW, Seq<char>>(
            InstrW::StoreField { field, src: RegW(r) },
        ),
        t[1] == reg_text(r) && t[2] == seq!['m'] + decimal(m as nat) ==> instr_loadm_in(t) == Ok::<
            InstrW,
            Seq<char>,
        >(InstrW::LoadMeta { dst: RegW(r), key: MetaKeyW(m) }),
        t[1] == seq!['m'] + decimal(m as nat) && t[2] == reg_text(r) ==> instr_storem_in(t) == Ok::<
            InstrW,
            Seq<char>,
        >(InstrW::StoreMeta { key: MetaKeyW(m), src: RegW(r) }),
        t[1] == reg_text(r) && t[2] == decimal(v as nat) ==> instr_const_in(t) == Ok::<
            InstrW,
            Seq<char>,
        >(InstrW::Const { dst: RegW(r), value: v }),
{
    lemma_reg(r);
    operands_are_named_by_letter_and_number(r, m);
    decimals_are_integers(v as nat, u64::MAX as nat);
}

/// A lookup names its table, the register with the key, and after an arrow the metadata
/// for the result. A branch names its condition, and after an arrow its target.
pub proof fn arrows_point_at_results(t: Seq<Seq<char>>, r: u8, n: u32, m: u32)
    ensures
        t.len() >= 5 && t[1] == seq!['t'] + decimal(n as nat) && t[2] == reg_text(r) && t[3]
            == "->"@ && t[4] == seq!['m'] + decimal(m as nat) ==> instr_table_in(t) == Ok::<
            InstrW,
            Seq<char>,
        >(
            InstrW::TableLookup {
                table_id: TableIdW(n),
                key_reg: RegW(r),
                result_meta: MetaKeyW(m),
            },
        ),
        t.len() >= 4 && t[1] == reg_text(r) && t[2] == "->"@ && t[3] == decimal(n as nat)
            ==> instr_bif_in(t) == Ok::<InstrW, Seq<char>>(
            InstrW::BranchIf { cond: RegW(r), target: n },
        ),
        t.len() >= 5 && t[3] != "->"@ ==> instr_table_in(t) is Err,
        t.len() >= 4 && t[2] != "->"@ ==> instr_bif_in(t) is Err,
{
    lemma_reg(r);
    operands_are_named_by_letter_and_number(r, n);
    operands_are_named_by_letter_and_number(r, m);
    decimals_are_integers(n as nat, u32::MAX as nat);
}

/// A cell of an array is named by the array and, in brackets, the register with the
/// place. A read has an arrow to its register; a write and a count name what they bring.
pub proof fn cells_are_read_and_written(
    t: Seq<Seq<char>>,
    cell: (u32, RegW),
    r: u8,
)
    ensures
        t.len() >= 4 && cell_in(t[1], 'a') == Ok::<(u32, RegW), Seq<char>>(cell) && t[2] == "->"@
            && t[3] == reg_text(r) ==> instr_rread_in(t) == Ok::<InstrW, Seq<char>>(
            InstrW::RegisterRead {
                array: RegisterArrayIdW(cell.0),
                index: cell.1,
                dst: RegW(r),
            },
        ),
        t.len() >= 3 && cell_in(t[1], 'a') == Ok::<(u32, RegW), Seq<char>>(cell) && t[2]
            == reg_text(r) ==> instr_rwrite_in(t) == Ok::<InstrW, Seq<char>>(
            InstrW::RegisterWrite {
                array: RegisterArrayIdW(cell.0),
                index: cell.1,
                src: RegW(r),
            },
        ),
        t.len() >= 3 && cell_in(t[1], 'c') == Ok::<(u32, RegW), Seq<char>>(cell) && t[2]
            == reg_text(r) ==> instr_counter_in(t) == Ok::<InstrW, Seq<char>>(
            InstrW::CounterAdd {
                counter: CounterArrayIdW(cell.0),
                index: cell.1,
                value: RegW(r),
            },
        ),
{
    lemma_reg(r);
}

/// Ports, queues and labels are given by their numbers; a punt by its reason, or none.
pub proof fn single_operands_are_numbers(t: Seq<Seq<char>>, n: u16, label: u32)
    requires
        t.len() == 2,
    ensures
        t[1] == decimal(n as nat) ==> (instr_egress_in(t) matches Ok(InstrW::SetEgress { port })
            && port.0 == n),
        t[1] == decimal(n as nat) ==> (instr_queue_in(t) matches Ok(InstrW::SetQueue { queue })
            && queue.0 == n),
        t[1] == decimal(label as nat) ==> instr_push_label_in(t) == Ok::<InstrW, Seq<char>>(
            InstrW::PushLabel { label },
        ),
        t[1] == decimal(label as nat) ==> instr_swap_label_in(t) == Ok::<InstrW, Seq<char>>(
            InstrW::SwapLabel { label },
        ),
        instr_punt_in(t.take(1)) == Ok::<InstrW, Seq<char>>(
            InstrW::Punt { reason: PuntReasonW::Custom(0) },
        ),
{
    decimals_are_integers(n as nat, u32::MAX as nat);
    decimals_are_integers(label as nat, u32::MAX as nat);
    assert(n as u32 as u16 == n) by (bit_vector);
}

} // verus!
