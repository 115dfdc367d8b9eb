//! Line-oriented assembler for TinyVM programs.
//!
//! Grammar (one instruction per line, blank lines and `# ...` comments ignored):
//!
//! ```text
//! stage [alu=N] [mem=M]            # begins a new stage; defaults alu=32 mem=1
//!     load    rD, <field>          # field: ip_dst, ip_src, ip_proto, ttl, dscp,
//!                                  #        src_port, dst_port, app_id,
//!                                  #        flow_id, size, custom0..custom3
//!     store   <field>, rS
//!     loadm   rD, mK               # metadata key K
//!     storem  mK, rS
//!     const   rD, <imm>            # imm decimal, 0x.., or 0b..
//!     add     rD, rA, rB           # also sub, and, or, xor, eq, lt
//!     table   tT, rKey -> mResult  # table_id T, key reg, store entry id in metaKey
//!     rread   aA[rIdx] -> rD       # register array A
//!     rwrite  aA[rIdx], rS
//!     counter cC[rIdx], rVal
//!     bif     rCond -> N           # branch to instruction index N (forward only)
//!     drop
//!     punt    [no_route|ttl_expired|<u32>]
//!     egress  <port>
//!     queue   <queue>
//!     recirc
//!     noop
//! ```

use crate::chars::{
    begins, begins_with, chars_of, decimal, find_char, lemma_join, lemma_place_of, number,
    parse_number, part, place_of, push_chars, push_decimal, push_text, separates, spells,
    split_words, texts, white, words,
};
use crate::wire::{
    CounterArrayIdW, InstrW, MetaKeyW, PacketFieldW, PortIdW, PuntReasonW, QueueIdW, RegW,
    RegisterArrayIdW, StageProgramV, StageProgramW, TableIdW, TinyProgramW,
};
use vstd::prelude::*;

verus! {

#[derive(Debug)]
pub struct ParseError {
    pub line: usize,
    pub message: String,
}

impl ParseError {
    /// The error as one line of text.
    pub fn text(&self) -> (r: String)
        ensures
            r@ == "line "@ + decimal(self.line as nat) + ": "@ + self.message@,
    {
        let mut out = String::new();
        push_text(&mut out, "line ");
        push_decimal(&mut out, self.line as u64);
        push_text(&mut out, ": ");
        push_text(&mut out, self.message.as_str());
        assert(out@ =~= "line "@ + decimal(self.line as nat) + ": "@ + self.message@);
        out
    }
}

/// A result with its message as a text.
pub open spec fn said<T>(r: Result<T, String>) -> Result<T, Seq<char>> {
    match r {
        Ok(v) => Ok(v),
        Err(m) => Err(m@),
    }
}

/// A message that quotes a token.
fn quote(before: &str, token: &Vec<char>, after: &str) -> (r: String)
    ensures
        r@ == before@ + token@ + after@,
{
    let mut out = String::new();
    push_text(&mut out, before);
    push_chars(&mut out, token.as_slice());
    push_text(&mut out, after);
    assert(out@ =~= before@ + token@ + after@);
    out
}

fn literal(m: &str) -> (r: String)
    ensures
        r@ == m@,
{
    let mut out = String::new();
    push_text(&mut out, m);
    assert(out@ =~= m@);
    out
}

/// A token without its first `k` characters.
fn rest_of(s: &Vec<char>, k: usize) -> (r: Vec<char>)
    requires
        k <= s@.len(),
    ensures
        r@ == s@.skip(k as int),
{
    let r = part(s.as_slice(), k, s.len());
    assert(r@ =~= s@.skip(k as int));
    r
}

/// An integer: decimal, `0x..` or `0b..`.
pub open spec fn integer(s: Seq<char>, max: nat) -> Option<nat> {
    if begins(s, "0x"@) {
        number(s.skip(2), 16, max)
    } else if begins(s, "0b"@) {
        number(s.skip(2), 2, max)
    } else {
        number(s, 10, max)
    }
}

fn parse_integer(s: &Vec<char>, max: u64) -> (r: Option<u64>)
    ensures
        match r {
            Some(v) => integer(s@, max as nat) == Some(v as nat) && v <= max,
            None => integer(s@, max as nat) is None,
        },
{
    proof {
        reveal_strlit("0x");
        reveal_strlit("0b");
    }
    if begins_with(s.as_slice(), "0x") {
        let d = rest_of(s, 2);
        parse_number(d.as_slice(), 16, max)
    } else if begins_with(s.as_slice(), "0b") {
        let d = rest_of(s, 2);
        parse_number(d.as_slice(), 2, max)
    } else {
        parse_number(s.as_slice(), 10, max)
    }
}

/// A 32-bit integer.
pub fn parse_int_u32(s: &Vec<char>) -> (r: Option<u32>)
    ensures
        match r {
            Some(v) => integer(s@, u32::MAX as nat) == Some(v as nat),
            None => integer(s@, u32::MAX as nat) is None,
        },
{
    match parse_integer(s, u32::MAX as u64) {
        Some(v) => Some(v as u32),
        None => None,
    }
}

/// A 64-bit integer.
pub fn parse_int_u64(s: &Vec<char>) -> (r: Option<u64>)
    ensures
        match r {
            Some(v) => integer(s@, u64::MAX as nat) == Some(v as nat),
            None => integer(s@, u64::MAX as nat) is None,
        },
{
    parse_integer(s, u64::MAX)
}

/// Whether a token starts with a character.
pub open spec fn leads(s: Seq<char>, c: char) -> bool {
    s.len() > 0 && s[0] == c
}

/// `rN`: a register.
pub open spec fn reg_in(s: Seq<char>) -> Result<RegW, Seq<char>> {
    if !leads(s, 'r') {
        Err("expected register, got `"@ + s + "`"@)
    } else {
        match number(s.skip(1), 10, 255) {
            Some(v) => Ok(RegW(v as u8)),
            None => Err("bad register `"@ + s + "`"@),
        }
    }
}

fn parse_reg(s: &Vec<char>) -> (r: Result<RegW, String>)
    ensures
        said(r) == reg_in(s@),
{
    if s.len() == 0 || s[0] != 'r' {
        return Err(quote("expected register, got `", s, "`"));
    }
    let d = rest_of(s, 1);
    match parse_number(d.as_slice(), 10, 255) {
        Some(v) => Ok(RegW(v as u8)),
        None => Err(quote("bad register `", s, "`")),
    }
}

/// `mN`: a metadata key.
pub open spec fn meta_in(s: Seq<char>) -> Result<MetaKeyW, Seq<char>> {
    if !leads(s, 'm') {
        Err("expected meta key (mN), got `"@ + s + "`"@)
    } else {
        match integer(s.skip(1), u32::MAX as nat) {
            Some(v) => Ok(MetaKeyW(v as u32)),
            None => Err("bad meta key `"@ + s + "`"@),
        }
    }
}

fn parse_meta(s: &Vec<char>) -> (r: Result<MetaKeyW, String>)
    ensures
        said(r) == meta_in(s@),
{
    if s.len() == 0 || s[0] != 'm' {
        return Err(quote("expected meta key (mN), got `", s, "`"));
    }
    let d = rest_of(s, 1);
    match parse_int_u32(&d) {
        Some(v) => Ok(MetaKeyW(v)),
        None => Err(quote("bad meta key `", s, "`")),
    }
}

/// `tN`: a table.
pub open spec fn table_in(s: Seq<char>) -> Result<TableIdW, Seq<char>> {
    if !leads(s, 't') {
        Err("expected table id (tN), got `"@ + s + "`"@)
    } else {
        match integer(s.skip(1), u32::MAX as nat) {
            Some(v) => Ok(TableIdW(v as u32)),
            None => Err("bad table id `"@ + s + "`"@),
        }
    }
}

fn parse_table(s: &Vec<char>) -> (r: Result<TableIdW, String>)
    ensures
        said(r) == table_in(s@),
{
    if s.len() == 0 || s[0] != 't' {
        return Err(quote("expected table id (tN), got `", s, "`"));
    }
    let d = rest_of(s, 1);
    match parse_int_u32(&d) {
        Some(v) => Ok(TableIdW(v)),
        None => Err(quote("bad table id `", s, "`")),
    }
}

/// A prefix character and a number: an array.
pub open spec fn array_in(prefix: char, s: Seq<char>) -> Result<u32, Seq<char>> {
    if !leads(s, prefix) {
        Err("expected `"@ + seq![prefix] + "N`, got `"@ + s + "`"@)
    } else {
        match integer(s.skip(1), u32::MAX as nat) {
            Some(v) => Ok(v as u32),
            None => Err("bad id `"@ + s + "`"@),
        }
    }
}

fn parse_array(prefix: char, s: &Vec<char>) -> (r: Result<u32, String>)
    ensures
        said(r) == array_in(prefix, s@),
{
    if s.len() == 0 || s[0] != prefix {
        let mut out = String::new();
        push_text(&mut out, "expected `");
        out.push(prefix);
        push_text(&mut out, "N`, got `");
        push_chars(&mut out, s.as_slice());
        push_text(&mut out, "`");
        assert(out@ =~= "expected `"@ + seq![prefix] + "N`, got `"@ + s@ + "`"@);
        return Err(out);
    }
    let d = rest_of(s, 1);
    match parse_int_u32(&d) {
        Some(v) => Ok(v),
        None => Err(quote("bad id `", s, "`")),
    }
}

/// `aN[rI]`: a cell of an array.
pub open spec fn cell_in(s: Seq<char>, prefix: char) -> Result<(u32, RegW), Seq<char>> {
    let lb = place_of(s, '[', 0);
    let rb = place_of(s, ']', 0);
    if lb >= s.len() {
        Err("expected `[` in `"@ + s + "`"@)
    } else if rb >= s.len() {
        Err("expected `]` in `"@ + s + "`"@)
    } else if rb < lb {
        Err("malformed `"@ + s + "`"@)
    } else {
        match array_in(prefix, s.subrange(0, lb)) {
            Err(m) => Err(m),
            Ok(array) => match reg_in(s.subrange(lb + 1, rb)) {
                Err(m) => Err(m),
                Ok(index) => Ok((array, index)),
            },
        }
    }
}

fn parse_array_index(s: &Vec<char>, prefix: char) -> (r: Result<(u32, RegW), String>)
    ensures
        said(r) == cell_in(s@, prefix),
{
    proof {
        lemma_place_of(s@, '[', 0);
        lemma_place_of(s@, ']', 0);
    }
    let lb: usize = find_char(s.as_slice(), '[');
    let rb: usize = find_char(s.as_slice(), ']');
    if lb >= s.len() {
        return Err(quote("expected `[` in `", s, "`"));
    }
    if rb >= s.len() {
        return Err(quote("expected `]` in `", s, "`"));
    }
    if rb < lb {
        return Err(quote("malformed `", s, "`"));
    }
    let head = part(s.as_slice(), 0, lb);
    let inner = part(s.as_slice(), lb + 1, rb);
    let array: u32 = match parse_array(prefix, &head) {
        Ok(a) => a,
        Err(m) => return Err(m),
    };
    match parse_reg(&inner) {
        Ok(index) => Ok((array, index)),
        Err(m) => Err(m),
    }
}

/// A packet field by name.
pub open spec fn field_in(s: Seq<char>) -> Result<PacketFieldW, Seq<char>> {
    if s == "ip_src"@ {
        Ok(PacketFieldW::IpSrc)
    } else if s == "ip_dst"@ {
        Ok(PacketFieldW::IpDst)
    } else if s == "ip_proto"@ {
        Ok(PacketFieldW::IpProto)
    } else if s == "ttl"@ {
        Ok(PacketFieldW::IpTtl)
    } else if s == "ip_ttl"@ {
        Ok(PacketFieldW::IpTtl)
    } else if s == "dscp"@ {
        Ok(PacketFieldW::IpDscp)
    } else if s == "ip_dscp"@ {
        Ok(PacketFieldW::IpDscp)
    } else if s == "src_port"@ {
        Ok(PacketFieldW::SrcPort)
    } else if s == "dst_port"@ {
        Ok(PacketFieldW::DstPort)
    } else if s == "app_id"@ {
        Ok(PacketFieldW::AppId)
    } else if s == "flow_id"@ {
        Ok(PacketFieldW::FlowId)
    } else if s == "size"@ {
        Ok(PacketFieldW::Size)
    } else if s == "kind"@ {
        Ok(PacketFieldW::Kind)
    } else if s == "label_top"@ {
        Ok(PacketFieldW::LabelTop)
    } else if s == "label_depth"@ {
        Ok(PacketFieldW::LabelDepth)
    } else if begins(s, "custom"@) {
        match number(s.skip(6), 10, 255) {
            Some(v) => Ok(PacketFieldW::Custom(v as u8)),
            None => Err("bad custom field `"@ + s + "`"@),
        }
    } else {
        Err("unknown field `"@ + s + "`"@)
    }
}

fn parse_field(s: &Vec<char>) -> (r: Result<PacketFieldW, String>)
    ensures
        said(r) == field_in(s@),
{
    proof {
        reveal_strlit("custom");
    }
    let t = s.as_slice();
    if spells(t, "ip_src") {
        Ok(PacketFieldW::IpSrc)
    } else if spells(t, "ip_dst") {
        Ok(PacketFieldW::IpDst)
    } else if spells(t, "ip_proto") {
        Ok(PacketFieldW::IpProto)
    } else if spells(t, "ttl") {
        Ok(PacketFieldW::IpTtl)
    } else if spells(t, "ip_ttl") {
        Ok(PacketFieldW::IpTtl)
    } else if spells(t, "dscp") {
        Ok(PacketFieldW::IpDscp)
    } else if spells(t, "ip_dscp") {
        Ok(PacketFieldW::IpDscp)
    } else if spells(t, "src_port") {
        Ok(PacketFieldW::SrcPort)
    } else if spells(t, "dst_port") {
        Ok(PacketFieldW::DstPort)
    } else if spells(t, "app_id") {
        Ok(PacketFieldW::AppId)
    } else if spells(t, "flow_id") {
        Ok(PacketFieldW::FlowId)
    } else if spells(t, "size") {
        Ok(PacketFieldW::Size)
    } else if spells(t, "kind") {
        Ok(PacketFieldW::Kind)
    } else if spells(t, "label_top") {
        Ok(PacketFieldW::LabelTop)
    } else if spells(t, "label_depth") {
        Ok(PacketFieldW::LabelDepth)
    } else if begins_with(t, "custom") {
        let d = rest_of(s, 6);
        match parse_number(d.as_slice(), 10, 255) {
            Some(v) => Ok(PacketFieldW::Custom(v as u8)),
            None => Err(quote("bad custom field `", s, "`")),
        }
    } else {
        Err(quote("unknown field `", s, "`"))
    }
}

/// A punt reason: the first operand, or none.
pub open spec fn reason_in(toks: Seq<Seq<char>>) -> Result<PuntReasonW, Seq<char>> {
    if toks.len() < 2 {
        Ok(PuntReasonW::Custom(0))
    } else if toks[1] == "no_route"@ {
        Ok(PuntReasonW::NoRoute)
    } else if toks[1] == "ttl_expired"@ {
        Ok(PuntReasonW::TtlExpired)
    } else {
        match integer(toks[1], u32::MAX as nat) {
            Some(v) => Ok(PuntReasonW::Custom(v as u32)),
            None => Err("bad punt reason `"@ + toks[1] + "`"@),
        }
    }
}

fn parse_punt_reason(toks: &Vec<Vec<char>>) -> (r: Result<PuntReasonW, String>)
    ensures
        said(r) == reason_in(texts(toks@)),
{
    if toks.len() < 2 {
        return Ok(PuntReasonW::Custom(0));
    }
    assert(texts(toks@)[1] == toks@[1]@);
    if spells(toks[1].as_slice(), "no_route") {
        Ok(PuntReasonW::NoRoute)
    } else if spells(toks[1].as_slice(), "ttl_expired") {
        Ok(PuntReasonW::TtlExpired)
    } else {
        match parse_int_u32(&toks[1]) {
            Some(v) => Ok(PuntReasonW::Custom(v)),
            None => Err(quote("bad punt reason `", &toks[1], "`")),
        }
    }
}

/// The complaint that an instruction lacks operands.
pub open spec fn lacks(op: Seq<char>, n: nat) -> Seq<char> {
    "`"@ + op + "` needs "@ + decimal(n) + " args"@
}

fn lacks_operands(op: &Vec<char>, n: u64) -> (r: String)
    ensures
        r@ == lacks(op@, n as nat),
{
    let mut out = String::new();
    push_text(&mut out, "`");
    push_chars(&mut out, op.as_slice());
    push_text(&mut out, "` needs ");
    push_decimal(&mut out, n);
    push_text(&mut out, " args");
    assert(out@ =~= lacks(op@, n as nat));
    out
}

/// An operand that is an integer, or a complaint about it.
pub open spec fn operand(s: Seq<char>, max: nat, complaint: Seq<char>) -> Result<nat, Seq<char>> {
    match integer(s, max) {
        Some(v) => Ok(v),
        None => Err(complaint + s + "`"@),
    }
}

fn parse_operand(s: &Vec<char>, max: u64, complaint: &str) -> (r: Result<u64, String>)
    ensures
        match r {
            Ok(v) => operand(s@, max as nat, complaint@) == Ok::<nat, Seq<char>>(v as nat) && v
                <= max,
            Err(m) => operand(s@, max as nat, complaint@) == Err::<nat, Seq<char>>(m@),
        },
{
    match parse_integer(s, max) {
        Some(v) => Ok(v),
        None => Err(quote(complaint, s, "`")),
    }
}

/// The operands of `load`.
pub open spec fn instr_load_in(toks: Seq<Seq<char>>) -> Result<InstrW, Seq<char>> {
    if toks.len() < 3 {
        Err(lacks(toks[0], 2))
    } else {
        match reg_in(toks[1]) {
            Err(m) => Err(m),
            Ok(dst) => match field_in(toks[2]) {
                Err(m) => Err(m),
                Ok(field) => Ok(InstrW::LoadField { dst, field }),
            },
        }
    }
}

fn parse_op_load(toks: &Vec<Vec<char>>) -> (r: Result<InstrW, String>)
    requires
        toks@.len() > 0,
    ensures
        said(r) == instr_load_in(texts(toks@)),
{
    if toks.len() < 3 {
        return Err(lacks_operands(&toks[0], 2));
    }
    let dst = match parse_reg(&toks[1]) {
        Ok(x) => x,
        Err(m) => return Err(m),
    };
    let field = match parse_field(&toks[2]) {
        Ok(x) => x,
        Err(m) => return Err(m),
    };
    Ok(InstrW::LoadField { dst, field })
}

/// The operands of `store`.
pub open spec fn instr_store_in(toks: Seq<Seq<char>>) -> Result<InstrW, Seq<char>> {
    if toks.len() < 3 {
        Err(lacks(toks[0], 2))
    } else {
        match field_in(toks[1]) {
            Err(m) => Err(m),
            Ok(field) => match reg_in(toks[2]) {
                Err(m) => Err(m),
                Ok(src) => Ok(InstrW::StoreField { field, src }),
            },
        }
    }
}

fn parse_op_store(toks: &Vec<Vec<char>>) -> (r: Result<InstrW, String>)
    requires
        toks@.len() > 0,
    ensures
        said(r) == instr_store_in(texts(toks@)),
{
    if toks.len() < 3 {
        return Err(lacks_operands(&toks[0], 2));
    }
    let field = match parse_field(&toks[1]) {
        Ok(x) => x,
        Err(m) => return Err(m),
    };
    let src = match parse_reg(&toks[2]) {
        Ok(x) => x,
        Err(m) => return Err(m),
    };
    Ok(InstrW::StoreField { field, src })
}

/// The operands of `loadm`.
pub open spec fn instr_loadm_in(toks: Seq<Seq<char>>) -> Result<InstrW, Seq<char>> {
    if toks.len() < 3 {
        Err(lacks(toks[0], 2))
    } else {
        match reg_in(toks[1]) {
            Err(m) => Err(m),
            Ok(dst) => match meta_in(toks[2]) {
                Err(m) => Err(m),
                Ok(key) => Ok(InstrW::LoadMeta { dst, key }),
            },
        }
    }
}

fn parse_op_loadm(toks: &Vec<Vec<char>>) -> (r: Result<InstrW, String>)
    requires
        toks@.len() > 0,
    ensures
        said(r) == instr_loadm_in(texts(toks@)),
{
    if toks.len() < 3 {
        return Err(lacks_operands(&toks[0], 2));
    }
    let dst = match parse_reg(&toks[1]) {
        Ok(x) => x,
        Err(m) => return Err(m),
    };
    let key = match parse_meta(&toks[2]) {
        Ok(x) => x,
        Err(m) => return Err(m),
    };
    Ok(InstrW::LoadMeta { dst, key })
}

/// The operands of `storem`.
pub open spec fn instr_storem_in(toks: Seq<Seq<char>>) -> Result<InstrW, Seq<char>> {
    if toks.len() < 3 {
        Err(lacks(toks[0], 2))
    } else {
        match meta_in(toks[1]) {
            Err(m) => Err(m),
            Ok(key) => match reg_in(toks[2]) {
                Err(m) => Err(m),
                Ok(src) => Ok(InstrW::StoreMeta { key, src }),
            },
        }
    }
}

fn parse_op_storem(toks: &Vec<Vec<char>>) -> (r: Result<InstrW, String>)
    requires
        toks@.len() > 0,
    ensures
        said(r) == instr_storem_in(texts(toks@)),
{
    if toks.len() < 3 {
        return Err(lacks_operands(&toks[0], 2));
    }
    let key = match parse_meta(&toks[1]) {
        Ok(x) => x,
        Err(m) => return Err(m),
    };
    let src = match parse_reg(&toks[2]) {
        Ok(x) => x,
        Err(m) => return Err(m),
    };
    Ok(InstrW::StoreMeta { key, src })
}

/// The operands of `const`.
pub open spec fn instr_const_in(toks: Seq<Seq<char>>) -> Result<InstrW, Seq<char>> {
    if toks.len() < 3 {
        Err(lacks(toks[0], 2))
    } else {
        match reg_in(toks[1]) {
            Err(m) => Err(m),
            Ok(dst) => match operand(toks[2], u64::MAX as nat, "bad const `"@) {
                Err(m) => Err(m),
                Ok(value) => Ok(InstrW::Const { dst, value: value as u64 }),
            },
        }
    }
}

fn parse_op_const(toks: &Vec<Vec<char>>) -> (r: Result<InstrW, String>)
    requires
        toks@.len() > 0,
    ensures
        said(r) == instr_const_in(texts(toks@)),
{
    if toks.len() < 3 {
        return Err(lacks_operands(&toks[0], 2));
    }
    let dst = match parse_reg(&toks[1]) {
        Ok(x) => x,
        Err(m) => return Err(m),
    };
    let value: u64 = match parse_operand(&toks[2], u64::MAX, "bad const `") {
        Ok(x) => x,
        Err(m) => return Err(m),
    };
    Ok(InstrW::Const { dst, value: value as u64 })
}

/// The operands of `add`.
pub open spec fn instr_add_in(toks: Seq<Seq<char>>) -> Result<InstrW, Seq<char>> {
    if toks.len() < 4 {
        Err(lacks(toks[0], 3))
    } else {
        match reg_in(toks[1]) {
            Err(m) => Err(m),
            Ok(dst) => match reg_in(toks[2]) {
                Err(m) => Err(m),
                Ok(a) => match reg_in(toks[3]) {
                    Err(m) => Err(m),
                    Ok(b) => Ok(InstrW::Add { dst, a, b }),
                },
            },
        }
    }
}

fn parse_op_add(toks: &Vec<Vec<char>>) -> (r: Result<InstrW, String>)
    requires
        toks@.len() > 0,
    ensures
        said(r) == instr_add_in(texts(toks@)),
{
    if toks.len() < 4 {
        return Err(lacks_operands(&toks[0], 3));
    }
    let dst = match parse_reg(&toks[1]) {
        Ok(x) => x,
        Err(m) => return Err(m),
    };
    let a = match parse_reg(&toks[2]) {
        Ok(x) => x,
        Err(m) => return Err(m),
    };
    let b = match parse_reg(&toks[3]) {
        Ok(x) => x,
        Err(m) => return Err(m),
    };
    Ok(InstrW::Add { dst, a, b })
}

/// The operands of `sub`.
pub open spec fn instr_sub_in(toks: Seq<Seq<char>>) -> Result<InstrW, Seq<char>> {
    if toks.len() < 4 {
        Err(lacks(toks[0], 3))
    } else {
        match reg_in(toks[1]) {
            Err(m) => Err(m),
            Ok(dst) => match reg_in(toks[2]) {
                Err(m) => Err(m),
                Ok(a) => match reg_in(toks[3]) {
                    Err(m) => Err(m),
                    Ok(b) => Ok(InstrW::Sub { dst, a, b }),
                },
            },
        }
    }
}

fn parse_op_sub(toks: &Vec<Vec<char>>) -> (r: Result<InstrW, String>)
    requires
        toks@.len() > 0,
    ensures
        said(r) == instr_sub_in(texts(toks@)),
{
    if toks.len() < 4 {
        return Err(lacks_operands(&toks[0], 3));
    }
    let dst = match parse_reg(&toks[1]) {
        Ok(x) => x,
        Err(m) => return Err(m),
    };
    let a = match parse_reg(&toks[2]) {
        Ok(x) => x,
        Err(m) => return Err(m),
    };
    let b = match parse_reg(&toks[3]) {
        Ok(x) => x,
        Err(m) => return Err(m),
    };
    Ok(InstrW::Sub { dst, a, b })
}

/// The operands of `and`.
pub open spec fn instr_and_in(toks: Seq<Seq<char>>) -> Result<InstrW, Seq<char>> {
    if toks.len() < 4 {
        Err(lacks(toks[0], 3))
    } else {
        match reg_in(toks[1]) {
            Err(m) => Err(m),
            Ok(dst) => match reg_in(toks[2]) {
                Err(m) => Err(m),
                Ok(a) => match reg_in(toks[3]) {
                    Err(m) => Err(m),
                    Ok(b) => Ok(InstrW::And { dst, a, b }),
                },
            },
        }
    }
}

fn parse_op_and(toks: &Vec<Vec<char>>) -> (r: Result<InstrW, String>)
    requires
        toks@.len() > 0,
    ensures
        said(r) == instr_and_in(texts(toks@)),
{
    if toks.len() < 4 {
        return Err(lacks_operands(&toks[0], 3));
    }
    let dst = match parse_reg(&toks[1]) {
        Ok(x) => x,
        Err(m) => return Err(m),
    };
    let a = match parse_reg(&toks[2]) {
        Ok(x) => x,
        Err(m) => return Err(m),
    };
    let b = match parse_reg(&toks[3]) {
        Ok(x) => x,
        Err(m) => return Err(m),
    };
    Ok(InstrW::And { dst, a, b })
}

/// The operands of `or`.
pub open spec fn instr_or_in(toks: Seq<Seq<char>>) -> Result<InstrW, Seq<char>> {
    if toks.len() < 4 {
        Err(lacks(toks[0], 3))
    } else {
        match reg_in(toks[1]) {
            Err(m) => Err(m),
            Ok(dst) => match reg_in(toks[2]) {
                Err(m) => Err(m),
                Ok(a) => match reg_in(toks[3]) {
                    Err(m) => Err(m),
                    Ok(b) => Ok(InstrW::Or { dst, a, b }),
                },
            },
        }
    }
}

fn parse_op_or(toks: &Vec<Vec<char>>) -> (r: Result<InstrW, String>)
    requires
        toks@.len() > 0,
    ensures
        said(r) == instr_or_in(texts(toks@)),
{
    if toks.len() < 4 {
        return Err(lacks_operands(&toks[0], 3));
    }
    let dst = match parse_reg(&toks[1]) {
        Ok(x) => x,
        Err(m) => return Err(m),
    };
    let a = match parse_reg(&toks[2]) {
        Ok(x) => x,
        Err(m) => return Err(m),
    };
    let b = match parse_reg(&toks[3]) {
        Ok(x) => x,
        Err(m) => return Err(m),
    };
    Ok(InstrW::Or { dst, a, b })
}

/// The operands of `xor`.
pub open spec fn instr_xor_in(toks: Seq<Seq<char>>) -> Result<InstrW, Seq<char>> {
    if toks.len() < 4 {
        Err(lacks(toks[0], 3))
    } else {
        match reg_in(toks[1]) {
            Err(m) => Err(m),
            Ok(dst) => match reg_in(toks[2]) {
                Err(m) => Err(m),
                Ok(a) => match reg_in(toks[3]) {
                    Err(m) => Err(m),
                    Ok(b) => Ok(InstrW::Xor { dst, a, b }),
                },
            },
        }
    }
}

fn parse_op_xor(toks: &Vec<Vec<char>>) -> (r: Result<InstrW, String>)
    requires
        toks@.len() > 0,
    ensures
        said(r) == instr_xor_in(texts(toks@)),
{
    if toks.len() < 4 {
        return Err(lacks_operands(&toks[0], 3));
    }
    let dst = match parse_reg(&toks[1]) {
        Ok(x) => x,
        Err(m) => return Err(m),
    };
    let a = match parse_reg(&toks[2]) {
        Ok(x) => x,
        Err(m) => return Err(m),
    };
    let b = match parse_reg(&toks[3]) {
        Ok(x) => x,
        Err(m) => return Err(m),
    };
    Ok(InstrW::Xor { dst, a, b })
}

/// The operands of `eq`.
pub open spec fn instr_eq_in(toks: Seq<Seq<char>>) -> Result<InstrW, Seq<char>> {
    if toks.len() < 4 {
        Err(lacks(toks[0], 3))
    } else {
        match reg_in(toks[1]) {
            Err(m) => Err(m),
            Ok(dst) => match reg_in(toks[2]) {
                Err(m) => Err(m),
                Ok(a) => match reg_in(toks[3]) {
                    Err(m) => Err(m),
                    Ok(b) => Ok(InstrW::Eq { dst, a, b }),
                },
            },
        }
    }
}

fn parse_op_eq(toks: &Vec<Vec<char>>) -> (r: Result<InstrW, String>)
    requires
        toks@.len() > 0,
    ensures
        said(r) == instr_eq_in(texts(toks@)),
{
    if toks.len() < 4 {
        return Err(lacks_operands(&toks[0], 3));
    }
    let dst = match parse_reg(&toks[1]) {
        Ok(x) => x,
        Err(m) => return Err(m),
    };
    let a = match parse_reg(&toks[2]) {
        Ok(x) => x,
        Err(m) => return Err(m),
    };
    let b = match parse_reg(&toks[3]) {
        Ok(x) => x,
        Err(m) => return Err(m),
    };
    Ok(InstrW::Eq { dst, a, b })
}

/// The operands of `lt`.
pub open spec fn instr_lt_in(toks: Seq<Seq<char>>) -> Result<InstrW, Seq<char>> {
    if toks.len() < 4 {
        Err(lacks(toks[0], 3))
    } else {
        match reg_in(toks[1]) {
            Err(m) => Err(m),
            Ok(dst) => match reg_in(toks[2]) {
                Err(m) => Err(m),
                Ok(a) => match reg_in(toks[3]) {
                    Err(m) => Err(m),
                    Ok(b) => Ok(InstrW::Lt { dst, a, b }),
                },
            },
        }
    }
}

fn parse_op_lt(toks: &Vec<Vec<char>>) -> (r: Result<InstrW, String>)
    requires
        toks@.len() > 0,
    ensures
        said(r) == instr_lt_in(texts(toks@)),
{
    if toks.len() < 4 {
        return Err(lacks_operands(&toks[0], 3));
    }
    let dst = match parse_reg(&toks[1]) {
        Ok(x) => x,
        Err(m) => return Err(m),
    };
    let a = match parse_reg(&toks[2]) {
        Ok(x) => x,
        Err(m) => return Err(m),
    };
    let b = match parse_reg(&toks[3]) {
        Ok(x) => x,
        Err(m) => return Err(m),
    };
    Ok(InstrW::Lt { dst, a, b })
}

/// The operands of `table`.
pub open spec fn instr_table_in(toks: Seq<Seq<char>>) -> Result<InstrW, Seq<char>> {
    if toks.len() < 5 {
        Err(lacks(toks[0], 4))
    } else {
        if toks[3] != "->"@ {
            Err("expected `->` in table instr"@)
        } else {
            match table_in(toks[1]) {
                Err(m) => Err(m),
                Ok(table_id) => match reg_in(toks[2]) {
                    Err(m) => Err(m),
                    Ok(key_reg) => match meta_in(toks[4]) {
                        Err(m) => Err(m),
                        Ok(result_meta) => Ok(InstrW::TableLookup { table_id, key_reg, result_meta }),
                    },
                },
            }
        }
    }
}

fn parse_op_table(toks: &Vec<Vec<char>>) -> (r: Result<InstrW, String>)
    requires
        toks@.len() > 0,
    ensures
        said(r) == instr_table_in(texts(toks@)),
{
    if toks.len() < 5 {
        return Err(lacks_operands(&toks[0], 4));
    }
    if !spells(toks[3].as_slice(), "->") {
        return Err(literal("expected `->` in table instr"));
    }
    let table_id = match parse_table(&toks[1]) {
        Ok(x) => x,
        Err(m) => return Err(m),
    };
    let key_reg = match parse_reg(&toks[2]) {
        Ok(x) => x,
        Err(m) => return Err(m),
    };
    let result_meta = match parse_meta(&toks[4]) {
        Ok(x) => x,
        Err(m) => return Err(m),
    };
    Ok(InstrW::TableLookup { table_id, key_reg, result_meta })
}

/// The operands of `rread`.
pub open spec fn instr_rread_in(toks: Seq<Seq<char>>) -> Result<InstrW, Seq<char>> {
    if toks.len() < 4 {
        Err(lacks(toks[0], 3))
    } else {
        match cell_in(toks[1], 'a') {
            Err(m) => Err(m),
            Ok(at) => {
            if toks[2] != "->"@ {
                Err("expected `->` in rread"@)
            } else {
                match reg_in(toks[3]) {
                    Err(m) => Err(m),
                    Ok(dst) => Ok(InstrW::RegisterRead { array: RegisterArrayIdW(at.0), index: at.1, dst }),
                }
            }
            },
        }
    }
}

fn parse_op_rread(toks: &Vec<Vec<char>>) -> (r: Result<InstrW, String>)
    requires
        toks@.len() > 0,
    ensures
        said(r) == instr_rread_in(texts(toks@)),
{
    if toks.len() < 4 {
        return Err(lacks_operands(&toks[0], 3));
    }
    let at = match parse_array_index(&toks[1], 'a') {
        Ok(x) => x,
        Err(m) => return Err(m),
    };
    if !spells(toks[2].as_slice(), "->") {
        return Err(literal("expected `->` in rread"));
    }
    let dst = match parse_reg(&toks[3]) {
        Ok(x) => x,
        Err(m) => return Err(m),
    };
    Ok(InstrW::RegisterRead { array: RegisterArrayIdW(at.0), index: at.1, dst })
}

/// The operands of `rwrite`.
pub open spec fn instr_rwrite_in(toks: Seq<Seq<char>>) -> Result<InstrW, Seq<char>> {
    if toks.len() < 3 {
        Err(lacks(toks[0], 2))
    } else {
        match cell_in(toks[1], 'a') {
            Err(m) => Err(m),
            Ok(at) => match reg_in(toks[2]) {
                Err(m) => Err(m),
                Ok(src) => Ok(InstrW::RegisterWrite { array: RegisterArrayIdW(at.0), index: at.1, src }),
            },
        }
    }
}

fn parse_op_rwrite(toks: &Vec<Vec<char>>) -> (r: Result<InstrW, String>)
    requires
        toks@.len() > 0,
    ensures
        said(r) == instr_rwrite_in(texts(toks@)),
{
    if toks.len() < 3 {
        return Err(lacks_operands(&toks[0], 2));
    }
    let at = match parse_array_index(&toks[1], 'a') {
        Ok(x) => x,
        Err(m) => return Err(m),
    };
    let src = match parse_reg(&toks[2]) {
        Ok(x) => x,
        Err(m) => return Err(m),
    };
    Ok(InstrW::RegisterWrite { array: RegisterArrayIdW(at.0), index: at.1, src })
}

/// The operands of `counter`.
pub open spec fn instr_counter_in(toks: Seq<Seq<char>>) -> Result<InstrW, Seq<char>> {
    if toks.len() < 3 {
        Err(lacks(toks[0], 2))
    } else {
        match cell_in(toks[1], 'c') {
            Err(m) => Err(m),
            Ok(at) => match reg_in(toks[2]) {
                Err(m) => Err(m),
                Ok(value) => Ok(InstrW::CounterAdd { counter: CounterArrayIdW(at.0), index: at.1, value }),
            },
        }
    }
}

fn parse_op_counter(toks: &Vec<Vec<char>>) -> (r: Result<InstrW, String>)
    requires
        toks@.len() > 0,
    ensures
        said(r) == instr_counter_in(texts(toks@)),
{
    if toks.len() < 3 {
        return Err(lacks_operands(&toks[0], 2));
    }
    let at = match parse_array_index(&toks[1], 'c') {
        Ok(x) => x,
        Err(m) => return Err(m),
    };
    let value = match parse_reg(&toks[2]) {
        Ok(x) => x,
        Err(m) => return Err(m),
    };
    Ok(InstrW::CounterAdd { counter: CounterArrayIdW(at.0), index: at.1, value })
}

/// The operands of `bif`.
pub open spec fn instr_bif_in(toks: Seq<Seq<char>>) -> Result<InstrW, Seq<char>> {
    if toks.len() < 4 {
        Err(lacks(toks[0], 3))
    } else {
        if toks[2] != "->"@ {
            Err("expected `->` in bif"@)
        } else {
            match reg_in(toks[1]) {
                Err(m) => Err(m),
                Ok(cond) => match operand(toks[3], u32::MAX as nat, "bad target `"@) {
                    Err(m) => Err(m),
                    Ok(target) => Ok(InstrW::BranchIf { cond, target: target as u32 }),
                },
            }
        }
    }
}

fn parse_op_bif(toks: &Vec<Vec<char>>) -> (r: Result<InstrW, String>)
    requires
        toks@.len() > 0,
    ensures
        said(r) == instr_bif_in(texts(toks@)),
{
    if toks.len() < 4 {
        return Err(lacks_operands(&toks[0], 3));
    }
    if !spells(toks[2].as_slice(), "->") {
        return Err(literal("expected `->` in bif"));
    }
    let cond = match parse_reg(&toks[1]) {
        Ok(x) => x,
        Err(m) => return Err(m),
    };
    let target: u64 = match parse_operand(&toks[3], u32::MAX as u64, "bad target `") {
        Ok(x) => x,
        Err(m) => return Err(m),
    };
    Ok(InstrW::BranchIf { cond, target: target as u32 })
}

/// The operands of `punt`.
pub open spec fn instr_punt_in(toks: Seq<Seq<char>>) -> Result<InstrW, Seq<char>> {
    match reason_in(toks) {
        Err(m) => Err(m),
        Ok(reason) => Ok(InstrW::Punt { reason }),
    }
}

fn parse_op_punt(toks: &Vec<Vec<char>>) -> (r: Result<InstrW, String>)
    requires
        toks@.len() > 0,
    ensures
        said(r) == instr_punt_in(texts(toks@)),
{
    let reason = match parse_punt_reason(toks) {
        Ok(x) => x,
        Err(m) => return Err(m),
    };
    Ok(InstrW::Punt { reason })
}

/// The operands of `egress`.
pub open spec fn instr_egress_in(toks: Seq<Seq<char>>) -> Result<InstrW, Seq<char>> {
    if toks.len() < 2 {
        Err(lacks(toks[0], 1))
    } else {
        match operand(toks[1], u32::MAX as nat, "bad port `"@) {
            Err(m) => Err(m),
            Ok(p) => Ok(InstrW::SetEgress { port: PortIdW((p as u32) as u16) }),
        }
    }
}

fn parse_op_egress(toks: &Vec<Vec<char>>) -> (r: Result<InstrW, String>)
    requires
        toks@.len() > 0,
    ensures
        said(r) == instr_egress_in(texts(toks@)),
{
    if toks.len() < 2 {
        return Err(lacks_operands(&toks[0], 1));
    }
    let p: u64 = match parse_operand(&toks[1], u32::MAX as u64, "bad port `") {
        Ok(x) => x,
        Err(m) => return Err(m),
    };
    Ok(InstrW::SetEgress { port: PortIdW((p as u32) as u16) })
}

/// The operands of `queue`.
pub open spec fn instr_queue_in(toks: Seq<Seq<char>>) -> Result<InstrW, Seq<char>> {
    if toks.len() < 2 {
        Err(lacks(toks[0], 1))
    } else {
        match operand(toks[1], u32::MAX as nat, "bad queue `"@) {
            Err(m) => Err(m),
            Ok(q) => Ok(InstrW::SetQueue { queue: QueueIdW((q as u32) as u16) }),
        }
    }
}

fn parse_op_queue(toks: &Vec<Vec<char>>) -> (r: Result<InstrW, String>)
    requires
        toks@.len() > 0,
    ensures
        said(r) == instr_queue_in(texts(toks@)),
{
    if toks.len() < 2 {
        return Err(lacks_operands(&toks[0], 1));
    }
    let q: u64 = match parse_operand(&toks[1], u32::MAX as u64, "bad queue `") {
        Ok(x) => x,
        Err(m) => return Err(m),
    };
    Ok(InstrW::SetQueue { queue: QueueIdW((q as u32) as u16) })
}

/// The operands of `push_label`.
pub open spec fn instr_push_label_in(toks: Seq<Seq<char>>) -> Result<InstrW, Seq<char>> {
    if toks.len() < 2 {
        Err(lacks(toks[0], 1))
    } else {
        match operand(toks[1], u32::MAX as nat, "bad label `"@) {
            Err(m) => Err(m),
            Ok(v) => Ok(InstrW::PushLabel { label: v as u32 }),
        }
    }
}

fn parse_op_push_label(toks: &Vec<Vec<char>>) -> (r: Result<InstrW, String>)
    requires
        toks@.len() > 0,
    ensures
        said(r) == instr_push_label_in(texts(toks@)),
{
    if toks.len() < 2 {
        return Err(lacks_operands(&toks[0], 1));
    }
    let v: u64 = match parse_operand(&toks[1], u32::MAX as u64, "bad label `") {
        Ok(x) => x,
        Err(m) => return Err(m),
    };
    Ok(InstrW::PushLabel { label: v as u32 })
}

/// The operands of `swap_label`.
pub open spec fn instr_swap_label_in(toks: Seq<Seq<char>>) -> Result<InstrW, Seq<char>> {
    if toks.len() < 2 {
        Err(lacks(toks[0], 1))
    } else {
        match operand(toks[1], u32::MAX as nat, "bad label `"@) {
            Err(m) => Err(m),
            Ok(v) => Ok(InstrW::SwapLabel { label: v as u32 }),
        }
    }
}

fn parse_op_swap_label(toks: &Vec<Vec<char>>) -> (r: Result<InstrW, String>)
    requires
        toks@.len() > 0,
    ensures
        said(r) == instr_swap_label_in(texts(toks@)),
{
    if toks.len() < 2 {
        return Err(lacks_operands(&toks[0], 1));
    }
    let v: u64 = match parse_operand(&toks[1], u32::MAX as u64, "bad label `") {
        Ok(x) => x,
        Err(m) => return Err(m),
    };
    Ok(InstrW::SwapLabel { label: v as u32 })
}

/// The opcodes.
#[derive(Debug, Clone, Copy, PartialEq, Eq)]
pub enum Opcode {
    Load,
    Store,
    Loadm,
    Storem,
    Const,
    Add,
    Sub,
    And,
    Or,
    Xor,
    Eq,
    Lt,
    Table,
    Rread,
    Rwrite,
    Counter,
    Bif,
    Drop,
    Punt,
    Egress,
    Queue,
    Recirc,
    Noop,
    PushLabel,
    PopLabel,
    SwapLabel,
    MarkTrace,
}

/// The opcode that a word names.
pub open spec fn opcode_of(s: Seq<char>) -> Option<Opcode> {
    if s == "load"@ {
        Some(Opcode::Load)
    } else if s == "store"@ {
        Some(Opcode::Store)
    } else if s == "loadm"@ {
        Some(Opcode::Loadm)
    } else if s == "storem"@ {
        Some(Opcode::Storem)
    } else if s == "const"@ {
        Some(Opcode::Const)
    } else if s == "add"@ {
        Some(Opcode::Add)
    } else if s == "sub"@ {
        Some(Opcode::Sub)
    } else if s == "and"@ {
        Some(Opcode::And)
    } else if s == "or"@ {
        Some(Opcode::Or)
    } else if s == "xor"@ {
        Some(Opcode::Xor)
    } else if s == "eq"@ {
        Some(Opcode::Eq)
    } else if s == "lt"@ {
        Some(Opcode::Lt)
    } else if s == "table"@ {
        Some(Opcode::Table)
    } else if s == "rread"@ {
        Some(Opcode::Rread)
    } else if s == "rwrite"@ {
        Some(Opcode::Rwrite)
    } else if s == "counter"@ {
        Some(Opcode::Counter)
    } else if s == "bif"@ {
        Some(Opcode::Bif)
    } else if s == "drop"@ {
        Some(Opcode::Drop)
    } else if s == "punt"@ {
        Some(Opcode::Punt)
    } else if s == "egress"@ {
        Some(Opcode::Egress)
    } else if s == "queue"@ {
        Some(Opcode::Queue)
    } else if s == "recirc"@ {
        Some(Opcode::Recirc)
    } else if s == "noop"@ {
        Some(Opcode::Noop)
    } else if s == "push_label"@ {
        Some(Opcode::PushLabel)
    } else if s == "pop_label"@ {
        Some(Opcode::PopLabel)
    } else if s == "swap_label"@ {
        Some(Opcode::SwapLabel)
    } else if s == "mark_trace"@ {
        Some(Opcode::MarkTrace)
    } else {
        None
    }
}

fn find_opcode(s: &[char]) -> (r: Option<Opcode>)
    ensures
        r == opcode_of(s@),
{
    if spells(s, "load") {
        Some(Opcode::Load)
    } else if spells(s, "store") {
        Some(Opcode::Store)
    } else if spells(s, "loadm") {
        Some(Opcode::Loadm)
    } else if spells(s, "storem") {
        Some(Opcode::Storem)
    } else if spells(s, "const") {
        Some(Opcode::Const)
    } else if spells(s, "add") {
        Some(Opcode::Add)
    } else if spells(s, "sub") {
        Some(Opcode::Sub)
    } else if spells(s, "and") {
        Some(Opcode::And)
    } else if spells(s, "or") {
        Some(Opcode::Or)
    } else if spells(s, "xor") {
        Some(Opcode::Xor)
    } else if spells(s, "eq") {
        Some(Opcode::Eq)
    } else if spells(s, "lt") {
        Some(Opcode::Lt)
    } else if spells(s, "table") {
        Some(Opcode::Table)
    } else if spells(s, "rread") {
        Some(Opcode::Rread)
    } else if spells(s, "rwrite") {
        Some(Opcode::Rwrite)
    } else if spells(s, "counter") {
        Some(Opcode::Counter)
    } else if spells(s, "bif") {
        Some(Opcode::Bif)
    } else if spells(s, "drop") {
        Some(Opcode::Drop)
    } else if spells(s, "punt") {
        Some(Opcode::Punt)
    } else if spells(s, "egress") {
        Some(Opcode::Egress)
    } else if spells(s, "queue") {
        Some(Opcode::Queue)
    } else if spells(s, "recirc") {
        Some(Opcode::Recirc)
    } else if spells(s, "noop") {
        Some(Opcode::Noop)
    } else if spells(s, "push_label") {
        Some(Opcode::PushLabel)
    } else if spells(s, "pop_label") {
        Some(Opcode::PopLabel)
    } else if spells(s, "swap_label") {
        Some(Opcode::SwapLabel)
    } else if spells(s, "mark_trace") {
        Some(Opcode::MarkTrace)
    } else {
        None
    }
}

/// The instruction that the words of a line spell: the opcode, then its operands.
pub open spec fn instr_in(toks: Seq<Seq<char>>) -> Result<InstrW, Seq<char>> {
    if toks.len() == 0 {
        Err("unknown opcode ``"@)
    } else {
        match opcode_of(toks[0]) {
            Some(Opcode::Load) => instr_load_in(toks),
            Some(Opcode::Store) => instr_store_in(toks),
            Some(Opcode::Loadm) => instr_loadm_in(toks),
            Some(Opcode::Storem) => instr_storem_in(toks),
            Some(Opcode::Const) => instr_const_in(toks),
            Some(Opcode::Add) => instr_add_in(toks),
            Some(Opcode::Sub) => instr_sub_in(toks),
            Some(Opcode::And) => instr_and_in(toks),
            Some(Opcode::Or) => instr_or_in(toks),
            Some(Opcode::Xor) => instr_xor_in(toks),
            Some(Opcode::Eq) => instr_eq_in(toks),
            Some(Opcode::Lt) => instr_lt_in(toks),
            Some(Opcode::Table) => instr_table_in(toks),
            Some(Opcode::Rread) => instr_rread_in(toks),
            Some(Opcode::Rwrite) => instr_rwrite_in(toks),
            Some(Opcode::Counter) => instr_counter_in(toks),
            Some(Opcode::Bif) => instr_bif_in(toks),
            Some(Opcode::Drop) => Ok(InstrW::Drop),
            Some(Opcode::Punt) => instr_punt_in(toks),
            Some(Opcode::Egress) => instr_egress_in(toks),
            Some(Opcode::Queue) => instr_queue_in(toks),
            Some(Opcode::Recirc) => Ok(InstrW::Recirculate),
            Some(Opcode::Noop) => Ok(InstrW::Noop),
            Some(Opcode::PushLabel) => instr_push_label_in(toks),
            Some(Opcode::PopLabel) => Ok(InstrW::PopLabel),
            Some(Opcode::SwapLabel) => instr_swap_label_in(toks),
            Some(Opcode::MarkTrace) => Ok(InstrW::MarkTrace),
            None => Err("unknown opcode `"@ + toks[0] + "`"@),
        }
    }
}

fn parse_tokens(toks: &Vec<Vec<char>>) -> (r: Result<InstrW, String>)
    ensures
        said(r) == instr_in(texts(toks@)),
{
    if toks.len() == 0 {
        return Err(literal("unknown opcode ``"));
    }
    assert(texts(toks@)[0] == toks@[0]@);
    match find_opcode(toks[0].as_slice()) {
        Some(Opcode::Load) => parse_op_load(toks),
        Some(Opcode::Store) => parse_op_store(toks),
        Some(Opcode::Loadm) => parse_op_loadm(toks),
        Some(Opcode::Storem) => parse_op_storem(toks),
        Some(Opcode::Const) => parse_op_const(toks),
        Some(Opcode::Add) => parse_op_add(toks),
        Some(Opcode::Sub) => parse_op_sub(toks),
        Some(Opcode::And) => parse_op_and(toks),
        Some(Opcode::Or) => parse_op_or(toks),
        Some(Opcode::Xor) => parse_op_xor(toks),
        Some(Opcode::Eq) => parse_op_eq(toks),
        Some(Opcode::Lt) => parse_op_lt(toks),
        Some(Opcode::Table) => parse_op_table(toks),
        Some(Opcode::Rread) => parse_op_rread(toks),
        Some(Opcode::Rwrite) => parse_op_rwrite(toks),
        Some(Opcode::Counter) => parse_op_counter(toks),
        Some(Opcode::Bif) => parse_op_bif(toks),
        Some(Opcode::Drop) => Ok(InstrW::Drop),
        Some(Opcode::Punt) => parse_op_punt(toks),
        Some(Opcode::Egress) => parse_op_egress(toks),
        Some(Opcode::Queue) => parse_op_queue(toks),
        Some(Opcode::Recirc) => Ok(InstrW::Recirculate),
        Some(Opcode::Noop) => Ok(InstrW::Noop),
        Some(Opcode::PushLabel) => parse_op_push_label(toks),
        Some(Opcode::PopLabel) => Ok(InstrW::PopLabel),
        Some(Opcode::SwapLabel) => parse_op_swap_label(toks),
        Some(Opcode::MarkTrace) => Ok(InstrW::MarkTrace),
        None => Err(quote("unknown opcode `", &toks[0], "`")),
    }
}

/// A line with every arrow set apart.
pub open spec fn arrows_apart(s: Seq<char>) -> Seq<char>
    decreases s.len(),
{
    if s.len() == 0 {
        s
    } else if s.len() >= 2 && s[0] == '-' && s[1] == '>' {
        seq![' ', '-', '>', ' '] + arrows_apart(s.skip(2))
    } else {
        seq![s[0]] + arrows_apart(s.skip(1))
    }
}

fn set_arrows_apart(s: &[char]) -> (r: Vec<char>)
    ensures
        r@ == arrows_apart(s@),
{
    let n: usize = s.len();
    let mut out: Vec<char> = Vec::new();
    let mut i: usize = 0;
    assert(s@.skip(0) =~= s@);
    assert(out@ + arrows_apart(s@) =~= arrows_apart(s@));
    while i < n
        invariant
            i <= n,
            n == s@.len(),
            arrows_apart(s@) == out@ + arrows_apart(s@.skip(i as int)),
        decreases n - i,
    {
        let ghost t = s@.skip(i as int);
        let ghost before = out@;
        if n - i >= 2 && s[i] == '-' && s[i + 1] == '>' {
            out.push(' ');
            out.push('-');
            out.push('>');
            out.push(' ');
            proof {
                assert(t.skip(2) =~= s@.skip(i + 2));
                assert(out@ + arrows_apart(t.skip(2)) =~= before + (seq![' ', '-', '>', ' ']
                    + arrows_apart(t.skip(2))));
            }
            i += 2;
        } else {
            out.push(s[i]);
            proof {
                assert(t.skip(1) =~= s@.skip(i + 1));
                assert(out@ + arrows_apart(t.skip(1)) =~= before + (seq![t[0]] + arrows_apart(
                    t.skip(1),
                )));
            }
            i += 1;
        }
    }
    assert(s@.skip(i as int) =~= Seq::empty());
    assert(out@ + Seq::empty() =~= out@);
    out
}

/// The instruction on a line.
pub open spec fn instr_on(line: Seq<char>) -> Result<InstrW, Seq<char>> {
    instr_in(words(arrows_apart(line), true))
}

/// Reads the instruction on a line.
pub fn parse_instr(line: &[char]) -> (r: Result<InstrW, String>)
    ensures
        said(r) == instr_on(line@),
{
    let apart = set_arrows_apart(line);
    let toks = split_words(apart.as_slice(), true);
    parse_tokens(&toks)
}

/// The attributes of a stage, from token `i` on.
pub open spec fn attrs_in(toks: Seq<Seq<char>>, i: int, alu: u32, mem: u8) -> Result<
    (u32, u8),
    Seq<char>,
>
    decreases toks.len() - i,
{
    if i >= toks.len() {
        Ok((alu, mem))
    } else if begins(toks[i], "alu="@) {
        match number(toks[i].skip(4), 10, u32::MAX as nat) {
            Some(v) => attrs_in(toks, i + 1, v as u32, mem),
            None => Err("bad alu: "@ + toks[i] + ""@),
        }
    } else if begins(toks[i], "mem="@) {
        match number(toks[i].skip(4), 10, 255) {
            Some(v) => attrs_in(toks, i + 1, alu, v as u8),
            None => Err("bad mem: "@ + toks[i] + ""@),
        }
    } else {
        Err("unknown stage attr: "@ + toks[i] + ""@)
    }
}

fn parse_stage_attrs(toks: &Vec<Vec<char>>) -> (r: Result<(u32, u8), String>)
    requires
        toks@.len() > 0,
    ensures
        said(r) == attrs_in(texts(toks@), 1, 32, 1),
{
    proof {
        reveal_strlit("alu=");
        reveal_strlit("mem=");
    }
    let mut alu: u32 = 32;
    let mut mem: u8 = 1;
    let mut i: usize = 1;
    while i < toks.len()
        invariant
            1 <= i <= toks@.len(),
            "alu="@.len() == 4,
            "mem="@.len() == 4,
            attrs_in(texts(toks@), 1, 32, 1) == attrs_in(texts(toks@), i as int, alu, mem),
        decreases toks@.len() - i,
    {
        let tok = &toks[i];
        assert(texts(toks@)[i as int] == tok@);
        if begins_with(tok.as_slice(), "alu=") {
            let d = rest_of(tok, 4);
            match parse_number(d.as_slice(), 10, u32::MAX as u64) {
                Some(v) => alu = v as u32,
                None => return Err(quote("bad alu: ", tok, "")),
            }
        } else if begins_with(tok.as_slice(), "mem=") {
            let d = rest_of(tok, 4);
            match parse_number(d.as_slice(), 10, 255) {
                Some(v) => mem = v as u8,
                None => return Err(quote("bad mem: ", tok, "")),
            }
        } else {
            return Err(quote("unknown stage attr: ", tok, ""));
        }
        i += 1;
    }
    Ok((alu, mem))
}

/// A program in the middle of being read: the finished stages, and the one that
/// is being filled.
#[verifier::ext_equal]
pub struct Reading {
    pub done: Seq<StageProgramV>,
    pub current: Option<StageProgramV>,
}

/// A line without its comment.
pub open spec fn code_of(line: Seq<char>) -> Seq<char> {
    line.subrange(0, place_of(line, '#', 0))
}

/// Whether a line holds nothing but white space.
pub open spec fn blank(line: Seq<char>) -> bool {
    forall|i: int| 0 <= i < line.len() ==> white(#[trigger] line[i])
}

fn is_blank(line: &[char]) -> (r: bool)
    ensures
        r == blank(line@),
{
    let mut i: usize = 0;
    while i < line.len()
        invariant
            i <= line@.len(),
            forall|j: int| 0 <= j < i ==> white(#[trigger] line@[j]),
        decreases line@.len() - i,
    {
        if !crate::chars::is_white(line[i]) {
            assert(!white(line@[i as int]));
            return false;
        }
        i += 1;
    }
    true
}

impl Reading {
    /// All stages so far, the current one last.
    pub open spec fn stages(self) -> Seq<StageProgramV> {
        match self.current {
            Some(s) => self.done.push(s),
            None => self.done,
        }
    }

    /// What a line adds: nothing, a new stage, or an instruction of the current
    /// stage.
    #[verifier::opaque]
    pub open spec fn line(self, raw: Seq<char>) -> Result<Reading, Seq<char>> {
        let code = code_of(raw);
        let toks = words(code, true);
        if blank(code) {
            Ok(self)
        } else if toks.len() > 0 && toks[0] == "stage"@ {
            match attrs_in(toks, 1, 32, 1) {
                Ok((alu, mem)) => Ok(
                    Reading {
                        done: self.stages(),
                        current: Some(
                            StageProgramV {
                                instrs: Seq::empty(),
                                max_alu_ops: alu,
                                max_memory_accesses: mem,
                            },
                        ),
                    },
                ),
                Err(m) => Err(m),
            }
        } else {
            match self.current {
                None => Err("instruction outside any `stage` block"@),
                Some(s) => match instr_on(code) {
                    Ok(i) => Ok(
                        Reading {
                            current: Some(StageProgramV { instrs: s.instrs.push(i), ..s }),
                            ..self
                        },
                    ),
                    Err(m) => Err(m),
                },
            }
        }
    }

    /// Reads the rest of a program, whose next line is line `n`. An error comes
    /// with its line, or with line 0 where it is about the whole.
    pub open spec fn rest(self, s: Seq<char>, n: nat) -> Result<
        Seq<StageProgramV>,
        (nat, Seq<char>),
    >
        decreases s.len(),
    {
        if s.len() == 0 {
            if self.stages().len() == 0 {
                Err((0, "program has no stages"@))
            } else {
                Ok(self.stages())
            }
        } else {
            let k = place_of(s, '\n', 0);
            match self.line(s.subrange(0, k)) {
                Err(m) => Err((n, m)),
                Ok(next) => next.rest(
                    if 0 <= k < s.len() {
                        s.skip(k + 1)
                    } else {
                        Seq::empty()
                    },
                    n + 1,
                ),
            }
        }
    }
}

/// The program that a text spells.
pub open spec fn program_in(s: Seq<char>) -> Result<Seq<StageProgramV>, (nat, Seq<char>)> {
    Reading { done: Seq::empty(), current: None }.rest(s, 1)
}

/// A program in the middle of being read.
struct Assembly {
    done: Vec<StageProgramW>,
    current: Option<StageProgramW>,
}

impl Assembly {
    spec fn reading(self) -> Reading {
        Reading {
            done: self.done@.map_values(|s: StageProgramW| s@),
            current: match self.current {
                Some(s) => Some(s@),
                None => None,
            },
        }
    }

    fn finish_stage(&mut self)
        ensures
            final(self).reading() == (Reading {
                done: old(self).reading().stages(),
                current: None,
            }),
    {
        let ghost before = self.reading();
        match self.current.take() {
            Some(s) => {
                let ghost v = s@;
                self.done.push(s);
                assert(self.reading().done =~= before.done.push(v));
            },
            None => {},
        }
    }

    fn take_line(&mut self, raw: &[char]) -> (r: Result<(), String>)
        ensures
            match old(self).reading().line(raw@) {
                Ok(next) => r is Ok && final(self).reading() == next,
                Err(m) => said(r) == Err::<(), Seq<char>>(m),
            },
    {
        proof {
            reveal(Reading::line);
            lemma_place_of(raw@, '#', 0);
        }
        let code = part(raw, 0, find_char(raw, '#'));
        if is_blank(code.as_slice()) {
            return Ok(());
        }
        let toks = split_words(code.as_slice(), true);
        assert(toks@.len() > 0 ==> texts(toks@)[0] == toks@[0]@);
        if toks.len() > 0 && spells(toks[0].as_slice(), "stage") {
            match parse_stage_attrs(&toks) {
                Ok((alu, mem)) => {
                    self.finish_stage();
                    let s = StageProgramW {
                        instrs: Vec::new(),
                        max_alu_ops: alu,
                        max_memory_accesses: mem,
                    };
                    assert(s@.instrs =~= Seq::empty());
                    self.current = Some(s);
                    Ok(())
                },
                Err(m) => Err(m),
            }
        } else {
            match self.current.take() {
                None => Err(literal("instruction outside any `stage` block")),
                Some(stage) => {
                    match parse_instr(code.as_slice()) {
                        Ok(i) => {
                            let mut s = stage;
                            let ghost before = s@;
                            s.instrs.push(i);
                            assert(s@.instrs =~= before.instrs.push(i));
                            self.current = Some(s);
                            Ok(())
                        },
                        Err(m) => Err(m),
                    }
                },
            }
        }
    }
}

/// Reads a program.
pub fn parse_tiny_program(input: &str) -> (r: Result<TinyProgramW, ParseError>)
    ensures
        match program_in(input@) {
            Ok(stages) => r matches Ok(p) && p@.stages == stages,
            Err((line, message)) => r matches Err(e) && e.line == line && e.message@ == message,
        },
{
    let text = chars_of(input);
    let n: usize = text.len();
    let mut a = Assembly { done: Vec::new(), current: None };
    let mut at: usize = 0;
    let mut line_no: usize = 1;
    assert(text@.skip(0) =~= text@);
    assert(a.reading() =~= Reading { done: Seq::empty(), current: None });
    while at < n
        invariant
            at <= n,
            n == text@.len(),
            text@ == input@,
            1 <= line_no <= at + 1,
            program_in(text@) == a.reading().rest(text@.skip(at as int), line_no as nat),
        decreases n - at,
    {
        let ghost s = text@.skip(at as int);
        let mut end: usize = at;
        while end < n && text[end] != '\n'
            invariant
                at <= end <= n,
                n == text@.len(),
                s == text@.skip(at as int),
                place_of(s, '\n', 0) == place_of(s, '\n', end - at),
            decreases n - end,
        {
            end += 1;
        }
        let line = part(text.as_slice(), at, end);
        assert(line@ =~= s.subrange(0, end - at));
        assert(place_of(s, '\n', 0) == end - at);
        match a.take_line(line.as_slice()) {
            Ok(()) => {},
            Err(message) => return Err(ParseError { line: line_no, message }),
        }
        if end < n {
            assert(s.skip(end - at + 1) =~= text@.skip(end + 1));
            at = end + 1;
            if at < n {
                line_no = line_no + 1;
            } else {
                assert(text@.skip(at as int) =~= Seq::empty());
                proof {
                    assert(a.reading().rest(Seq::empty(), line_no as nat) == a.reading().rest(
                        Seq::empty(),
                        (line_no + 1) as nat,
                    ));
                }
            }
        } else {
            at = n;
            assert(text@.skip(at as int) =~= Seq::empty());
            proof {
                assert(a.reading().rest(Seq::empty(), line_no as nat) == a.reading().rest(
                    Seq::empty(),
                    (line_no + 1) as nat,
                ));
            }
        }
    }
    assert(text@.skip(at as int) =~= Seq::empty());
    a.finish_stage();
    if a.done.len() == 0 {
        return Err(ParseError { line: 0, message: literal("program has no stages") });
    }
    let p = TinyProgramW { stages: a.done };
    assert(p@.stages =~= a.reading().done);
    Ok(p)
}

/// The lines of a text, without their ends.
pub open spec fn lines_of(s: Seq<char>) -> Seq<Seq<char>>
    decreases s.len(),
{
    if s.len() == 0 {
        Seq::empty()
    } else {
        let k = place_of(s, '\n', 0);
        seq![s.subrange(0, k)] + lines_of(
            if 0 <= k < s.len() {
                s.skip(k + 1)
            } else {
                Seq::empty()
            },
        )
    }
}

impl Reading {
    /// Reads line after line, of which the first is line `n`.
    pub open spec fn over(self, lines: Seq<Seq<char>>, n: nat) -> Result<
        Reading,
        (nat, Seq<char>),
    >
        decreases lines.len(),
    {
        if lines.len() == 0 {
            Ok(self)
        } else {
            match self.line(lines[0]) {
                Err(m) => Err((n, m)),
                Ok(next) => next.over(lines.drop_first(), n + 1),
            }
        }
    }

    /// The program that has been read, if there is one.
    pub open spec fn closed(self) -> Result<Seq<StageProgramV>, (nat, Seq<char>)> {
        if self.stages().len() == 0 {
            Err((0, "program has no stages"@))
        } else {
            Ok(self.stages())
        }
    }
}

/// Whether a line is another with blanks at its end and a comment added: without
/// their comments they are the same, but for the blanks.
pub open spec fn adorns(a: Seq<char>, b: Seq<char>) -> bool {
    let c = code_of(a);
    let d = code_of(b);
    &&& d.len() <= c.len()
    &&& c.take(d.len() as int) == d
    &&& forall|i: int| d.len() <= i < c.len() ==> white(#[trigger] c[i])
}

/// Whether lines are other lines with blank lines and comments added.
pub open spec fn dressed(q: Seq<Seq<char>>, p: Seq<Seq<char>>) -> bool
    decreases q.len(),
{
    if q.len() == 0 {
        p.len() == 0
    } else {
        (blank(code_of(q[0])) && dressed(q.drop_first(), p)) || (p.len() > 0 && adorns(q[0], p[0])
            && dressed(q.drop_first(), p.drop_first()))
    }
}

/// Whether two results are the same but for the number of the line that an error
/// is about.
pub open spec fn agree(
    a: Result<Seq<StageProgramV>, (nat, Seq<char>)>,
    b: Result<Seq<StageProgramV>, (nat, Seq<char>)>,
) -> bool {
    match (a, b) {
        (Ok(x), Ok(y)) => x == y,
        (Err((n, m)), Err((k, w))) => m == w && (n == 0) == (k == 0),
        _ => false,
    }
}

proof fn lemma_by_lines(r: Reading, s: Seq<char>, n: nat)
    ensures
        r.rest(s, n) == match r.over(lines_of(s), n) {
            Err(e) => Err(e),
            Ok(x) => x.closed(),
        },
    decreases s.len(),
{
    if s.len() > 0 {
        lemma_place_of(s, '\n', 0);
        let k = place_of(s, '\n', 0);
        let tail = if k < s.len() {
            s.skip(k + 1)
        } else {
            Seq::empty()
        };
        let line = s.subrange(0, k);
        assert(lines_of(s)[0] == line);
        assert(lines_of(s).drop_first() =~= lines_of(tail));
        if let Ok(next) = r.line(line) {
            lemma_by_lines(next, tail, n + 1);
        }
    }
}

proof fn lemma_plain_arrows(s: Seq<char>, t: Seq<char>)
    requires
        forall|i: int| 0 <= i < t.len() ==> white(#[trigger] t[i]),
    ensures
        arrows_apart(s + t) == arrows_apart(s) + t,
    decreases s.len() + t.len(),
{
    let all = s + t;
    if s.len() == 0 {
        assert(all =~= t);
        if t.len() > 0 {
            let u = t.skip(1);
            assert forall|i: int| 0 <= i < u.len() implies white(#[trigger] u[i]) by {
                assert(u[i] == t[i + 1]);
            }
            lemma_plain_arrows(s, u);
            assert(s + u =~= u);
            assert(white(t[0]));
            assert(arrows_apart(s) + u =~= u);
            assert(seq![t[0]] + u =~= t);
        }
        assert(arrows_apart(s) + t =~= t);
    } else {
        assert(all[0] == s[0]);
        if all.len() >= 2 && all[0] == '-' && all[1] == '>' {
            if s.len() == 1 {
                assert(all[1] == t[0]);
                assert(white(t[0]));
            }
            assert(all[1] == s[1]);
            assert(all.skip(2) =~= s.skip(2) + t);
            lemma_plain_arrows(s.skip(2), t);
        } else {
            if s.len() >= 2 {
                assert(all[1] == s[1]);
            }
            assert(all.skip(1) =~= s.skip(1) + t);
            lemma_plain_arrows(s.skip(1), t);
        }
        assert(arrows_apart(all) =~= arrows_apart(s) + t);
    }
}

proof fn lemma_trailing(s: Seq<char>, t: Seq<char>)
    requires
        forall|i: int| 0 <= i < t.len() ==> white(#[trigger] t[i]),
    ensures
        words(s + t, true) == words(s, true),
{
    if t.len() == 0 {
        assert(s + t =~= s);
    } else {
        let e = Seq::<char>::empty();
        assert(forall|i: int| 0 <= i < t.len() ==> separates(#[trigger] t[i], true));
        lemma_join(s, t, e);
        assert(s + t + e =~= s + t);
        assert(words(e, true) =~= Seq::empty());
        assert(words(s, true) + words(e, true) =~= words(s, true));
    }
}

/// A line with blanks and a comment added is read like the line.
proof fn lemma_adorned(r: Reading, a: Seq<char>, b: Seq<char>)
    requires
        adorns(a, b),
    ensures
        r.line(a) == r.line(b),
{
    reveal(Reading::line);
    let c = code_of(a);
    let d = code_of(b);
    let t = c.skip(d.len() as int);
    assert(c =~= d + t);
    assert forall|i: int| 0 <= i < t.len() implies white(#[trigger] t[i]) by {
        assert(t[i] == c[i + d.len()]);
    }
    lemma_trailing(d, t);
    lemma_plain_arrows(d, t);
    lemma_trailing(arrows_apart(d), t);
    if blank(d) {
        assert forall|i: int| 0 <= i < c.len() implies white(#[trigger] c[i]) by {
            if i < d.len() {
                assert(c.take(d.len() as int)[i] == d[i]);
            }
        }
    }
    if blank(c) {
        assert forall|i: int| 0 <= i < d.len() implies white(#[trigger] d[i]) by {
            assert(c.take(d.len() as int)[i] == c[i]);
        }
    }
}

proof fn lemma_dressed(r: Reading, q: Seq<Seq<char>>, p: Seq<Seq<char>>, k: nat, n: nat)
    requires
        dressed(q, p),
        k > 0,
        n > 0,
    ensures
        match (r.over(q, k), r.over(p, n)) {
            (Ok(x), Ok(y)) => x == y,
            (Err((i, m)), Err((j, w))) => m == w && i > 0 && j > 0,
            _ => false,
        },
    decreases q.len(),
{
    if q.len() > 0 {
        if blank(code_of(q[0])) && dressed(q.drop_first(), p) {
            assert(r.line(q[0]) == Ok::<Reading, Seq<char>>(r)) by {
                reveal(Reading::line);
            }
            lemma_dressed(r, q.drop_first(), p, k + 1, n);
        } else {
            lemma_adorned(r, q[0], p[0]);
            if let Ok(next) = r.line(p[0]) {
                lemma_dressed(next, q.drop_first(), p.drop_first(), k + 1, n + 1);
            }
        }
    }
}

/// Comments and blank lines change nothing: a text, and the same with blank lines,
/// comment lines, blanks at the ends of lines and comments behind them added, spell
/// the same program, or are refused for the same reason.
pub proof fn comments_change_nothing(p: Seq<char>, q: Seq<char>)
    requires
        dressed(lines_of(q), lines_of(p)),
    ensures
        agree(program_in(p), program_in(q)),
{
    let r = Reading { done: Seq::empty(), current: None };
    lemma_by_lines(r, p, 1);
    lemma_by_lines(r, q, 1);
    lemma_dressed(r, lines_of(q), lines_of(p), 1, 1);
}

/// Whether a text is made of whole lines.
pub open spec fn whole_lines(s: Seq<char>) -> bool {
    s.len() > 0 ==> s.last() == '\n'
}

/// Whether a text has no line end in it.
pub open spec fn one_line(s: Seq<char>) -> bool {
    forall|i: int| 0 <= i < s.len() ==> #[trigger] s[i] != '\n'
}

proof fn lemma_lines_join(a: Seq<char>, b: Seq<char>)
    requires
        whole_lines(a),
    ensures
        lines_of(a + b) == lines_of(a) + lines_of(b),
    decreases a.len(),
{
    let all = a + b;
    if a.len() == 0 {
        assert(all =~= b);
        assert(lines_of(a) + lines_of(b) =~= lines_of(b));
    } else {
        lemma_place_of(a, '\n', 0);
        lemma_place_of(all, '\n', 0);
        let k = place_of(a, '\n', 0);
        let m = place_of(all, '\n', 0);
        assert(a[a.len() - 1] == '\n');
        assert(k < a.len());
        assert(all[k] == a[k]);
        if m < k {
            assert(all[m] == a[m]);
        }
        assert(m == k);
        let tail = a.skip(k + 1);
        assert(all.skip(k + 1) =~= tail + b);
        assert(all.subrange(0, k) =~= a.subrange(0, k));
        if tail.len() > 0 {
            assert(tail.last() == a.last());
        }
        lemma_lines_join(tail, b);
        assert(lines_of(all) =~= lines_of(a) + lines_of(b));
    }
}

proof fn lemma_first_line(line: Seq<char>, b: Seq<char>)
    requires
        one_line(line),
    ensures
        lines_of(line + seq!['\n'] + b) == seq![line] + lines_of(b),
{
    let s = line + seq!['\n'] + b;
    let n = line.len() as int;
    lemma_place_of(s, '\n', 0);
    let k = place_of(s, '\n', 0);
    assert(s[n] == '\n');
    if k < n {
        assert(s[k] == line[k]);
    }
    assert(s.subrange(0, n) =~= line);
    assert(s.skip(n + 1) =~= b);
}

proof fn lemma_adorns_itself(line: Seq<char>)
    ensures
        adorns(line, line),
{
    let c = code_of(line);
    assert(c.take(c.len() as int) =~= c);
}

proof fn lemma_dressed_alike(a: Seq<Seq<char>>, q: Seq<Seq<char>>, p: Seq<Seq<char>>)
    requires
        dressed(q, p),
    ensures
        dressed(a + q, a + p),
    decreases a.len(),
{
    if a.len() == 0 {
        assert(a + q =~= q);
        assert(a + p =~= p);
    } else {
        lemma_dressed_alike(a.drop_first(), q, p);
        assert((a + q).drop_first() =~= a.drop_first() + q);
        assert((a + p).drop_first() =~= a.drop_first() + p);
        lemma_adorns_itself(a[0]);
    }
}

proof fn lemma_dressed_same(p: Seq<Seq<char>>)
    ensures
        dressed(p, p),
    decreases p.len(),
{
    if p.len() > 0 {
        lemma_adorns_itself(p[0]);
        lemma_dressed_same(p.drop_first());
    }
}

/// A line that holds nothing but blanks and a comment can be put between any two
/// lines of a program.
pub proof fn a_blank_line_changes_nothing(a: Seq<char>, line: Seq<char>, b: Seq<char>)
    requires
        whole_lines(a),
        one_line(line),
        blank(code_of(line)),
    ensures
        agree(program_in(a + b), program_in(a + (line + seq!['\n'] + b))),
{
    let more = line + seq!['\n'] + b;
    lemma_lines_join(a, b);
    lemma_lines_join(a, more);
    lemma_first_line(line, b);
    lemma_dressed_same(lines_of(b));
    let q = seq![line] + lines_of(b);
    assert(q.drop_first() =~= lines_of(b));
    lemma_dressed_alike(lines_of(a), q, lines_of(b));
    comments_change_nothing(a + b, a + more);
}

/// A comment can be put behind any line of a program, with blanks before it.
pub proof fn a_comment_changes_nothing(
    a: Seq<char>,
    line: Seq<char>,
    blanks: Seq<char>,
    comment: Seq<char>,
    b: Seq<char>,
)
    requires
        whole_lines(a),
        one_line(line),
        forall|i: int| 0 <= i < line.len() ==> #[trigger] line[i] != '#',
        one_line(blanks),
        blank(blanks),
        one_line(comment),
    ensures
        agree(
            program_in(a + (line + seq!['\n'] + b)),
            program_in(a + ((line + blanks + seq!['#'] + comment) + seq!['\n'] + b)),
        ),
{
    let full = line + blanks + seq!['#'] + comment;
    let p = line + seq!['\n'] + b;
    let q = full + seq!['\n'] + b;
    let n = (line.len() + blanks.len()) as int;
    assert forall|i: int| 0 <= i < full.len() implies #[trigger] full[i] != '\n' by {
        if i < line.len() {
            assert(full[i] == line[i]);
        } else if i < n {
            assert(full[i] == blanks[i - line.len()]);
        } else if i > n {
            assert(full[i] == comment[i - n - 1]);
        }
    }
    lemma_place_of(line, '#', 0);
    assert(code_of(line) =~= line);
    lemma_place_of(full, '#', 0);
    let k = place_of(full, '#', 0);
    assert(full[n] == '#');
    if k < n {
        if k < line.len() {
            assert(full[k] == line[k]);
        } else {
            assert(full[k] == blanks[k - line.len()]);
            assert(white(blanks[k - line.len()]));
        }
        assert(false);
    }
    let c = code_of(full);
    assert(c =~= line + blanks);
    assert(c.take(line.len() as int) =~= line);
    assert forall|i: int| line.len() <= i < c.len() implies white(#[trigger] c[i]) by {
        assert(c[i] == blanks[i - line.len()]);
    }
    assert(adorns(full, line));
    lemma_lines_join(a, p);
    lemma_lines_join(a, q);
    lemma_first_line(line, b);
    lemma_first_line(full, b);
    lemma_dressed_same(lines_of(b));
    let lp = seq![line] + lines_of(b);
    let lq = seq![full] + lines_of(b);
    assert(lp.drop_first() =~= lines_of(b));
    assert(lq.drop_first() =~= lines_of(b));
    lemma_dressed_alike(lines_of(a), lq, lp);
    comments_change_nothing(a + p, a + q);
}

proof fn lemma_first_bad(r: Reading, lines: Seq<Seq<char>>, n: nat)
    ensures
        r.over(lines, n) matches Err((k, m)) ==> {
            &&& n <= k < n + lines.len()
            &&& r.over(lines.take(k - n), n) matches Ok(x) && x.line(lines[k - n]) == Err::<
                Reading,
                Seq<char>,
            >(m)
        },
    decreases lines.len(),
{
    if lines.len() > 0 {
        match r.line(lines[0]) {
            Ok(next) => {
                lemma_first_bad(next, lines.drop_first(), n + 1);
                if let Err((k, m)) = r.over(lines, n) {
                    let head = lines.take(k - n);
                    assert(head.drop_first() =~= lines.drop_first().take(k - n - 1));
                    assert(head[0] == lines[0]);
                }
            },
            Err(_) => {
                assert(lines.take(0) =~= Seq::empty());
            },
        }
    }
}

/// An error names the first bad line, counted from one; it names line 0 where no
/// line is bad and there is no stage.
pub proof fn errors_name_the_first_bad_line(s: Seq<char>)
    ensures
        program_in(s) matches Err((n, m)) ==> {
            let r = Reading { done: Seq::empty(), current: None };
            let lines = lines_of(s);
            if n == 0 {
                r.over(lines, 1) matches Ok(x) && x.stages().len() == 0
            } else {
                n <= lines.len() && (r.over(lines.take(n - 1), 1) matches Ok(x) && x.line(
                    lines[n - 1],
                ) == Err::<Reading, Seq<char>>(m))
            }
        },
{
    let r = Reading { done: Seq::empty(), current: None };
    lemma_by_lines(r, s, 1);
    lemma_first_bad(r, lines_of(s), 1);
}

/// Whether a line opens a stage.
pub open spec fn opens_stage(line: Seq<char>) -> bool {
    let toks = words(code_of(line), true);
    !blank(code_of(line)) && toks.len() > 0 && toks[0] == "stage"@
}

/// The stages that lines spell: one for each line that opens a stage, with the
/// instructions of the lines below it, in order.
pub open spec fn stages_of(lines: Seq<Seq<char>>) -> Seq<StageProgramV>
    decreases lines.len(),
{
    if lines.len() == 0 {
        Seq::empty()
    } else {
        let r = stages_of(lines.drop_last());
        let line = lines.last();
        if blank(code_of(line)) {
            r
        } else if opens_stage(line) {
            let budgets = attrs_in(words(code_of(line), true), 1, 32, 1)->Ok_0;
            r.push(
                StageProgramV {
                    instrs: Seq::empty(),
                    max_alu_ops: budgets.0,
                    max_memory_accesses: budgets.1,
                },
            )
        } else {
            let i = instr_on(code_of(line))->Ok_0;
            r.drop_last().push(StageProgramV { instrs: r.last().instrs.push(i), ..r.last() })
        }
    }
}

proof fn lemma_over_last(r: Reading, lines: Seq<Seq<char>>, n: nat)
    requires
        lines.len() > 0,
        r.over(lines, n) is Ok,
    ensures
        r.over(lines.drop_last(), n) matches Ok(x) && x.line(lines.last()) == Ok::<
            Reading,
            Seq<char>,
        >(r.over(lines, n)->Ok_0),
    decreases lines.len(),
{
    let rest = lines.drop_first();
    if rest.len() > 0 {
        let next = r.line(lines[0])->Ok_0;
        lemma_over_last(next, rest, n + 1);
        assert(lines.drop_last().drop_first() =~= rest.drop_last());
        assert(lines.drop_last()[0] == lines[0]);
    } else {
        let next = r.line(lines[0])->Ok_0;
        assert(lines.drop_last() =~= Seq::empty());
        assert(next.over(rest, n + 1) == Ok::<Reading, (nat, Seq<char>)>(next));
    }
}

proof fn lemma_stages_of(lines: Seq<Seq<char>>, n: nat)
    requires
        (Reading { done: Seq::empty(), current: None }).over(lines, n) is Ok,
    ensures
        (Reading { done: Seq::empty(), current: None }).over(lines, n)->Ok_0.stages() == stages_of(
            lines,
        ),
    decreases lines.len(),
{
    let r = Reading { done: Seq::empty(), current: None };
    if lines.len() > 0 {
        lemma_over_last(r, lines, n);
        lemma_stages_of(lines.drop_last(), n);
        let x = r.over(lines.drop_last(), n)->Ok_0;
        reveal(Reading::line);
        if let Some(s) = x.current {
            assert(x.stages().drop_last() =~= x.done);
            assert(x.stages().last() == s);
        }
    }
}

/// A program has one stage for each line that opens one, and its instructions are
/// those of the lines below, in order.
pub proof fn programs_follow_their_lines(s: Seq<char>)
    ensures
        program_in(s) matches Ok(x) ==> x == stages_of(lines_of(s)),
{
    let r = Reading { done: Seq::empty(), current: None };
    lemma_by_lines(r, s, 1);
    if r.over(lines_of(s), 1) is Ok {
        lemma_stages_of(lines_of(s), 1);
    }
}

} // verus!
