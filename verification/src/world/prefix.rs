//! The prefixes that apps own, as a world file writes them.

use super::WorldError;
use crate::chars::{
    chars_of, decimal, digit_value, find_char, lemma_decimal, lemma_place_of, number,
    parse_number, pieces, place_of, push_decimal, push_text, split_on, texts,
};
use crate::types::{in_prefix, mask_of, prefix_mask};
use vstd::prelude::*;

verus! {

#[derive(Debug, Clone, Copy, PartialEq, Eq, Structural)]
pub struct Prefix {
    pub addr: u32,
    pub len: u8,
}

/// What is wrong with a text that is no prefix.
pub open spec fn complaint(s: Seq<char>, what: Seq<char>) -> Seq<char> {
    "`"@ + s + "`"@ + what
}

/// Whether a piece is a number below 256.
pub open spec fn is_octet(s: Seq<char>) -> bool {
    number(s, 10, 255) is Some
}

/// The number in a piece.
pub open spec fn octet(s: Seq<char>) -> nat {
    number(s, 10, 255)->0
}

/// The address that four numbers make.
pub open spec fn quad(a: nat, b: nat, c: nat, d: nat) -> nat {
    ((a * 256 + b) * 256 + c) * 256 + d
}

/// The prefix that a text spells, or the complaint about it.
pub open spec fn prefix_in(s: Seq<char>) -> Result<Prefix, Seq<char>> {
    let k = place_of(s, '/', 0);
    if k >= s.len() {
        Err(complaint(s, " has no /len"@))
    } else {
        let o = pieces(s.take(k), '.');
        let len = number(s.skip(k + 1), 10, 255);
        if o.len() != 4 {
            Err(complaint(s, " is not dotted quad"@))
        } else if !(is_octet(o[0]) && is_octet(o[1]) && is_octet(o[2]) && is_octet(o[3])) {
            Err(complaint(s, " has a bad octet"@))
        } else if len is None {
            Err(complaint(s, " has a bad prefix length"@))
        } else if len->0 > 32 {
            Err(complaint(s, " length exceeds 32"@))
        } else {
            Ok(
                Prefix {
                    addr: quad(octet(o[0]), octet(o[1]), octet(o[2]), octet(o[3])) as u32,
                    len: len->0 as u8,
                },
            )
        }
    }
}

fn bad_prefix(s: &str, what: &str) -> (r: WorldError)
    ensures
        r matches WorldError::Prefix(m) && m@ == complaint(s@, what@),
{
    let mut out = String::new();
    push_text(&mut out, "`");
    push_text(&mut out, s);
    push_text(&mut out, "`");
    push_text(&mut out, what);
    assert(out@ =~= complaint(s@, what@));
    WorldError::Prefix(out)
}

impl Prefix {
    /// Reads `a.b.c.d/len`.
    pub fn parse(s: &str) -> (r: Result<Prefix, WorldError>)
        ensures
            match prefix_in(s@) {
                Ok(p) => r matches Ok(q) && q == p,
                Err(m) => r matches Err(WorldError::Prefix(t)) && t@ == m,
            },
            r matches Ok(q) ==> q.len <= 32,
    {
        let c = chars_of(s);
        let k: usize = find_char(c.as_slice(), '/');
        if k >= c.len() {
            return Err(bad_prefix(s, " has no /len"));
        }
        let head = vstd::slice::slice_subrange(c.as_slice(), 0, k);
        assert(head@ =~= c@.take(k as int));
        let o = split_on(head, '.');
        assert(texts(o@).len() == o@.len());
        if o.len() != 4 {
            return Err(bad_prefix(s, " is not dotted quad"));
        }
        assert(texts(o@)[0] == o@[0]@ && texts(o@)[1] == o@[1]@ && texts(o@)[2] == o@[2]@ && texts(
            o@,
        )[3] == o@[3]@);
        let octets = (
            parse_number(o[0].as_slice(), 10, 255),
            parse_number(o[1].as_slice(), 10, 255),
            parse_number(o[2].as_slice(), 10, 255),
            parse_number(o[3].as_slice(), 10, 255),
        );
        let addr: u32 = match octets {
            (Some(w), Some(x), Some(y), Some(z)) => {
                assert(quad(w as nat, x as nat, y as nat, z as nat) <= u32::MAX);
                (((w * 256 + x) * 256 + y) * 256 + z) as u32
            },
            _ => return Err(bad_prefix(s, " has a bad octet")),
        };
        let tail = vstd::slice::slice_subrange(c.as_slice(), k + 1, c.len());
        assert(tail@ =~= c@.skip(k + 1));
        let len: u64 = match parse_number(tail, 10, 255) {
            Some(n) => n,
            None => return Err(bad_prefix(s, " has a bad prefix length")),
        };
        if len > 32 {
            return Err(bad_prefix(s, " length exceeds 32"));
        }
        Ok(Prefix { addr, len: len as u8 })
    }

    /// The first usable host address, which is what the app answers to.
    pub open spec fn host(self) -> u32 {
        if self.len >= 32 {
            self.addr
        } else {
            (self.addr & mask_of(self.len)) | 1
        }
    }

    /// First usable host address in the prefix — what the app answers to.
    pub fn first_host(&self) -> (r: u32)
        requires
            self.len <= 32,
        ensures
            r == self.host(),
    {
        if self.len >= 32 {
            self.addr
        } else {
            (self.addr & prefix_mask(self.len)) | 1
        }
    }

    /// Whether two prefixes agree on the bits that both fix.
    pub open spec fn meets(self, other: Prefix) -> bool {
        let shorter = if self.len <= other.len {
            self.len
        } else {
            other.len
        };
        in_prefix(self.addr, shorter, other.addr)
    }

    pub fn overlaps(&self, other: &Prefix) -> (r: bool)
        requires
            self.len <= 32 || other.len <= 32,
        ensures
            r == self.meets(*other),
    {
        let shorter: u8 = if self.len <= other.len {
            self.len
        } else {
            other.len
        };
        let m: u32 = prefix_mask(shorter);
        (self.addr & m) == (other.addr & m)
    }

    /// The prefix in the form it is written in.
    pub open spec fn written(self) -> Seq<char> {
        decimal((self.addr / 0x100_0000) as nat) + "."@ + decimal(
            ((self.addr / 0x1_0000) % 256) as nat,
        ) + "."@ + decimal(((self.addr / 0x100) % 256) as nat) + "."@ + decimal(
            (self.addr % 256) as nat,
        ) + "/"@ + decimal(self.len as nat)
    }

    /// The prefix in the form it is written in.
    pub fn text(&self) -> (r: String)
        ensures
            r@ == self.written(),
    {
        let mut out = String::new();
        push_decimal(&mut out, (self.addr / 0x100_0000) as u64);
        push_text(&mut out, ".");
        push_decimal(&mut out, ((self.addr / 0x1_0000) % 256) as u64);
        push_text(&mut out, ".");
        push_decimal(&mut out, ((self.addr / 0x100) % 256) as u64);
        push_text(&mut out, ".");
        push_decimal(&mut out, (self.addr % 256) as u64);
        push_text(&mut out, "/");
        push_decimal(&mut out, self.len as u64);
        assert(out@ =~= self.written());
        out
    }
}

/// The address that an app answers to lies in its prefix.
pub proof fn hosts_lie_in_their_prefix(p: Prefix)
    requires
        p.len <= 32,
    ensures
        in_prefix(p.addr, p.len, p.host()),
{
    let a = p.addr;
    let m = mask_of(p.len);
    if p.len < 32 {
        if p.len == 0 {
            assert(a & 0 == ((a & 0) | 1) & 0) by (bit_vector);
        } else {
            let k = (32 - p.len) as u32;
            assert(1 <= k < 32 ==> a & (0xFFFF_FFFFu32 << k) == ((a & (0xFFFF_FFFFu32 << k)) | 1)
                & (0xFFFF_FFFFu32 << k)) by (bit_vector);
        }
    }
}

/// Two prefixes overlap if and only if some address lies in both.
pub proof fn overlap_is_a_shared_address(p: Prefix, q: Prefix)
    ensures
        p.meets(q) <==> exists|ip: u32| #[trigger]
            in_prefix(p.addr, p.len, ip) && in_prefix(q.addr, q.len, ip),
        p.meets(q) == q.meets(p),
{
    let (s, l) = if p.len <= q.len {
        (p, q)
    } else {
        (q, p)
    };
    lemma_masks_nest(s.len, l.len);
    let m = mask_of(s.len);
    let n = mask_of(l.len);
    if p.meets(q) {
        assert(in_prefix(s.addr, s.len, l.addr) && in_prefix(l.addr, l.len, l.addr));
        assert(in_prefix(p.addr, p.len, l.addr) && in_prefix(q.addr, q.len, l.addr));
    }
    assert forall|ip: u32| #[trigger]
        in_prefix(p.addr, p.len, ip) && in_prefix(q.addr, q.len, ip) implies p.meets(q) by {
        let a = s.addr;
        let b = l.addr;
        assert((b & m) == (a & m)) by (bit_vector)
            requires
                m & n == m,
                (ip & m) == (a & m),
                (ip & n) == (b & n),
        ;
    }
}

proof fn lemma_masks_nest(a: u8, b: u8)
    requires
        a <= b,
    ensures
        mask_of(a) & mask_of(b) == mask_of(a),
{
    let m = mask_of(a);
    let n = mask_of(b);
    if a == 0 {
        assert(0u32 & n == 0) by (bit_vector);
    } else if b >= 32 {
        assert(m & 0xFFFF_FFFF == m) by (bit_vector);
    } else {
        let x = (32 - a) as u32;
        let y = (32 - b) as u32;
        assert((0xFFFF_FFFFu32 << x) & (0xFFFF_FFFFu32 << y) == (0xFFFF_FFFFu32 << x))
            by (bit_vector)
            requires
                y <= x,
                x < 32,
        ;
    }
}

proof fn lemma_octet(n: nat)
    requires
        n <= 255,
    ensures
        number(decimal(n), 10, 255) == Some(n),
{
    lemma_decimal(n);
    assert(digit_value('+', 10) is None);
    assert(decimal(n)[0] != '+');
}

proof fn lemma_place_after(a: Seq<char>, c: char, b: Seq<char>)
    requires
        forall|i: int| 0 <= i < a.len() ==> #[trigger] a[i] != c,
    ensures
        place_of(a + seq![c] + b, c, 0) == a.len(),
{
    let s = a + seq![c] + b;
    lemma_place_of(s, c, 0);
    let k = place_of(s, c, 0);
    assert(s[a.len() as int] == c);
    if k < a.len() {
        assert(s[k] == a[k]);
    }
}

proof fn lemma_piece(a: Seq<char>, c: char, b: Seq<char>)
    requires
        forall|i: int| 0 <= i < a.len() ==> #[trigger] a[i] != c,
    ensures
        pieces(a + seq![c] + b, c) == seq![a] + pieces(b, c),
{
    lemma_place_after(a, c, b);
    let s = a + seq![c] + b;
    assert(s.take(a.len() as int) =~= a);
    assert(s.skip(a.len() as int + 1) =~= b);
}

proof fn lemma_last_piece(a: Seq<char>, c: char)
    requires
        forall|i: int| 0 <= i < a.len() ==> #[trigger] a[i] != c,
    ensures
        pieces(a, c) == seq![a],
{
    lemma_place_of(a, c, 0);
}

proof fn lemma_no_mark(n: nat, c: char)
    requires
        c == '.' || c == '/',
    ensures
        forall|i: int| 0 <= i < decimal(n).len() ==> #[trigger] decimal(n)[i] != c,
{
    lemma_decimal(n);
    assert(digit_value('.', 10) is None && digit_value('/', 10) is None);
}

/// Four pieces with a character between them.
pub open spec fn four(a: Seq<char>, b: Seq<char>, c: Seq<char>, d: Seq<char>, m: char) -> Seq<char> {
    a + seq![m] + (b + seq![m] + (c + seq![m] + d))
}

pub open spec fn lacks(s: Seq<char>, c: char) -> bool {
    forall|i: int| 0 <= i < s.len() ==> #[trigger] s[i] != c
}

proof fn lemma_four(a: Seq<char>, b: Seq<char>, c: Seq<char>, d: Seq<char>, m: char)
    requires
        lacks(a, m),
        lacks(b, m),
        lacks(c, m),
        lacks(d, m),
    ensures
        pieces(four(a, b, c, d, m), m) == seq![a, b, c, d],
{
    let tail2 = c + seq![m] + d;
    let tail1 = b + seq![m] + tail2;
    lemma_piece(a, m, tail1);
    lemma_piece(b, m, tail2);
    lemma_piece(c, m, d);
    lemma_last_piece(d, m);
    assert(pieces(four(a, b, c, d, m), m) =~= seq![a, b, c, d]);
}

proof fn lemma_lacks(a: Seq<char>, b: Seq<char>, m: char, c: char)
    requires
        lacks(a, c),
        lacks(b, c),
        m != c,
    ensures
        lacks(a + seq![m] + b, c),
{
    let s = a + seq![m] + b;
    assert forall|i: int| 0 <= i < s.len() implies #[trigger] s[i] != c by {
        if i < a.len() {
            assert(s[i] == a[i]);
        } else if i > a.len() {
            assert(s[i] == b[i - a.len() - 1]);
        }
    }
}

proof fn lemma_written(p: Prefix)
    ensures
        p.written() == four(
            decimal((p.addr / 0x100_0000) as nat),
            decimal(((p.addr / 0x1_0000) % 256) as nat),
            decimal(((p.addr / 0x100) % 256) as nat),
            decimal((p.addr % 256) as nat),
            '.',
        ) + seq!['/'] + decimal(p.len as nat),
{
    reveal_strlit(".");
    reveal_strlit("/");
    assert("."@ =~= seq!['.']);
    assert("/"@ =~= seq!['/']);
    assert(p.written() =~= four(
        decimal((p.addr / 0x100_0000) as nat),
        decimal(((p.addr / 0x1_0000) % 256) as nat),
        decimal(((p.addr / 0x100) % 256) as nat),
        decimal((p.addr % 256) as nat),
        '.',
    ) + seq!['/'] + decimal(p.len as nat));
}

/// A prefix that was written down reads back.
pub proof fn prefixes_read_back(p: Prefix)
    requires
        p.len <= 32,
    ensures
        prefix_in(p.written()) == Ok::<Prefix, Seq<char>>(p),
{
    let n0 = (p.addr / 0x100_0000) as nat;
    let n1 = ((p.addr / 0x1_0000) % 256) as nat;
    let n2 = ((p.addr / 0x100) % 256) as nat;
    let n3 = (p.addr % 256) as nat;
    let (a, b, c, d) = (decimal(n0), decimal(n1), decimal(n2), decimal(n3));
    let e = decimal(p.len as nat);
    lemma_octet(n0);
    lemma_octet(n1);
    lemma_octet(n2);
    lemma_octet(n3);
    lemma_octet(p.len as nat);
    assert(lacks(a, '.') && lacks(a, '/')) by {
        lemma_no_mark(n0, '.');
        lemma_no_mark(n0, '/');
    }
    assert(lacks(b, '.') && lacks(b, '/')) by {
        lemma_no_mark(n1, '.');
        lemma_no_mark(n1, '/');
    }
    assert(lacks(c, '.') && lacks(c, '/')) by {
        lemma_no_mark(n2, '.');
        lemma_no_mark(n2, '/');
    }
    assert(lacks(d, '.') && lacks(d, '/')) by {
        lemma_no_mark(n3, '.');
        lemma_no_mark(n3, '/');
    }
    lemma_written(p);
    lemma_four(a, b, c, d, '.');
    let head = four(a, b, c, d, '.');
    let s = p.written();
    assert(lacks(head, '/')) by {
        lemma_lacks(c, d, '.', '/');
        lemma_lacks(b, c + seq!['.'] + d, '.', '/');
        lemma_lacks(a, b + seq!['.'] + (c + seq!['.'] + d), '.', '/');
    }
    assert(s == head + seq!['/'] + e);
    lemma_place_after(head, '/', e);
    let k = head.len() as int;
    assert(s.take(k) =~= head);
    assert(s.skip(k + 1) =~= e);
    assert(quad(n0, n1, n2, n3) == p.addr);
}

} // verus!
