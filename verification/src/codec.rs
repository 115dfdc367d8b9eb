//! The byte form of everything that crosses the wire.
//!
//! The encoding is postcard's: integers are variable-length, structures are
//! their fields one after the other, an alternative is its number followed by
//! its fields, and a list is its length followed by its items.

use vstd::prelude::*;

verus! {

/// The error type of the `postcard` crate; opaque here.
#[verifier::external_type_specification]
#[verifier::external_body]
pub struct ExPostcardError(postcard::Error);

/// Why bytes could not be read as a value.
#[derive(Debug)]
pub enum DecodeError {
    /// The codec refused an integer: the bytes ended, or it does not fit.
    Postcard(postcard::Error),
    /// The bytes ended within a value.
    UnexpectedEnd,
    /// A number that stands for none of the alternatives.
    UnknownTag,
    /// A truth value that is neither 0 nor 1.
    BadBool,
    /// A presence mark that is neither 0 nor 1.
    BadOption,
}

/// The words in which `postcard` reports an error.
pub uninterp spec fn error_words(e: postcard::Error) -> Seq<char>;

/// The variable-length form of a number: seven bits per byte, low bits first,
/// the top bit set on every byte but the last.
#[verifier::opaque]
pub open spec fn varint(v: nat) -> Seq<u8>
    decreases v,
{
    if v < 128 {
        seq![v as u8]
    } else {
        seq![(v % 128 + 128) as u8] + varint(v / 128)
    }
}

/// Reads a variable-length number of at most `max` bytes, of which a last byte
/// in the last place is at most `last`. Gives the number and what follows it.
#[verifier::opaque]
pub open spec fn take_varint(b: Seq<u8>, max: nat, last: u8) -> Option<(nat, Seq<u8>)>
    decreases max,
{
    if max == 0 || b.len() == 0 {
        None
    } else if b[0] < 128 {
        if max == 1 && b[0] > last {
            None
        } else {
            Some((b[0] as nat, b.drop_first()))
        }
    } else {
        match take_varint(b.drop_first(), (max - 1) as nat, last) {
            Some((v, rest)) => Some(((b[0] - 128 + 128 * v) as nat, rest)),
            None => None,
        }
    }
}

/// How many numbers fit `max` bytes.
pub open spec fn varint_bound(max: nat, last: u8) -> nat
    decreases max,
{
    if max <= 1 {
        (last + 1) as nat
    } else {
        128 * varint_bound((max - 1) as nat, last)
    }
}

/// A number that fits is read back as it was written, and what follows it is
/// left alone.
pub proof fn varints_read_back(v: nat, rest: Seq<u8>, max: nat, last: u8)
    requires
        max >= 1,
        last < 128,
        v < varint_bound(max, last),
    ensures
        take_varint(varint(v) + rest, max, last) == Some((v, rest)),
    decreases max,
{
    reveal_with_fuel(varint, 2);
    reveal_with_fuel(take_varint, 2);
    let b = varint(v) + rest;
    if v < 128 {
        assert(b.drop_first() =~= rest);
    } else {
        assert(b.drop_first() =~= varint(v / 128) + rest);
        varints_read_back(v / 128, rest, (max - 1) as nat, last);
    }
}

proof fn lemma_bounds()
    ensures
        varint_bound(3, 3) == 0x1_0000,
        varint_bound(5, 15) == 0x1_0000_0000,
        varint_bound(10, 1) == 0x1_0000_0000_0000_0000,
{
    reveal_with_fuel(varint_bound, 11);
}

/// `postcard::to_allocvec` on a `u64`: its variable-length form. The shorter
/// unsigned integers have the same form.
#[verifier::external_body]
fn encode_u64(v: u64) -> (r: Vec<u8>)
    ensures
        r@ == varint(v as nat),
{
    postcard::to_allocvec(&v).unwrap()
}

/// `postcard::take_from_bytes` for a `u16`: a variable-length number of at most
/// three bytes whose value fits, and the bytes behind it.
#[verifier::external_body]
fn decode_u16<'a>(b: &'a [u8]) -> (r: Result<(u16, &'a [u8]), postcard::Error>)
    ensures
        match r {
            Ok((v, rest)) => take_varint(b@, 3, 3) == Some((v as nat, rest@)),
            Err(_) => take_varint(b@, 3, 3) is None,
        },
{
    postcard::take_from_bytes(b)
}

/// `postcard::take_from_bytes` for a `u32`: a variable-length number of at most
/// five bytes whose value fits, and the bytes behind it.
#[verifier::external_body]
fn decode_u32<'a>(b: &'a [u8]) -> (r: Result<(u32, &'a [u8]), postcard::Error>)
    ensures
        match r {
            Ok((v, rest)) => take_varint(b@, 5, 15) == Some((v as nat, rest@)),
            Err(_) => take_varint(b@, 5, 15) is None,
        },
{
    postcard::take_from_bytes(b)
}

/// `postcard::take_from_bytes` for a `u64`: a variable-length number of at most
/// ten bytes whose value fits, and the bytes behind it.
#[verifier::external_body]
fn decode_u64<'a>(b: &'a [u8]) -> (r: Result<(u64, &'a [u8]), postcard::Error>)
    ensures
        match r {
            Ok((v, rest)) => take_varint(b@, 10, 1) == Some((v as nat, rest@)),
            Err(_) => take_varint(b@, 10, 1) is None,
        },
{
    postcard::take_from_bytes(b)
}

/// The `Display` text of a `postcard::Error`: always the same words for the same
/// error.
#[verifier::external_body]
fn postcard_error_text(e: &postcard::Error) -> (r: String)
    ensures
        r@ == error_words(*e),
{
    format!("{}", e)
}

impl DecodeError {
    /// The error in words.
    pub open spec fn words(self) -> Seq<char> {
        match self {
            DecodeError::Postcard(e) => error_words(e),
            DecodeError::UnexpectedEnd => "Hit the end of buffer, expected more data"@,
            DecodeError::UnknownTag => "Serde Deserialization Error"@,
            DecodeError::BadBool => "Found a bool that wasn't 0 or 1"@,
            DecodeError::BadOption => "Found an Option discriminant that wasn't 0 or 1"@,
        }
    }

    /// The error in words. What the codec says of an integer is its own.
    pub fn text(&self) -> (r: String)
        ensures
            r@ == self.words(),
    {
        match self {
            DecodeError::Postcard(e) => postcard_error_text(e),
            DecodeError::UnexpectedEnd => "Hit the end of buffer, expected more data".to_owned(),
            DecodeError::UnknownTag => "Serde Deserialization Error".to_owned(),
            DecodeError::BadBool => "Found a bool that wasn't 0 or 1".to_owned(),
            DecodeError::BadOption => {
                "Found an Option discriminant that wasn't 0 or 1".to_owned()
            },
        }
    }
}

/// A type with a byte form. `V` is what a value says, `bytes` its byte form and
/// `parse` the way back, with what follows the value.
pub trait Wire: Sized {
    type V;

    spec fn val(&self) -> Self::V;

    spec fn bytes(v: Self::V) -> Seq<u8>;

    spec fn parse(b: Seq<u8>) -> Option<(Self::V, Seq<u8>)>;

    /// Whether every list in the value is short enough for its length to be
    /// written.
    spec fn fits(v: Self::V) -> bool;

    /// What was written is read back, whatever follows it.
    proof fn reads_back(v: Self::V, rest: Seq<u8>)
        requires
            Self::fits(v),
        ensures
            Self::parse(Self::bytes(v) + rest) == Some((v, rest)),
    ;

    /// Appends the byte form of the value.
    fn put(&self, out: &mut Vec<u8>)
        ensures
            final(out)@ == old(out)@ + Self::bytes(self.val()),
    ;

    /// Reads a value off the front of the bytes.
    fn get<'a>(b: &'a [u8]) -> (r: Result<(Self, &'a [u8]), DecodeError>)
        ensures
            match r {
                Ok((v, rest)) => Self::parse(b@) == Some((v.val(), rest@)),
                Err(_) => Self::parse(b@) is None,
            },
    ;
}

/// The byte form of a value.
pub fn to_bytes<T: Wire>(v: &T) -> (r: Vec<u8>)
    ensures
        r@ == T::bytes(v.val()),
{
    let mut out: Vec<u8> = Vec::new();
    v.put(&mut out);
    assert(out@ =~= T::bytes(v.val()));
    out
}

/// Reads a value from the front of the bytes; what follows it is ignored.
pub fn from_bytes<T: Wire>(b: &[u8]) -> (r: Result<T, DecodeError>)
    ensures
        match r {
            Ok(v) => T::parse(b@) matches Some((w, _)) && w == v.val(),
            Err(_) => T::parse(b@) is None,
        },
{
    match T::get(b) {
        Ok((v, _)) => Ok(v),
        Err(e) => Err(e),
    }
}

/// Reading what was written gives the value back.
pub proof fn values_survive_the_wire<T: Wire>(v: T::V)
    requires
        T::fits(v),
    ensures
        T::parse(T::bytes(v)) == Some((v, Seq::<u8>::empty())),
{
    T::reads_back(v, Seq::empty());
    assert(T::bytes(v) + Seq::<u8>::empty() =~= T::bytes(v));
}

/// Appending is associative.
pub proof fn lemma_assoc(a: Seq<u8>, b: Seq<u8>, c: Seq<u8>)
    ensures
        (a + b) + c == a + (b + c),
{
    assert((a + b) + c =~= a + (b + c));
}

fn put_varint(v: u64, out: &mut Vec<u8>)
    ensures
        final(out)@ == old(out)@ + varint(v as nat),
{
    let mut b = encode_u64(v);
    out.append(&mut b);
}

impl Wire for u8 {
    type V = u8;

    open spec fn val(&self) -> u8 {
        *self
    }

    open spec fn bytes(v: u8) -> Seq<u8> {
        seq![v]
    }

    open spec fn parse(b: Seq<u8>) -> Option<(u8, Seq<u8>)> {
        if b.len() > 0 {
            Some((b[0], b.drop_first()))
        } else {
            None
        }
    }

    open spec fn fits(v: u8) -> bool {
        true
    }

    proof fn reads_back(v: u8, rest: Seq<u8>) {
        assert((seq![v] + rest).drop_first() =~= rest);
    }

    fn put(&self, out: &mut Vec<u8>) {
        out.push(*self);
        assert(out@ =~= old(out)@ + seq![*self]);
    }

    fn get<'a>(b: &'a [u8]) -> (r: Result<(u8, &'a [u8]), DecodeError>) {
        if b.len() == 0 {
            assert(<u8 as Wire>::parse(b@) is None);
            return Err(DecodeError::UnexpectedEnd);
        }
        let rest = vstd::slice::slice_subrange(b, 1, b.len());
        assert(rest@ =~= b@.drop_first());
        let v: u8 = b[0];
        assert(v.val() == b@[0]);
        assert(<u8 as Wire>::parse(b@) == Some((v.val(), rest@)));
        Ok((v, rest))
    }
}

impl Wire for bool {
    type V = bool;

    open spec fn val(&self) -> bool {
        *self
    }

    open spec fn bytes(v: bool) -> Seq<u8> {
        seq![if v { 1u8 } else { 0u8 }]
    }

    open spec fn parse(b: Seq<u8>) -> Option<(bool, Seq<u8>)> {
        if b.len() > 0 && b[0] <= 1 {
            Some((b[0] == 1, b.drop_first()))
        } else {
            None
        }
    }

    open spec fn fits(v: bool) -> bool {
        true
    }

    proof fn reads_back(v: bool, rest: Seq<u8>) {
        assert((Self::bytes(v) + rest).drop_first() =~= rest);
    }

    fn put(&self, out: &mut Vec<u8>) {
        out.push(if *self {
            1
        } else {
            0
        });
        assert(out@ =~= old(out)@ + Self::bytes(*self));
    }

    fn get<'a>(b: &'a [u8]) -> (r: Result<(bool, &'a [u8]), DecodeError>) {
        let (v, rest) = u8::get(b)?;
        if v > 1 {
            return Err(DecodeError::BadBool);
        }
        Ok((v == 1, rest))
    }
}

impl Wire for u16 {
    type V = u16;

    open spec fn val(&self) -> u16 {
        *self
    }

    open spec fn bytes(v: u16) -> Seq<u8> {
        varint(v as nat)
    }

    open spec fn parse(b: Seq<u8>) -> Option<(u16, Seq<u8>)> {
        match take_varint(b, 3, 3) {
            Some((v, rest)) => Some((v as u16, rest)),
            None => None,
        }
    }

    open spec fn fits(v: u16) -> bool {
        true
    }

    proof fn reads_back(v: u16, rest: Seq<u8>) {
        lemma_bounds();
        varints_read_back(v as nat, rest, 3, 3);
    }

    fn put(&self, out: &mut Vec<u8>) {
        put_varint(*self as u64, out);
    }

    fn get<'a>(b: &'a [u8]) -> (r: Result<(u16, &'a [u8]), DecodeError>) {
        match decode_u16(b) {
            Ok(x) => Ok(x),
            Err(e) => Err(DecodeError::Postcard(e)),
        }
    }
}

impl Wire for u32 {
    type V = u32;

    open spec fn val(&self) -> u32 {
        *self
    }

    open spec fn bytes(v: u32) -> Seq<u8> {
        varint(v as nat)
    }

    open spec fn parse(b: Seq<u8>) -> Option<(u32, Seq<u8>)> {
        match take_varint(b, 5, 15) {
            Some((v, rest)) => Some((v as u32, rest)),
            None => None,
        }
    }

    open spec fn fits(v: u32) -> bool {
        true
    }

    proof fn reads_back(v: u32, rest: Seq<u8>) {
        lemma_bounds();
        varints_read_back(v as nat, rest, 5, 15);
    }

    fn put(&self, out: &mut Vec<u8>) {
        put_varint(*self as u64, out);
    }

    fn get<'a>(b: &'a [u8]) -> (r: Result<(u32, &'a [u8]), DecodeError>) {
        match decode_u32(b) {
            Ok(x) => Ok(x),
            Err(e) => Err(DecodeError::Postcard(e)),
        }
    }
}

impl Wire for u64 {
    type V = u64;

    open spec fn val(&self) -> u64 {
        *self
    }

    open spec fn bytes(v: u64) -> Seq<u8> {
        varint(v as nat)
    }

    open spec fn parse(b: Seq<u8>) -> Option<(u64, Seq<u8>)> {
        match take_varint(b, 10, 1) {
            Some((v, rest)) => Some((v as u64, rest)),
            None => None,
        }
    }

    open spec fn fits(v: u64) -> bool {
        true
    }

    proof fn reads_back(v: u64, rest: Seq<u8>) {
        lemma_bounds();
        varints_read_back(v as nat, rest, 10, 1);
    }

    fn put(&self, out: &mut Vec<u8>) {
        put_varint(*self, out);
    }

    fn get<'a>(b: &'a [u8]) -> (r: Result<(u64, &'a [u8]), DecodeError>) {
        match decode_u64(b) {
            Ok(x) => Ok(x),
            Err(e) => Err(DecodeError::Postcard(e)),
        }
    }
}

/// A signed number folded to an unsigned one: 0, -1, 1, -2, 2 and so on.
pub open spec fn zigzag(v: i32) -> u32 {
    if v >= 0 {
        (2 * v) as u32
    } else {
        (-2 * v - 1) as u32
    }
}

/// The way back.
pub open spec fn unzigzag(v: u32) -> i32 {
    if v % 2 == 0 {
        (v / 2) as i32
    } else {
        (-(v / 2) - 1) as i32
    }
}

impl Wire for i32 {
    type V = i32;

    open spec fn val(&self) -> i32 {
        *self
    }

    open spec fn bytes(v: i32) -> Seq<u8> {
        varint(zigzag(v) as nat)
    }

    open spec fn parse(b: Seq<u8>) -> Option<(i32, Seq<u8>)> {
        match u32::parse(b) {
            Some((v, rest)) => Some((unzigzag(v), rest)),
            None => None,
        }
    }

    open spec fn fits(v: i32) -> bool {
        true
    }

    proof fn reads_back(v: i32, rest: Seq<u8>) {
        u32::reads_back(zigzag(v), rest);
    }

    fn put(&self, out: &mut Vec<u8>) {
        let z: u64 = if *self >= 0 {
            (*self as i64 * 2) as u64
        } else {
            ((-(*self as i64)) * 2 - 1) as u64
        };
        put_varint(z, out);
    }

    fn get<'a>(b: &'a [u8]) -> (r: Result<(i32, &'a [u8]), DecodeError>) {
        let (v, rest) = u32::get(b)?;
        let r: i32 = if v % 2 == 0 {
            (v / 2) as i32
        } else {
            (-((v / 2) as i64) - 1) as i32
        };
        Ok((r, rest))
    }
}

impl<T: Wire> Wire for Option<T> {
    type V = Option<T::V>;

    open spec fn val(&self) -> Option<T::V> {
        match self {
            Some(v) => Some(v.val()),
            None => None,
        }
    }

    open spec fn bytes(v: Option<T::V>) -> Seq<u8> {
        match v {
            Some(x) => seq![1u8] + T::bytes(x),
            None => seq![0u8],
        }
    }

    open spec fn parse(b: Seq<u8>) -> Option<(Option<T::V>, Seq<u8>)> {
        match bool::parse(b) {
            Some((true, r)) => match T::parse(r) {
                Some((v, rest)) => Some((Some(v), rest)),
                None => None,
            },
            Some((false, rest)) => Some((None, rest)),
            None => None,
        }
    }

    open spec fn fits(v: Option<T::V>) -> bool {
        match v {
            Some(x) => T::fits(x),
            None => true,
        }
    }

    proof fn reads_back(v: Option<T::V>, rest: Seq<u8>) {
        match v {
            Some(x) => {
                T::reads_back(x, rest);
                bool::reads_back(true, T::bytes(x) + rest);
                assert(Self::bytes(v) + rest =~= bool::bytes(true) + (T::bytes(x) + rest));
            },
            None => {
                bool::reads_back(false, rest);
            },
        }
    }

    fn put(&self, out: &mut Vec<u8>) {
        match self {
            Some(v) => {
                true.put(out);
                v.put(out);
                assert(out@ =~= old(out)@ + Self::bytes(self.val()));
            },
            None => false.put(out),
        }
    }

    fn get<'a>(b: &'a [u8]) -> (r: Result<(Option<T>, &'a [u8]), DecodeError>) {
        let (mark, r) = u8::get(b)?;
        if mark > 1 {
            return Err(DecodeError::BadOption);
        }
        if mark == 1 {
            let (v, rest) = T::get(r)?;
            Ok((Some(v), rest))
        } else {
            Ok((None, r))
        }
    }
}

impl<A: Wire, B: Wire> Wire for (A, B) {
    type V = (A::V, B::V);

    open spec fn val(&self) -> (A::V, B::V) {
        (self.0.val(), self.1.val())
    }

    open spec fn bytes(v: (A::V, B::V)) -> Seq<u8> {
        A::bytes(v.0) + B::bytes(v.1)
    }

    open spec fn parse(b: Seq<u8>) -> Option<((A::V, B::V), Seq<u8>)> {
        match A::parse(b) {
            Some((x, r)) => match B::parse(r) {
                Some((y, rest)) => Some(((x, y), rest)),
                None => None,
            },
            None => None,
        }
    }

    open spec fn fits(v: (A::V, B::V)) -> bool {
        A::fits(v.0) && B::fits(v.1)
    }

    proof fn reads_back(v: (A::V, B::V), rest: Seq<u8>) {
        B::reads_back(v.1, rest);
        A::reads_back(v.0, B::bytes(v.1) + rest);
        assert(Self::bytes(v) + rest =~= A::bytes(v.0) + (B::bytes(v.1) + rest));
    }

    fn put(&self, out: &mut Vec<u8>) {
        self.0.put(out);
        self.1.put(out);
        assert(out@ =~= old(out)@ + Self::bytes(self.val()));
    }

    fn get<'a>(b: &'a [u8]) -> (r: Result<((A, B), &'a [u8]), DecodeError>) {
        let (x, r) = A::get(b)?;
        let (y, rest) = B::get(r)?;
        Ok(((x, y), rest))
    }
}

/// What the items of a list say.
pub open spec fn vals<T: Wire>(s: Seq<T>) -> Seq<T::V> {
    s.map_values(|t: T| t.val())
}

/// The items of a list, one after the other.
pub open spec fn items_bytes<T: Wire>(s: Seq<T::V>) -> Seq<u8>
    decreases s.len(),
{
    if s.len() == 0 {
        Seq::empty()
    } else {
        items_bytes::<T>(s.drop_last()) + T::bytes(s.last())
    }
}

/// Reads `n` items.
pub open spec fn items_parse<T: Wire>(n: nat, b: Seq<u8>) -> Option<(Seq<T::V>, Seq<u8>)>
    decreases n,
{
    if n == 0 {
        Some((Seq::empty(), b))
    } else {
        match items_parse::<T>((n - 1) as nat, b) {
            Some((s, r)) => match T::parse(r) {
                Some((v, rest)) => Some((s.push(v), rest)),
                None => None,
            },
            None => None,
        }
    }
}

/// Whether every item of a list fits.
pub open spec fn items_fit<T: Wire>(s: Seq<T::V>) -> bool {
    forall|i: int| 0 <= i < s.len() ==> T::fits(#[trigger] s[i])
}

proof fn lemma_items_read_back<T: Wire>(s: Seq<T::V>, rest: Seq<u8>)
    requires
        items_fit::<T>(s),
    ensures
        items_parse::<T>(s.len(), items_bytes::<T>(s) + rest) == Some((s, rest)),
    decreases s.len(),
{
    if s.len() == 0 {
        assert(items_bytes::<T>(s) + rest =~= rest);
        assert(s =~= Seq::empty());
    } else {
        let t = s.drop_last();
        assert(items_fit::<T>(t)) by {
            assert forall|i: int| 0 <= i < t.len() implies T::fits(#[trigger] t[i]) by {
                assert(T::fits(s[i]));
            }
        }
        assert(T::fits(s[s.len() - 1]));
        lemma_items_read_back::<T>(t, T::bytes(s.last()) + rest);
        T::reads_back(s.last(), rest);
        assert(items_bytes::<T>(s) + rest =~= items_bytes::<T>(t) + (T::bytes(s.last()) + rest));
        assert(t.push(s.last()) =~= s);
    }
}

proof fn lemma_items_parse_stuck<T: Wire>(n: nat, k: nat, b: Seq<u8>)
    requires
        k <= n,
        items_parse::<T>(k, b) is None,
    ensures
        items_parse::<T>(n, b) is None,
    decreases n,
{
    if k < n {
        lemma_items_parse_stuck::<T>((n - 1) as nat, k, b);
    }
}

impl<T: Wire> Wire for Vec<T> {
    type V = Seq<T::V>;

    open spec fn val(&self) -> Seq<T::V> {
        vals::<T>(self@)
    }

    open spec fn bytes(v: Seq<T::V>) -> Seq<u8> {
        varint(v.len()) + items_bytes::<T>(v)
    }

    open spec fn parse(b: Seq<u8>) -> Option<(Seq<T::V>, Seq<u8>)> {
        match take_varint(b, 10, 1) {
            Some((n, r)) => items_parse::<T>(n, r),
            None => None,
        }
    }

    open spec fn fits(v: Seq<T::V>) -> bool {
        v.len() <= u64::MAX && items_fit::<T>(v)
    }

    proof fn reads_back(v: Seq<T::V>, rest: Seq<u8>) {
        lemma_bounds();
        varints_read_back(v.len(), items_bytes::<T>(v) + rest, 10, 1);
        lemma_items_read_back::<T>(v, rest);
        assert(Self::bytes(v) + rest =~= varint(v.len()) + (items_bytes::<T>(v) + rest));
    }

    fn put(&self, out: &mut Vec<u8>) {
        put_varint(self.len() as u64, out);
        let ghost head = out@;
        let ghost v = self.val();
        let mut i: usize = 0;
        assert(head =~= head + items_bytes::<T>(v.take(0)));
        while i < self.len()
            invariant
                i <= self.len(),
                v == vals::<T>(self@),
                out@ == head + items_bytes::<T>(v.take(i as int)),
            decreases self.len() - i,
        {
            self[i].put(out);
            proof {
                let t = v.take(i + 1);
                assert(t.drop_last() =~= v.take(i as int));
                assert(t.last() == self@[i as int].val());
                assert(out@ =~= head + items_bytes::<T>(t));
            }
            i += 1;
        }
        assert(v.take(i as int) =~= v);
        assert(out@ =~= old(out)@ + Self::bytes(v));
    }

    fn get<'a>(b: &'a [u8]) -> (r: Result<(Vec<T>, &'a [u8]), DecodeError>) {
        let (n, items) = match decode_u64(b) {
            Ok(x) => x,
            Err(e) => return Err(DecodeError::Postcard(e)),
        };
        let mut out: Vec<T> = Vec::new();
        let mut rest: &'a [u8] = items;
        let mut i: u64 = 0;
        assert(vals::<T>(out@) =~= Seq::<T::V>::empty());
        while i < n
            invariant
                i <= n,
                take_varint(b@, 10, 1) == Some((n as nat, items@)),
                items_parse::<T>(i as nat, items@) == Some((vals::<T>(out@), rest@)),
            decreases n - i,
        {
            match T::get(rest) {
                Ok((v, r)) => {
                    let ghost before = vals::<T>(out@);
                    out.push(v);
                    rest = r;
                    assert(vals::<T>(out@) =~= before.push(v.val()));
                },
                Err(e) => {
                    proof {
                        lemma_items_parse_stuck::<T>(n as nat, (i + 1) as nat, items@);
                    }
                    return Err(e);
                },
            }
            i += 1;
        }
        Ok((out, rest))
    }
}

} // verus!
