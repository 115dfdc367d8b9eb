//! The announcements that switches flood.

use crate::codec::{lemma_assoc, DecodeError, Wire};
use vstd::prelude::*;

verus! {

/// A customer prefix.
#[derive(Debug, Clone, Copy, PartialEq, Eq, Hash, Structural)]
pub struct Prefix {
    pub network: u32,
    pub len: u8,
}

impl Wire for Prefix {
    type V = Prefix;

    open spec fn val(&self) -> Prefix {
        *self
    }

    open spec fn bytes(v: Prefix) -> Seq<u8> {
        u32::bytes(v.network) + (u8::bytes(v.len))
    }

    open spec fn parse(b: Seq<u8>) -> Option<(Prefix, Seq<u8>)> {
        match u32::parse(b) {
            Some((network, r1)) => match u8::parse(r1) {
                Some((len, r2)) => Some((Prefix { network, len }, r2)),
                None => None,
            },
            None => None,
        }
    }

    open spec fn fits(v: Prefix) -> bool {
        true
    }

    proof fn reads_back(v: Prefix, rest: Seq<u8>) {
        u32::reads_back(v.network, u8::bytes(v.len) + rest);
        u8::reads_back(v.len, rest);
        lemma_assoc(u32::bytes(v.network), u8::bytes(v.len), rest);
    }

    fn put(&self, out: &mut Vec<u8>) {
        self.network.put(out);
        self.len.put(out);
        proof {
            lemma_assoc(old(out)@, u32::bytes(self.network), u8::bytes(self.len));
        }
    }

    fn get<'a>(b: &'a [u8]) -> (r: Result<(Prefix, &'a [u8]), DecodeError>) {
        let (network, r1) = u32::get(b)?;
        let (len, r2) = u8::get(r1)?;
        Ok((Prefix { network, len }, r2))
    }
}

/// One origin's adjacencies and originated prefixes, as they travel.
#[derive(Debug)]
pub struct LspMessage {
    pub origin: u32,
    pub seq: u32,
    /// The neighbours of the origin, each with the cost of the link to it.
    pub adjacencies: Vec<(u32, u32)>,
    pub prefixes: Vec<Prefix>,
}

/// What a `LspMessage` says.
#[verifier::ext_equal]
pub struct LspV {
    pub origin: u32,
    pub seq: u32,
    pub adjacencies: Seq<(u32, u32)>,
    pub prefixes: Seq<Prefix>,
}

impl View for LspMessage {
    type V = LspV;

    open spec fn view(&self) -> LspV {
        self.val()
    }
}

impl Wire for LspMessage {
    type V = LspV;

    open spec fn val(&self) -> LspV {
        LspV {
            origin: self.origin,
            seq: self.seq,
            adjacencies: self.adjacencies.val(),
            prefixes: self.prefixes.val(),
        }
    }

    open spec fn bytes(v: LspV) -> Seq<u8> {
        u32::bytes(v.origin) + (u32::bytes(v.seq) + (<Vec<(u32, u32)> as Wire>::bytes(v.adjacencies) + (<Vec<Prefix> as Wire>::bytes(v.prefixes))))
    }

    open spec fn parse(b: Seq<u8>) -> Option<(LspV, Seq<u8>)> {
        match u32::parse(b) {
            Some((origin, r1)) => match u32::parse(r1) {
                Some((seq, r2)) => match <Vec<(u32, u32)> as Wire>::parse(r2) {
                    Some((adjacencies, r3)) => match <Vec<Prefix> as Wire>::parse(r3) {
                        Some((prefixes, r4)) => Some((LspV { origin, seq, adjacencies, prefixes }, r4)),
                        None => None,
                    },
                    None => None,
                },
                None => None,
            },
            None => None,
        }
    }

    open spec fn fits(v: LspV) -> bool {
        <Vec<(u32, u32)> as Wire>::fits(v.adjacencies) && <Vec<Prefix> as Wire>::fits(v.prefixes)
    }

    proof fn reads_back(v: LspV, rest: Seq<u8>) {
        u32::reads_back(v.origin, u32::bytes(v.seq) + (<Vec<(u32, u32)> as Wire>::bytes(v.adjacencies) + (<Vec<Prefix> as Wire>::bytes(v.prefixes) + rest)));
        u32::reads_back(v.seq, <Vec<(u32, u32)> as Wire>::bytes(v.adjacencies) + (<Vec<Prefix> as Wire>::bytes(v.prefixes) + rest));
        <Vec<(u32, u32)> as Wire>::reads_back(v.adjacencies, <Vec<Prefix> as Wire>::bytes(v.prefixes) + rest);
        <Vec<Prefix> as Wire>::reads_back(v.prefixes, rest);
        lemma_assoc(<Vec<(u32, u32)> as Wire>::bytes(v.adjacencies), <Vec<Prefix> as Wire>::bytes(v.prefixes), rest);
        lemma_assoc(u32::bytes(v.seq), <Vec<(u32, u32)> as Wire>::bytes(v.adjacencies) + (<Vec<Prefix> as Wire>::bytes(v.prefixes)), rest);
        lemma_assoc(u32::bytes(v.origin), u32::bytes(v.seq) + (<Vec<(u32, u32)> as Wire>::bytes(v.adjacencies) + (<Vec<Prefix> as Wire>::bytes(v.prefixes))), rest);
    }

    fn put(&self, out: &mut Vec<u8>) {
        self.origin.put(out);
        self.seq.put(out);
        self.adjacencies.put(out);
        self.prefixes.put(out);
        proof {
            lemma_assoc((old(out)@ + u32::bytes(self.origin)) + u32::bytes(self.seq), <Vec<(u32, u32)> as Wire>::bytes(self.adjacencies.val()), <Vec<Prefix> as Wire>::bytes(self.prefixes.val()));
            lemma_assoc(old(out)@ + u32::bytes(self.origin), u32::bytes(self.seq), <Vec<(u32, u32)> as Wire>::bytes(self.adjacencies.val()) + (<Vec<Prefix> as Wire>::bytes(self.prefixes.val())));
            lemma_assoc(old(out)@, u32::bytes(self.origin), u32::bytes(self.seq) + (<Vec<(u32, u32)> as Wire>::bytes(self.adjacencies.val()) + (<Vec<Prefix> as Wire>::bytes(self.prefixes.val()))));
        }
    }

    fn get<'a>(b: &'a [u8]) -> (r: Result<(LspMessage, &'a [u8]), DecodeError>) {
        let (origin, r1) = u32::get(b)?;
        let (seq, r2) = u32::get(r1)?;
        let (adjacencies, r3) = <Vec<(u32, u32)> as Wire>::get(r2)?;
        let (prefixes, r4) = <Vec<Prefix> as Wire>::get(r3)?;
        Ok((LspMessage { origin, seq, adjacencies, prefixes }, r4))
    }
}

} // verus!
