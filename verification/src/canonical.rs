//! Canonicalization of structured signing payloads. The encoding is total
//! and injective over the payload's logical value, so no two semantically
//! different payloads are ever presented to the signer as the same bytes.

use vstd::prelude::*;
use vstd::string::StrSliceExecFns;
use vstd::utf8::encode_utf8;
use vstd::utf8::decode_utf8;
use crate::wire;
use crate::wire::u64_le;
use crate::wire::pow256;

verus! {

/// A transaction or attestation envelope as the orchestrator hands it in:
/// the chain it is bound to, the signer account's replay counters, and the
/// protocol-defined body bytes, which this library does not interpret.
pub struct SignDoc {
    pub chain_id: String,
    pub account_number: u64,
    pub sequence: u64,
    pub body: Vec<u8>,
}

/// The mathematical content of a `SignDoc`.
pub ghost struct SignDocView {
    pub chain_id: Seq<char>,
    pub account_number: u64,
    pub sequence: u64,
    pub body: Seq<u8>,
}

impl View for SignDoc {
    type V = SignDocView;

    open spec fn view(&self) -> SignDocView {
        SignDocView {
            chain_id: self.chain_id@,
            account_number: self.account_number,
            sequence: self.sequence,
            body: self.body@,
        }
    }
}

/// Whether the variable-length parts fit their eight-byte length fields.
/// Every `SignDoc` held in memory does.
pub open spec fn canon_encodable(d: SignDocView) -> bool {
    encode_utf8(d.chain_id).len() < pow256(8) && d.body.len() < pow256(8)
}

/// The canonical bytes of a payload: every variable-length field behind a
/// fixed-width length, every number fixed-width, so that distinct logical
/// values never share an encoding.
pub open spec fn canon_spec(d: SignDocView) -> Seq<u8> {
    let cb = encode_utf8(d.chain_id);
    u64_le(cb.len() as u64) + cb + u64_le(d.account_number) + u64_le(d.sequence) + u64_le(
        d.body.len() as u64,
    ) + d.body
}

/// Canonicalizes a payload; the result is exactly `canon_spec`.
pub fn canonical_bytes(doc: &SignDoc) -> (r: Vec<u8>)
    ensures
        r@ == canon_spec(doc@),
        canon_encodable(doc@),
{
    proof {
        reveal_with_fuel(pow256, 9);
    }
    let cb: Vec<u8> = doc.chain_id.as_str().as_bytes_vec();
    let mut out: Vec<u8> = Vec::new();
    wire::push_u64_le(&mut out, cb.len() as u64);
    wire::append_bytes(&mut out, &cb);
    wire::push_u64_le(&mut out, doc.account_number);
    wire::push_u64_le(&mut out, doc.sequence);
    wire::push_u64_le(&mut out, doc.body.len() as u64);
    wire::append_bytes(&mut out, &doc.body);
    proof {
        assert(out@ =~= canon_spec(doc@));
    }
    out
}

/// Canonicalization is injective: payloads that differ in any field have
/// different canonical bytes.
pub proof fn lemma_canonical_injective(d1: SignDocView, d2: SignDocView)
    requires
        canon_encodable(d1),
        canon_encodable(d2),
        canon_spec(d1) == canon_spec(d2),
    ensures
        d1 == d2,
{
    reveal_with_fuel(pow256, 9);
    let cb1 = encode_utf8(d1.chain_id);
    let cb2 = encode_utf8(d2.chain_id);
    let c1 = canon_spec(d1);
    let c2 = canon_spec(d2);
    wire::lemma_u64_in_range(cb1.len() as u64);
    wire::lemma_u64_in_range(cb2.len() as u64);
    wire::lemma_u64_in_range(d1.account_number);
    wire::lemma_u64_in_range(d2.account_number);
    wire::lemma_u64_in_range(d1.sequence);
    wire::lemma_u64_in_range(d2.sequence);
    wire::lemma_u64_in_range(d1.body.len() as u64);
    wire::lemma_u64_in_range(d2.body.len() as u64);
    assert(c1.subrange(0, 8) =~= u64_le(cb1.len() as u64));
    assert(c2.subrange(0, 8) =~= u64_le(cb2.len() as u64));
    wire::lemma_le_injective(cb1.len() as int, cb2.len() as int, 8);
    let l = cb1.len() as int;
    assert(c1.subrange(8, 8 + l) =~= cb1);
    assert(c2.subrange(8, 8 + l) =~= cb2);
    vstd::utf8::encode_utf8_decode_utf8(d1.chain_id);
    vstd::utf8::encode_utf8_decode_utf8(d2.chain_id);
    assert(d1.chain_id == decode_utf8(cb1));
    assert(c1.subrange(8 + l, 16 + l) =~= u64_le(d1.account_number));
    assert(c2.subrange(8 + l, 16 + l) =~= u64_le(d2.account_number));
    wire::lemma_le_injective(d1.account_number as int, d2.account_number as int, 8);
    assert(c1.subrange(16 + l, 24 + l) =~= u64_le(d1.sequence));
    assert(c2.subrange(16 + l, 24 + l) =~= u64_le(d2.sequence));
    wire::lemma_le_injective(d1.sequence as int, d2.sequence as int, 8);
    assert(c1.subrange(24 + l, 32 + l) =~= u64_le(d1.body.len() as u64));
    assert(c2.subrange(24 + l, 32 + l) =~= u64_le(d2.body.len() as u64));
    wire::lemma_le_injective(d1.body.len() as int, d2.body.len() as int, 8);
    let bl = d1.body.len() as int;
    assert(c1.subrange(32 + l, 32 + l + bl) =~= d1.body);
    assert(c2.subrange(32 + l, 32 + l + bl) =~= d2.body);
    assert(d1.body =~= d2.body);
}

} // verus!
