//! The compatibility verifier: encode under one revision, decode under
//! another, and the general laws the fixed codec policy forces on field
//! addition, field removal, and repetition.

use vstd::prelude::*;

use crate::codec::DecodeError;
use crate::codec::DecodeOutcome;
use crate::codec::Record;
use crate::codec::decode_outcome;
use crate::codec::fields_of;
use crate::codec::first_missing;
use crate::codec::json_obj;
use crate::codec::json_parse;
use crate::codec::lemma_first_missing_at;
use crate::codec::lemma_first_missing_none;
use crate::codec::load;
use crate::codec::save;

verus! {

/// The verdict of one directional compatibility check.
#[derive(Debug, PartialEq, Eq)]
pub enum CompatibilityResult {
    Compatible,
    Incompatible(DecodeError),
}

/// Encodes `value` under its own revision and decodes the text under
/// revision `B`. Directional: a verdict here says nothing about the other
/// direction. The verdict is exactly whether `B` finds every field it
/// requires among the fields `value` carries; the first field it does not
/// find is named in the error.
pub fn check_compatibility<A: Record, B: Record>(value: &A) -> (r: CompatibilityResult)
    ensures
        match first_missing(B::schema_fields(), value.field_map()) {
            None => r matches CompatibilityResult::Compatible,
            Some(n) => r matches CompatibilityResult::Incompatible(e) && (e matches
            DecodeError::MissingField(f) && f@ == n),
        },
{
    let encoded = save(value);
    match load::<B>(encoded.as_str()) {
        Ok(_) => CompatibilityResult::Compatible,
        Err(e) => CompatibilityResult::Incompatible(e),
    }
}

/// Determinism: a record has one encoding, and a piece of text has one
/// decode outcome under a given schema, so repeating an encode/decode pair
/// on identical input yields identical results.
pub proof fn lemma_codec_deterministic(
    m: Map<Seq<char>, Seq<char>>,
    schema: Seq<Seq<char>>,
    s1: Seq<char>,
    s2: Seq<char>,
)
    requires
        s1 == json_obj(m),
        s2 == json_obj(m),
    ensures
        s1 == s2,
        decode_outcome(schema, s1) == decode_outcome(schema, s2),
{
}

/// One structural change, both directions. `wider` is `base` with one field
/// inserted at position `k` and no default. A record carrying exactly
/// `base`'s fields fails to decode under `wider`, at exactly the new field;
/// a record carrying exactly `wider`'s fields still decodes under `base`,
/// the extra field ignored. Read with `base` as the older revision this is
/// field addition; read with `wider` as the older revision it is field
/// removal, and the direction that succeeds swaps with it.
pub proof fn lemma_one_field_diff(
    base: Seq<Seq<char>>,
    wider: Seq<Seq<char>>,
    added: Seq<char>,
    k: int,
    m_base: Map<Seq<char>, Seq<char>>,
    m_wider: Map<Seq<char>, Seq<char>>,
)
    requires
        0 <= k < wider.len(),
        wider[k] == added,
        wider.remove(k) == base,
        !base.contains(added),
        m_base.dom() == fields_of(base),
        m_wider.dom() == fields_of(wider),
    ensures
        first_missing(wider, m_base) == Some(added),
        first_missing(base, m_wider) is None,
{
    wider.remove_ensures(k);
    assert forall|j: int| 0 <= j < k implies m_base.dom().contains(#[trigger] wider[j]) by {
        assert(base[j] == wider[j]);
        assert(base.contains(base[j]));
    }
    assert(!m_base.dom().contains(added));
    lemma_first_missing_at(wider, m_base, k);
    assert forall|i: int| 0 <= i < base.len() implies m_wider.dom().contains(
        #[trigger] base[i],
    ) by {
        if i < k {
            assert(base[i] == wider[i]);
            assert(wider.contains(wider[i]));
        } else {
            assert(base[i] == wider[i + 1]);
            assert(wider.contains(wider[i + 1]));
        }
    }
    lemma_first_missing_none(base, m_wider);
}

/// Field addition: the updated revision `b` requires one more field, with no
/// default, than the original revision `a`. Text encoded under `a` fails to
/// decode under `b` with `MissingField` at exactly the added field, while
/// text encoded under `b` still decodes under `a` (the extra field is
/// ignored as unknown).
pub proof fn lemma_added_field_compatibility(
    a: Seq<Seq<char>>,
    b: Seq<Seq<char>>,
    added: Seq<char>,
    k: int,
    m_a: Map<Seq<char>, Seq<char>>,
    m_b: Map<Seq<char>, Seq<char>>,
    s_a: Seq<char>,
    s_b: Seq<char>,
)
    requires
        0 <= k < b.len(),
        b[k] == added,
        b.remove(k) == a,
        !a.contains(added),
        m_a.dom() == fields_of(a),
        m_b.dom() == fields_of(b),
        json_parse(s_a) == Some(m_a),
        json_parse(s_b) == Some(m_b),
    ensures
        decode_outcome(b, s_a) == DecodeOutcome::Missing(added),
        decode_outcome(a, s_b) is Decoded,
{
    lemma_one_field_diff(a, b, added, k, m_a, m_b);
}

/// Field removal: the updated revision `b` dropped one field the original
/// revision `a` requires. Text encoded under `a` still decodes under `b`
/// (the dropped field is ignored as unknown), while text encoded under `b`
/// fails to decode under `a` with `MissingField` at exactly the removed
/// field.
pub proof fn lemma_removed_field_compatibility(
    a: Seq<Seq<char>>,
    b: Seq<Seq<char>>,
    removed: Seq<char>,
    k: int,
    m_a: Map<Seq<char>, Seq<char>>,
    m_b: Map<Seq<char>, Seq<char>>,
    s_a: Seq<char>,
    s_b: Seq<char>,
)
    requires
        0 <= k < a.len(),
        a[k] == removed,
        a.remove(k) == b,
        !b.contains(removed),
        m_a.dom() == fields_of(a),
        m_b.dom() == fields_of(b),
        json_parse(s_a) == Some(m_a),
        json_parse(s_b) == Some(m_b),
    ensures
        decode_outcome(b, s_a) is Decoded,
        decode_outcome(a, s_b) == DecodeOutcome::Missing(removed),
{
    lemma_one_field_diff(b, a, removed, k, m_b, m_a);
}

} // verus!
