//! The codec: records as maps from field names to string values, canonical
//! text through serde_json, and decoding under a target schema revision with
//! the fixed policy (unknown fields ignored, missing required fields error).

use vstd::prelude::*;

verus! {

/// The text serde_json produces for an object whose values are all strings:
/// a function of the field map alone (keys are written in sorted order).
pub uninterp spec fn json_obj(m: Map<Seq<char>, Seq<char>>) -> Seq<char>;

/// The field map serde_json recovers from text: `None` when the text is not
/// a JSON object whose values are all strings; a function of the text alone.
pub uninterp spec fn json_parse(s: Seq<char>) -> Option<Map<Seq<char>, Seq<char>>>;

/// Why a decode failed: the text was not a valid encoded record at all, or
/// a field the target revision requires was absent from it.
#[derive(Debug, PartialEq, Eq)]
pub enum DecodeError {
    Malformed,
    MissingField(String),
}

/// The map a sequence of (name, value) pairs denotes; an earlier pair wins
/// over a later one with the same name.
pub open spec fn fields_map(ps: Seq<(String, String)>) -> Map<Seq<char>, Seq<char>>
    decreases ps.len(),
{
    if ps.len() == 0 {
        Map::empty()
    } else {
        fields_map(ps.skip(1)).insert(ps[0].0@, ps[0].1@)
    }
}

/// No two pairs share a field name.
pub open spec fn distinct_keys(ps: Seq<(String, String)>) -> bool {
    forall|i: int, j: int| 0 <= i < j < ps.len() ==> ps[i].0@ != ps[j].0@
}

/// The first field of `schema` that `m` lacks, in schema order.
pub open spec fn first_missing(
    schema: Seq<Seq<char>>,
    m: Map<Seq<char>, Seq<char>>,
) -> Option<Seq<char>>
    decreases schema.len(),
{
    if schema.len() == 0 {
        None
    } else if !m.dom().contains(schema[0]) {
        Some(schema[0])
    } else {
        first_missing(schema.skip(1), m)
    }
}

/// The fields a schema names, as a set.
pub open spec fn fields_of(schema: Seq<Seq<char>>) -> Set<Seq<char>> {
    Set::new(|k: Seq<char>| schema.contains(k))
}

/// `m` cut down to the fields of `schema`: unknown fields are dropped.
pub open spec fn project(
    schema: Seq<Seq<char>>,
    m: Map<Seq<char>, Seq<char>>,
) -> Map<Seq<char>, Seq<char>> {
    Map::new(|k: Seq<char>| schema.contains(k) && m.dom().contains(k), |k: Seq<char>| m[k])
}

/// What decoding a piece of text under a schema yields.
pub enum DecodeOutcome {
    Malformed,
    Missing(Seq<char>),
    Decoded(Map<Seq<char>, Seq<char>>),
}

/// Decoding under the fixed policy: invalid text is malformed; otherwise the
/// first required field absent from the text fails the decode, naming that
/// field; otherwise the record carries exactly the schema's fields, and
/// unknown fields in the text are ignored.
pub open spec fn decode_outcome(schema: Seq<Seq<char>>, s: Seq<char>) -> DecodeOutcome {
    match json_parse(s) {
        None => DecodeOutcome::Malformed,
        Some(m) => match first_missing(schema, m) {
            Some(n) => DecodeOutcome::Missing(n),
            None => DecodeOutcome::Decoded(project(schema, m)),
        },
    }
}

/// Relies on serde_json::to_string on a Value::Object whose values are all
/// strings: it cannot fail there (only maps with non-string keys or a
/// failing Serialize impl can make it fail), the text is a function of the
/// field map alone (the object is sorted by key), and serde_json parses the
/// text back to the same object.
#[verifier::external_body]
fn encode_fields(fields: &Vec<(String, String)>) -> (r: String)
    requires
        distinct_keys(fields@),
    ensures
        r@ == json_obj(fields_map(fields@)),
        json_parse(r@) == Some(fields_map(fields@)),
{
    let mut obj = serde_json::Map::new();
    for p in fields.iter() {
        obj.insert(p.0.clone(), serde_json::Value::String(p.1.clone()));
    }
    serde_json::to_string(&serde_json::Value::Object(obj)).expect("string objects always serialize")
}

/// Relies on serde_json::from_str::<Value>: parsing is a function of the
/// input text alone. A JSON object whose values are all strings is handed
/// back as its (name, value) pairs, distinct and in the object's key order;
/// any other input gives `None`.
#[verifier::external_body]
fn parse_fields(s: &str) -> (r: Option<Vec<(String, String)>>)
    ensures
        match r {
            Some(ps) => json_parse(s@) == Some(fields_map(ps@)) && distinct_keys(ps@),
            None => json_parse(s@) is None,
        },
{
    match serde_json::from_str::<serde_json::Value>(s) {
        Ok(serde_json::Value::Object(obj)) => {
            let mut out: Vec<(String, String)> = Vec::new();
            for (k, v) in obj {
                match v {
                    serde_json::Value::String(val) => out.push((k, val)),
                    _ => return None,
                }
            }
            Some(out)
        }
        _ => None,
    }
}

proof fn lemma_fields_map_skip(ps: Seq<(String, String)>, k: Seq<char>, i: int)
    requires
        0 <= i <= ps.len(),
        forall|j: int| 0 <= j < i ==> ps[j].0@ != k,
    ensures
        fields_map(ps).dom().contains(k) == fields_map(ps.skip(i)).dom().contains(k),
        fields_map(ps).dom().contains(k) ==> fields_map(ps)[k] == fields_map(ps.skip(i))[k],
    decreases i,
{
    if i == 0 {
        assert(ps.skip(0) =~= ps);
    } else {
        assert forall|j: int| 0 <= j < i - 1 implies ps.skip(1)[j].0@ != k by {
            assert(ps.skip(1)[j] == ps[j + 1]);
        }
        lemma_fields_map_skip(ps.skip(1), k, i - 1);
        assert(ps.skip(1).skip(i - 1) =~= ps.skip(i));
    }
}

/// Finds `key` among the pairs; the first pair with that name wins, as in
/// `fields_map`.
fn lookup_field(fields: &Vec<(String, String)>, key: &String) -> (r: Option<String>)
    ensures
        match r {
            Some(v) => fields_map(fields@).dom().contains(key@) && v@ == fields_map(fields@)[key@],
            None => !fields_map(fields@).dom().contains(key@),
        },
{
    let n = fields.len();
    let mut i: usize = 0;
    while i < n
        invariant
            n == fields@.len(),
            0 <= i <= n,
            forall|j: int| 0 <= j < i ==> fields@[j].0@ != key@,
        decreases n - i,
    {
        if fields[i].0 == *key {
            let v = fields[i].1.clone();
            proof {
                lemma_fields_map_skip(fields@, key@, i as int);
                assert(fields@.skip(i as int)[0] == fields@[i as int]);
                assert(fields@.skip(i as int).skip(1) =~= fields@.skip(i as int + 1));
            }
            return Some(v);
        }
        i = i + 1;
    }
    proof {
        lemma_fields_map_skip(fields@, key@, fields@.len() as int);
        assert(fields@.skip(fields@.len() as int) =~= Seq::<(String, String)>::empty());
    }
    None
}

/// Looks up one required field; absence is the `MissingField` error naming
/// the field.
pub(crate) fn require_field(fields: &Vec<(String, String)>, key: &String) -> (r: Result<String, DecodeError>)
    ensures
        match r {
            Ok(v) => fields_map(fields@).dom().contains(key@) && v@ == fields_map(fields@)[key@],
            Err(e) => !fields_map(fields@).dom().contains(key@) && (e matches
            DecodeError::MissingField(f) && f@ == key@),
        },
{
    match lookup_field(fields, key) {
        Some(v) => Ok(v),
        None => Err(DecodeError::MissingField(key.clone())),
    }
}

/// The capability a record type has under one schema revision: the field
/// names the revision requires, in order; the field map a value denotes; and
/// the structural conversions the codec is built from.
pub trait Record: Sized {
    /// The revision's required field names, in declaration order.
    spec fn schema_fields() -> Seq<Seq<char>>;

    /// The fields a value of this revision carries.
    spec fn field_map(&self) -> Map<Seq<char>, Seq<char>>;

    /// A value carries exactly the fields its revision names.
    proof fn lemma_wf(&self)
        ensures
            self.field_map().dom() == fields_of(Self::schema_fields()),
    ;

    /// A value as its (name, value) pairs, one per schema field.
    fn to_fields(&self) -> (r: Vec<(String, String)>)
        ensures
            distinct_keys(r@),
            fields_map(r@) == self.field_map(),
    ;

    /// A value from (name, value) pairs: fails at the first schema field the
    /// pairs lack, naming it; pairs outside the schema are ignored.
    fn from_fields(fields: &Vec<(String, String)>) -> (r: Result<Self, DecodeError>)
        ensures
            match first_missing(Self::schema_fields(), fields_map(fields@)) {
                Some(n) => r matches Err(e) && (e matches DecodeError::MissingField(f) && f@
                    == n),
                None => r matches Ok(v) && v.field_map() == project(
                    Self::schema_fields(),
                    fields_map(fields@),
                ),
            },
    ;
}

/// Encodes a record as canonical text. Cannot fail; the text is a function
/// of the record's fields alone, and decodes back to exactly those fields.
pub fn save<T: Record>(t: &T) -> (r: String)
    ensures
        r@ == json_obj(t.field_map()),
        json_parse(r@) == Some(t.field_map()),
{
    let fields = t.to_fields();
    encode_fields(&fields)
}

/// Decodes text under revision `T`: the result is exactly what
/// `decode_outcome` says for `T`'s schema and this text.
pub fn load<T: Record>(s: &str) -> (r: Result<T, DecodeError>)
    ensures
        match decode_outcome(T::schema_fields(), s@) {
            DecodeOutcome::Malformed => r matches Err(e) && e matches DecodeError::Malformed,
            DecodeOutcome::Missing(n) => r matches Err(e) && (e matches
            DecodeError::MissingField(f) && f@ == n),
            DecodeOutcome::Decoded(m) => r matches Ok(v) && v.field_map() == m,
        },
{
    match parse_fields(s) {
        None => Err(DecodeError::Malformed),
        Some(fields) => T::from_fields(&fields),
    }
}

/// Every field of `schema` is in `m`: the decode misses nothing.
pub proof fn lemma_first_missing_none(schema: Seq<Seq<char>>, m: Map<Seq<char>, Seq<char>>)
    requires
        forall|i: int| 0 <= i < schema.len() ==> m.dom().contains(#[trigger] schema[i]),
    ensures
        first_missing(schema, m) is None,
    decreases schema.len(),
{
    if schema.len() > 0 {
        assert forall|i: int| 0 <= i < schema.skip(1).len() implies m.dom().contains(
            #[trigger] schema.skip(1)[i],
        ) by {
            assert(schema.skip(1)[i] == schema[i + 1]);
        }
        lemma_first_missing_none(schema.skip(1), m);
    }
}

/// `fields_map` of one explicit pair.
pub proof fn lemma_fields_map_one(a: (String, String))
    ensures
        fields_map(seq![a]) == Map::<Seq<char>, Seq<char>>::empty().insert(a.0@, a.1@),
{
    assert(seq![a].skip(1) =~= Seq::<(String, String)>::empty());
    assert(seq![a][0] == a);
    assert(fields_map(Seq::<(String, String)>::empty()) == Map::<Seq<char>, Seq<char>>::empty());
    assert(fields_map(seq![a]) =~= Map::<Seq<char>, Seq<char>>::empty().insert(a.0@, a.1@));
}

/// `fields_map` of two explicit pairs with distinct names, written
/// first-to-last.
pub proof fn lemma_fields_map_two(a: (String, String), b: (String, String))
    requires
        a.0@ != b.0@,
    ensures
        fields_map(seq![a, b]) == Map::<Seq<char>, Seq<char>>::empty().insert(a.0@, a.1@).insert(
            b.0@,
            b.1@,
        ),
{
    assert(seq![a, b].skip(1) =~= seq![b]);
    lemma_fields_map_one(b);
    assert(fields_map(seq![a, b]) =~= Map::<Seq<char>, Seq<char>>::empty().insert(a.0@, a.1@)
        .insert(b.0@, b.1@));
}

/// `fields_map` of three explicit pairs with distinct names, written
/// first-to-last.
pub proof fn lemma_fields_map_three(a: (String, String), b: (String, String), c: (String, String))
    requires
        a.0@ != b.0@,
        a.0@ != c.0@,
        b.0@ != c.0@,
    ensures
        fields_map(seq![a, b, c]) == Map::<Seq<char>, Seq<char>>::empty().insert(a.0@, a.1@)
            .insert(b.0@, b.1@).insert(c.0@, c.1@),
{
    assert(seq![a, b, c].skip(1) =~= seq![b, c]);
    lemma_fields_map_two(b, c);
    assert(fields_map(seq![a, b, c]) =~= Map::<Seq<char>, Seq<char>>::empty().insert(a.0@, a.1@)
        .insert(b.0@, b.1@).insert(c.0@, c.1@));
}

/// A map of one named field has exactly the one-field schema's domain.
pub proof fn lemma_dom_one(k1: Seq<char>, v1: Seq<char>)
    ensures
        Map::<Seq<char>, Seq<char>>::empty().insert(k1, v1).dom() == fields_of(seq![k1]),
{
    let sch = seq![k1];
    let dom = Map::<Seq<char>, Seq<char>>::empty().insert(k1, v1).dom();
    assert(sch[0] == k1);
    assert forall|k: Seq<char>| fields_of(sch).contains(k) implies dom.contains(k) by {
        let i = choose|i: int| 0 <= i < sch.len() && sch[i] == k;
    }
    assert(dom =~= fields_of(sch));
}

/// A map of two distinctly named fields has exactly the two-field schema's
/// domain.
pub proof fn lemma_dom_two(k1: Seq<char>, v1: Seq<char>, k2: Seq<char>, v2: Seq<char>)
    ensures
        Map::<Seq<char>, Seq<char>>::empty().insert(k1, v1).insert(k2, v2).dom() == fields_of(
            seq![k1, k2],
        ),
{
    let sch = seq![k1, k2];
    let dom = Map::<Seq<char>, Seq<char>>::empty().insert(k1, v1).insert(k2, v2).dom();
    assert(sch[0] == k1);
    assert(sch[1] == k2);
    assert forall|k: Seq<char>| fields_of(sch).contains(k) implies dom.contains(k) by {
        let i = choose|i: int| 0 <= i < sch.len() && sch[i] == k;
    }
    assert(dom =~= fields_of(sch));
}

/// A map of three distinctly named fields has exactly the three-field
/// schema's domain.
pub proof fn lemma_dom_three(
    k1: Seq<char>,
    v1: Seq<char>,
    k2: Seq<char>,
    v2: Seq<char>,
    k3: Seq<char>,
    v3: Seq<char>,
)
    ensures
        Map::<Seq<char>, Seq<char>>::empty().insert(k1, v1).insert(k2, v2).insert(k3, v3).dom()
            == fields_of(seq![k1, k2, k3]),
{
    let sch = seq![k1, k2, k3];
    let dom = Map::<Seq<char>, Seq<char>>::empty().insert(k1, v1).insert(k2, v2).insert(
        k3,
        v3,
    ).dom();
    assert(sch[0] == k1);
    assert(sch[1] == k2);
    assert(sch[2] == k3);
    assert forall|k: Seq<char>| fields_of(sch).contains(k) implies dom.contains(k) by {
        let i = choose|i: int| 0 <= i < sch.len() && sch[i] == k;
    }
    assert(dom =~= fields_of(sch));
}

/// Projecting a map that has the one-field schema's field keeps just it.
pub proof fn lemma_project_one(k1: Seq<char>, v1: Seq<char>, m: Map<Seq<char>, Seq<char>>)
    requires
        m.dom().contains(k1),
        m[k1] == v1,
    ensures
        project(seq![k1], m) == Map::<Seq<char>, Seq<char>>::empty().insert(k1, v1),
{
    let sch = seq![k1];
    assert(sch[0] == k1);
    assert forall|k: Seq<char>| project(sch, m).dom().contains(k) implies k == k1 by {
        let i = choose|i: int| 0 <= i < sch.len() && sch[i] == k;
    }
    assert(project(sch, m) =~= Map::<Seq<char>, Seq<char>>::empty().insert(k1, v1));
}

/// Projecting a map that has both of the two-field schema's fields keeps
/// just those two.
pub proof fn lemma_project_two(
    k1: Seq<char>,
    v1: Seq<char>,
    k2: Seq<char>,
    v2: Seq<char>,
    m: Map<Seq<char>, Seq<char>>,
)
    requires
        k1 != k2,
        m.dom().contains(k1),
        m.dom().contains(k2),
        m[k1] == v1,
        m[k2] == v2,
    ensures
        project(seq![k1, k2], m) == Map::<Seq<char>, Seq<char>>::empty().insert(k1, v1).insert(
            k2,
            v2,
        ),
{
    let sch = seq![k1, k2];
    assert(sch[0] == k1);
    assert(sch[1] == k2);
    assert forall|k: Seq<char>| project(sch, m).dom().contains(k) implies (k == k1 || k == k2) by {
        let i = choose|i: int| 0 <= i < sch.len() && sch[i] == k;
    }
    assert(project(sch, m) =~= Map::<Seq<char>, Seq<char>>::empty().insert(k1, v1).insert(
        k2,
        v2,
    ));
}

/// Projecting a map that has all of the three-field schema's fields keeps
/// just those three.
pub proof fn lemma_project_three(
    k1: Seq<char>,
    v1: Seq<char>,
    k2: Seq<char>,
    v2: Seq<char>,
    k3: Seq<char>,
    v3: Seq<char>,
    m: Map<Seq<char>, Seq<char>>,
)
    requires
        k1 != k2,
        k1 != k3,
        k2 != k3,
        m.dom().contains(k1),
        m.dom().contains(k2),
        m.dom().contains(k3),
        m[k1] == v1,
        m[k2] == v2,
        m[k3] == v3,
    ensures
        project(seq![k1, k2, k3], m) == Map::<Seq<char>, Seq<char>>::empty().insert(k1, v1)
            .insert(k2, v2).insert(k3, v3),
{
    let sch = seq![k1, k2, k3];
    assert(sch[0] == k1);
    assert(sch[1] == k2);
    assert(sch[2] == k3);
    assert forall|k: Seq<char>| project(sch, m).dom().contains(k) implies (k == k1 || k == k2 || k
        == k3) by {
        let i = choose|i: int| 0 <= i < sch.len() && sch[i] == k;
    }
    assert(project(sch, m) =~= Map::<Seq<char>, Seq<char>>::empty().insert(k1, v1).insert(
        k2,
        v2,
    ).insert(k3, v3));
}

/// `m` lacks the field at `i` and has every earlier one: the decode fails at
/// exactly that field.
pub proof fn lemma_first_missing_at(schema: Seq<Seq<char>>, m: Map<Seq<char>, Seq<char>>, i: int)
    requires
        0 <= i < schema.len(),
        !m.dom().contains(schema[i]),
        forall|j: int| 0 <= j < i ==> m.dom().contains(#[trigger] schema[j]),
    ensures
        first_missing(schema, m) == Some(schema[i]),
    decreases i,
{
    if i > 0 {
        assert forall|j: int| 0 <= j < i - 1 implies m.dom().contains(
            #[trigger] schema.skip(1)[j],
        ) by {
            assert(schema.skip(1)[j] == schema[j + 1]);
        }
        assert(schema.skip(1)[i - 1] == schema[i]);
        lemma_first_missing_at(schema.skip(1), m, i - 1);
    }
}

} // verus!
