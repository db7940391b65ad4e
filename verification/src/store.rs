//! The store simulator: an append-only sequence of encoded records,
//! accepted without a schema tag and read back under one fixed revision.

use vstd::prelude::*;

use crate::codec::DecodeError;
use crate::codec::DecodeOutcome;
use crate::codec::Record;
use crate::codec::decode_outcome;
use crate::codec::json_obj;
use crate::codec::json_parse;
use crate::codec::load;
use crate::codec::save;

verus! {

/// The index of the first stored text that does not decode under `schema`.
pub open spec fn first_failure(schema: Seq<Seq<char>>, entries: Seq<Seq<char>>) -> Option<int>
    decreases entries.len(),
{
    if entries.len() == 0 {
        None
    } else if !(decode_outcome(schema, entries[0]) is Decoded) {
        Some(0)
    } else {
        match first_failure(schema, entries.skip(1)) {
            None => None,
            Some(i) => Some(i + 1),
        }
    }
}

/// Every stored text decodes under `schema`: reading misses nothing.
proof fn lemma_first_failure_none(schema: Seq<Seq<char>>, entries: Seq<Seq<char>>)
    requires
        forall|i: int|
            0 <= i < entries.len() ==> decode_outcome(schema, #[trigger] entries[i]) is Decoded,
    ensures
        first_failure(schema, entries) is None,
    decreases entries.len(),
{
    if entries.len() > 0 {
        assert forall|i: int| 0 <= i < entries.skip(1).len() implies decode_outcome(
            schema,
            #[trigger] entries.skip(1)[i],
        ) is Decoded by {
            assert(entries.skip(1)[i] == entries[i + 1]);
        }
        lemma_first_failure_none(schema, entries.skip(1));
    }
}

/// The text at `i` does not decode under `schema` and every earlier one
/// does: reading fails at exactly `i`.
proof fn lemma_first_failure_at(schema: Seq<Seq<char>>, entries: Seq<Seq<char>>, i: int)
    requires
        0 <= i < entries.len(),
        !(decode_outcome(schema, entries[i]) is Decoded),
        forall|j: int|
            0 <= j < i ==> decode_outcome(schema, #[trigger] entries[j]) is Decoded,
    ensures
        first_failure(schema, entries) == Some(i),
    decreases i,
{
    if i > 0 {
        assert forall|j: int| 0 <= j < i - 1 implies decode_outcome(
            schema,
            #[trigger] entries.skip(1)[j],
        ) is Decoded by {
            assert(entries.skip(1)[j] == entries[j + 1]);
        }
        assert(entries.skip(1)[i - 1] == entries[i]);
        lemma_first_failure_at(schema, entries.skip(1), i - 1);
    }
}

/// An append-only, schema-agnostic store of encoded records. Compatibility
/// is enforced only at read time, by whichever revision the reader names.
pub struct Database {
    entries: Vec<String>,
}

impl Database {
    /// The stored texts, in insertion order.
    pub closed spec fn entries_view(&self) -> Seq<Seq<char>> {
        self.entries@.map_values(|s: String| s@)
    }

    /// An empty store.
    pub fn new() -> (r: Database)
        ensures
            r.entries_view() == Seq::<Seq<char>>::empty(),
    {
        let r = Database { entries: Vec::new() };
        proof {
            assert(r.entries_view() =~= Seq::<Seq<char>>::empty());
        }
        r
    }

    /// Encodes `t` and appends the text. Always succeeds; no schema tag is
    /// stored beside the entry, and no earlier entry moves or changes.
    pub fn insert<T: Record>(&mut self, t: &T)
        ensures
            final(self).entries_view() == old(self).entries_view().push(json_obj(t.field_map())),
            json_parse(json_obj(t.field_map())) == Some(t.field_map()),
    {
        let s = save(t);
        self.entries.push(s);
        proof {
            assert(self.entries_view() =~= old(self).entries_view().push(
                json_obj(t.field_map()),
            ));
        }
    }

    /// Decodes every entry under revision `T`, in insertion order. Fail-fast:
    /// the first entry that does not decode under `T` stops the read and its
    /// error is returned; nothing past it is reported.
    pub fn read_all<T: Record>(&self) -> (r: Result<Vec<T>, DecodeError>)
        ensures
            match first_failure(T::schema_fields(), self.entries_view()) {
                None => r matches Ok(v) && v@.len() == self.entries_view().len() && (forall|
                    i: int,
                |
                    0 <= i < v@.len() ==> decode_outcome(
                        T::schema_fields(),
                        self.entries_view()[i],
                    ) == DecodeOutcome::Decoded((#[trigger] v@[i]).field_map())),
                Some(i) => r matches Err(e) && (match decode_outcome(
                    T::schema_fields(),
                    self.entries_view()[i],
                ) {
                    DecodeOutcome::Malformed => e matches DecodeError::Malformed,
                    DecodeOutcome::Missing(n) => e matches DecodeError::MissingField(f) && f@
                        == n,
                    DecodeOutcome::Decoded(_) => false,
                }),
            },
    {
        let mut out: Vec<T> = Vec::new();
        let n = self.entries.len();
        let mut i: usize = 0;
        while i < n
            invariant
                n == self.entries@.len(),
                0 <= i <= n,
                out@.len() == i,
                forall|j: int|
                    0 <= j < i ==> decode_outcome(
                        T::schema_fields(),
                        #[trigger] self.entries_view()[j],
                    ) is Decoded,
                forall|j: int|
                    0 <= j < i ==> decode_outcome(
                        T::schema_fields(),
                        self.entries_view()[j],
                    ) == DecodeOutcome::Decoded((#[trigger] out@[j]).field_map()),
            decreases n - i,
        {
            proof {
                assert(self.entries_view()[i as int] == self.entries@[i as int]@);
            }
            match load::<T>(self.entries[i].as_str()) {
                Ok(v) => {
                    out.push(v);
                },
                Err(e) => {
                    proof {
                        lemma_first_failure_at(
                            T::schema_fields(),
                            self.entries_view(),
                            i as int,
                        );
                    }
                    return Err(e);
                },
            }
            i = i + 1;
        }
        proof {
            lemma_first_failure_none(T::schema_fields(), self.entries_view());
        }
        Ok(out)
    }
}

} // verus!
