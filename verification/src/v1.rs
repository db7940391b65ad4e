//! The updated revision of the two record families: the request gained a
//! field, the response lost one.

use vstd::prelude::*;

use crate::codec::DecodeError;
use crate::codec::Record;
use crate::codec::fields_map;
use crate::codec::lemma_dom_one;
use crate::codec::lemma_dom_three;
use crate::codec::lemma_fields_map_one;
use crate::codec::lemma_fields_map_three;
use crate::codec::lemma_first_missing_at;
use crate::codec::lemma_first_missing_none;
use crate::codec::lemma_project_one;
use crate::codec::lemma_project_three;
use crate::codec::require_field;

verus! {

/// The request record after the update: a favorite song was added, with no
/// default.
#[derive(Debug)]
pub struct GreetingRequest {
    pub name: String,
    pub favorite_thing: String,
    pub favorite_song: String,
}

impl Record for GreetingRequest {
    open spec fn schema_fields() -> Seq<Seq<char>> {
        seq!["name"@, "favorite_thing"@, "favorite_song"@]
    }

    open spec fn field_map(&self) -> Map<Seq<char>, Seq<char>> {
        Map::empty().insert("name"@, self.name@).insert("favorite_thing"@, self.favorite_thing@)
            .insert("favorite_song"@, self.favorite_song@)
    }

    proof fn lemma_wf(&self) {
        reveal_strlit("name");
        reveal_strlit("favorite_thing");
        reveal_strlit("favorite_song");
        lemma_dom_three(
            "name"@,
            self.name@,
            "favorite_thing"@,
            self.favorite_thing@,
            "favorite_song"@,
            self.favorite_song@,
        );
    }

    fn to_fields(&self) -> (r: Vec<(String, String)>) {
        let mut r: Vec<(String, String)> = Vec::new();
        r.push(("name".to_owned(), self.name.clone()));
        r.push(("favorite_thing".to_owned(), self.favorite_thing.clone()));
        r.push(("favorite_song".to_owned(), self.favorite_song.clone()));
        proof {
            reveal_strlit("name");
            reveal_strlit("favorite_thing");
            reveal_strlit("favorite_song");
            assert(r@[0].0@ == "name"@);
            assert(r@[1].0@ == "favorite_thing"@);
            assert(r@[2].0@ == "favorite_song"@);
            let ghost a = r@[0];
            let ghost b = r@[1];
            let ghost c = r@[2];
            assert(a.0@ != b.0@ && a.0@ != c.0@ && b.0@ != c.0@);
            assert(r@ =~= seq![a, b, c]);
            lemma_fields_map_three(a, b, c);
        }
        r
    }

    fn from_fields(fields: &Vec<(String, String)>) -> (r: Result<Self, DecodeError>) {
        let ghost m = fields_map(fields@);
        let ghost sch = Self::schema_fields();
        proof {
            assert(sch[0] == "name"@);
            assert(sch[1] == "favorite_thing"@);
            assert(sch[2] == "favorite_song"@);
        }
        let name = match require_field(fields, &"name".to_owned()) {
            Ok(v) => v,
            Err(e) => {
                proof {
                    lemma_first_missing_at(sch, m, 0);
                }
                return Err(e);
            },
        };
        let favorite_thing = match require_field(fields, &"favorite_thing".to_owned()) {
            Ok(v) => v,
            Err(e) => {
                proof {
                    lemma_first_missing_at(sch, m, 1);
                }
                return Err(e);
            },
        };
        let favorite_song = match require_field(fields, &"favorite_song".to_owned()) {
            Ok(v) => v,
            Err(e) => {
                proof {
                    lemma_first_missing_at(sch, m, 2);
                }
                return Err(e);
            },
        };
        let result = GreetingRequest { name, favorite_thing, favorite_song };
        proof {
            reveal_strlit("name");
            reveal_strlit("favorite_thing");
            reveal_strlit("favorite_song");
            assert forall|i: int| 0 <= i < sch.len() implies m.dom().contains(
                #[trigger] sch[i],
            ) by {
                if i == 0 {
                } else if i == 1 {
                } else {
                }
            }
            lemma_first_missing_none(sch, m);
            assert("favorite_thing"@.len() == 14);
            assert("favorite_song"@.len() == 13);
            lemma_project_three(
                "name"@,
                result.name@,
                "favorite_thing"@,
                result.favorite_thing@,
                "favorite_song"@,
                result.favorite_song@,
                m,
            );
        }
        Ok(result)
    }
}

/// The response record after the update: the echoed name was removed, so
/// only the greeting line is required.
#[derive(Debug)]
pub struct Greeting {
    pub greeting: String,
}

impl Record for Greeting {
    open spec fn schema_fields() -> Seq<Seq<char>> {
        seq!["greeting"@]
    }

    open spec fn field_map(&self) -> Map<Seq<char>, Seq<char>> {
        Map::empty().insert("greeting"@, self.greeting@)
    }

    proof fn lemma_wf(&self) {
        lemma_dom_one("greeting"@, self.greeting@);
    }

    fn to_fields(&self) -> (r: Vec<(String, String)>) {
        let mut r: Vec<(String, String)> = Vec::new();
        r.push(("greeting".to_owned(), self.greeting.clone()));
        proof {
            assert(r@[0].0@ == "greeting"@);
            let ghost a = r@[0];
            assert(r@ =~= seq![a]);
            lemma_fields_map_one(a);
        }
        r
    }

    fn from_fields(fields: &Vec<(String, String)>) -> (r: Result<Self, DecodeError>) {
        let ghost m = fields_map(fields@);
        let ghost sch = Self::schema_fields();
        proof {
            assert(sch[0] == "greeting"@);
        }
        let greeting = match require_field(fields, &"greeting".to_owned()) {
            Ok(v) => v,
            Err(e) => {
                proof {
                    lemma_first_missing_at(sch, m, 0);
                }
                return Err(e);
            },
        };
        let result = Greeting { greeting };
        proof {
            assert forall|i: int| 0 <= i < sch.len() implies m.dom().contains(
                #[trigger] sch[i],
            ) by {
            }
            lemma_first_missing_none(sch, m);
            lemma_project_one("greeting"@, result.greeting@, m);
        }
        Ok(result)
    }
}

} // verus!
