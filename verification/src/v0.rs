//! The original revision of the two record families.

use vstd::prelude::*;

use crate::codec::DecodeError;
use crate::codec::Record;
use crate::codec::fields_map;
use crate::codec::lemma_dom_two;
use crate::codec::lemma_fields_map_two;
use crate::codec::lemma_first_missing_at;
use crate::codec::lemma_first_missing_none;
use crate::codec::lemma_project_two;
use crate::codec::require_field;

verus! {

/// The request record as first shipped: who is asking, and what they like.
#[derive(Debug)]
pub struct GreetingRequest {
    pub name: String,
    pub favorite_thing: String,
}

impl Record for GreetingRequest {
    open spec fn schema_fields() -> Seq<Seq<char>> {
        seq!["name"@, "favorite_thing"@]
    }

    open spec fn field_map(&self) -> Map<Seq<char>, Seq<char>> {
        Map::empty().insert("name"@, self.name@).insert("favorite_thing"@, self.favorite_thing@)
    }

    proof fn lemma_wf(&self) {
        reveal_strlit("name");
        reveal_strlit("favorite_thing");
        lemma_dom_two("name"@, self.name@, "favorite_thing"@, self.favorite_thing@);
    }

    fn to_fields(&self) -> (r: Vec<(String, String)>) {
        let mut r: Vec<(String, String)> = Vec::new();
        r.push(("name".to_owned(), self.name.clone()));
        r.push(("favorite_thing".to_owned(), self.favorite_thing.clone()));
        proof {
            reveal_strlit("name");
            reveal_strlit("favorite_thing");
            assert(r@[0].0@ == "name"@);
            assert(r@[1].0@ == "favorite_thing"@);
            let ghost a = r@[0];
            let ghost b = r@[1];
            assert(a.0@ != b.0@);
            assert(r@ =~= seq![a, b]);
            lemma_fields_map_two(a, b);
        }
        r
    }

    fn from_fields(fields: &Vec<(String, String)>) -> (r: Result<Self, DecodeError>) {
        let ghost m = fields_map(fields@);
        let ghost sch = Self::schema_fields();
        proof {
            assert(sch[0] == "name"@);
            assert(sch[1] == "favorite_thing"@);
        }
        let name = match require_field(fields, &"name".to_owned()) {
            Ok(v) => v,
            Err(e) => {
                proof {
                    lemma_first_missing_at(sch, m, 0);
                }
                return Err(e);
            },
        };
        let favorite_thing = match require_field(fields, &"favorite_thing".to_owned()) {
            Ok(v) => v,
            Err(e) => {
                proof {
                    lemma_first_missing_at(sch, m, 1);
                }
                return Err(e);
            },
        };
        let result = GreetingRequest { name, favorite_thing };
        proof {
            reveal_strlit("name");
            reveal_strlit("favorite_thing");
            assert forall|i: int| 0 <= i < sch.len() implies m.dom().contains(
                #[trigger] sch[i],
            ) by {
                if i == 0 {
                } else {
                }
            }
            lemma_first_missing_none(sch, m);
            lemma_project_two("name"@, result.name@, "favorite_thing"@, result.favorite_thing@, m);
        }
        Ok(result)
    }
}

/// The response record as first shipped: the name echoed back beside the
/// greeting line.
#[derive(Debug)]
pub struct Greeting {
    pub name: String,
    pub greeting: String,
}

impl Record for Greeting {
    open spec fn schema_fields() -> Seq<Seq<char>> {
        seq!["name"@, "greeting"@]
    }

    open spec fn field_map(&self) -> Map<Seq<char>, Seq<char>> {
        Map::empty().insert("name"@, self.name@).insert("greeting"@, self.greeting@)
    }

    proof fn lemma_wf(&self) {
        reveal_strlit("name");
        reveal_strlit("greeting");
        lemma_dom_two("name"@, self.name@, "greeting"@, self.greeting@);
    }

    fn to_fields(&self) -> (r: Vec<(String, String)>) {
        let mut r: Vec<(String, String)> = Vec::new();
        r.push(("name".to_owned(), self.name.clone()));
        r.push(("greeting".to_owned(), self.greeting.clone()));
        proof {
            reveal_strlit("name");
            reveal_strlit("greeting");
            assert(r@[0].0@ == "name"@);
            assert(r@[1].0@ == "greeting"@);
            let ghost a = r@[0];
            let ghost b = r@[1];
            assert(a.0@ != b.0@);
            assert(r@ =~= seq![a, b]);
            lemma_fields_map_two(a, b);
        }
        r
    }

    fn from_fields(fields: &Vec<(String, String)>) -> (r: Result<Self, DecodeError>) {
        let ghost m = fields_map(fields@);
        let ghost sch = Self::schema_fields();
        proof {
            assert(sch[0] == "name"@);
            assert(sch[1] == "greeting"@);
        }
        let name = match require_field(fields, &"name".to_owned()) {
            Ok(v) => v,
            Err(e) => {
                proof {
                    lemma_first_missing_at(sch, m, 0);
                }
                return Err(e);
            },
        };
        let greeting = match require_field(fields, &"greeting".to_owned()) {
            Ok(v) => v,
            Err(e) => {
                proof {
                    lemma_first_missing_at(sch, m, 1);
                }
                return Err(e);
            },
        };
        let result = Greeting { name, greeting };
        proof {
            reveal_strlit("name");
            reveal_strlit("greeting");
            assert forall|i: int| 0 <= i < sch.len() implies m.dom().contains(
                #[trigger] sch[i],
            ) by {
                if i == 0 {
                } else {
                }
            }
            lemma_first_missing_none(sch, m);
            lemma_project_two("name"@, result.name@, "greeting"@, result.greeting@, m);
        }
        Ok(result)
    }
}

} // verus!
