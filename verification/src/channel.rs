//! The channel simulator: one request/response round trip between a client
//! and a server that may be built against different revisions. Behaviour is
//! dispatched on a revision tag rather than through opaque handlers, so the
//! whole exchange carries a contract.

use vstd::prelude::*;

use crate::codec::DecodeError;
use crate::codec::DecodeOutcome;
use crate::codec::Record;
use crate::codec::decode_outcome;
use crate::codec::fields_map;
use crate::codec::fields_of;
use crate::codec::first_missing;
use crate::codec::json_parse;
use crate::codec::lemma_dom_one;
use crate::codec::lemma_fields_map_one;
use crate::codec::lemma_first_missing_at;
use crate::codec::lemma_first_missing_none;
use crate::codec::lemma_project_one;
use crate::codec::load;
use crate::codec::require_field;
use crate::codec::save;

verus! {

/// The request body the first deployment sends: just a name.
pub struct ReqOld {
    pub name: String,
}

/// The response body the first deployment returns: a greeting line.
pub struct RespOld {
    pub greeting: String,
}

/// The request body after the update. The name is kept: deleting it would
/// strand servers still reading the old schema.
pub struct ReqNew {
    pub name: String,
}

/// The response body after the update; it stays readable by old clients.
pub struct RespNew {
    pub greeting: String,
}

impl Record for ReqOld {
    open spec fn schema_fields() -> Seq<Seq<char>> {
        seq!["name"@]
    }

    open spec fn field_map(&self) -> Map<Seq<char>, Seq<char>> {
        Map::empty().insert("name"@, self.name@)
    }

    proof fn lemma_wf(&self) {
        lemma_dom_one("name"@, self.name@);
    }

    fn to_fields(&self) -> (r: Vec<(String, String)>) {
        let mut r: Vec<(String, String)> = Vec::new();
        r.push(("name".to_owned(), self.name.clone()));
        proof {
            assert(r@[0].0@ == "name"@);
            let ghost a = r@[0];
            assert(r@ =~= seq![a]);
            lemma_fields_map_one(a);
        }
        r
    }

    fn from_fields(fields: &Vec<(String, String)>) -> (r: Result<Self, DecodeError>) {
        let ghost m = fields_map(fields@);
        let ghost sch = Self::schema_fields();
        proof {
            assert(sch[0] == "name"@);
        }
        let name = match require_field(fields, &"name".to_owned()) {
            Ok(v) => v,
            Err(e) => {
                proof {
                    lemma_first_missing_at(sch, m, 0);
                }
                return Err(e);
            },
        };
        let result = ReqOld { name };
        proof {
            assert forall|i: int| 0 <= i < sch.len() implies m.dom().contains(
                #[trigger] sch[i],
            ) by {
            }
            lemma_first_missing_none(sch, m);
            lemma_project_one("name"@, result.name@, m);
        }
        Ok(result)
    }
}

impl Default for ReqOld {
    /// An empty name: the smallest well-formed request body.
    fn default() -> (r: Self)
        ensures
            r.name@ == Seq::<char>::empty(),
    {
        ReqOld { name: String::new() }
    }
}

impl Record for ReqNew {
    open spec fn schema_fields() -> Seq<Seq<char>> {
        seq!["name"@]
    }

    open spec fn field_map(&self) -> Map<Seq<char>, Seq<char>> {
        Map::empty().insert("name"@, self.name@)
    }

    proof fn lemma_wf(&self) {
        lemma_dom_one("name"@, self.name@);
    }

    fn to_fields(&self) -> (r: Vec<(String, String)>) {
        let mut r: Vec<(String, String)> = Vec::new();
        r.push(("name".to_owned(), self.name.clone()));
        proof {
            assert(r@[0].0@ == "name"@);
            let ghost a = r@[0];
            assert(r@ =~= seq![a]);
            lemma_fields_map_one(a);
        }
        r
    }

    fn from_fields(fields: &Vec<(String, String)>) -> (r: Result<Self, DecodeError>) {
        let ghost m = fields_map(fields@);
        let ghost sch = Self::schema_fields();
        proof {
            assert(sch[0] == "name"@);
        }
        let name = match require_field(fields, &"name".to_owned()) {
            Ok(v) => v,
            Err(e) => {
                proof {
                    lemma_first_missing_at(sch, m, 0);
                }
                return Err(e);
            },
        };
        let result = ReqNew { name };
        proof {
            assert forall|i: int| 0 <= i < sch.len() implies m.dom().contains(
                #[trigger] sch[i],
            ) by {
            }
            lemma_first_missing_none(sch, m);
            lemma_project_one("name"@, result.name@, m);
        }
        Ok(result)
    }
}

impl Default for ReqNew {
    /// An empty name: the smallest well-formed request body.
    fn default() -> (r: Self)
        ensures
            r.name@ == Seq::<char>::empty(),
    {
        ReqNew { name: String::new() }
    }
}

impl Record for RespOld {
    open spec fn schema_fields() -> Seq<Seq<char>> {
        seq!["greeting"@]
    }

    open spec fn field_map(&self) -> Map<Seq<char>, Seq<char>> {
        Map::empty().insert("greeting"@, self.greeting@)
    }

    proof fn lemma_wf(&self) {
        lemma_dom_one("greeting"@, self.greeting@);
    }

    fn to_fields(&self) -> (r: Vec<(String, String)>) {
        let mut r: Vec<(String, String)> = Vec::new();
        r.push(("greeting".to_owned(), self.greeting.clone()));
        proof {
            assert(r@[0].0@ == "greeting"@);
            let ghost a = r@[0];
            assert(r@ =~= seq![a]);
            lemma_fields_map_one(a);
        }
        r
    }

    fn from_fields(fields: &Vec<(String, String)>) -> (r: Result<Self, DecodeError>) {
        let ghost m = fields_map(fields@);
        let ghost sch = Self::schema_fields();
        proof {
            assert(sch[0] == "greeting"@);
        }
        let greeting = match require_field(fields, &"greeting".to_owned()) {
            Ok(v) => v,
            Err(e) => {
                proof {
                    lemma_first_missing_at(sch, m, 0);
                }
                return Err(e);
            },
        };
        let result = RespOld { greeting };
        proof {
            assert forall|i: int| 0 <= i < sch.len() implies m.dom().contains(
                #[trigger] sch[i],
            ) by {
            }
            lemma_first_missing_none(sch, m);
            lemma_project_one("greeting"@, result.greeting@, m);
        }
        Ok(result)
    }
}

impl Default for RespOld {
    /// An empty greeting line.
    fn default() -> (r: Self)
        ensures
            r.greeting@ == Seq::<char>::empty(),
    {
        RespOld { greeting: String::new() }
    }
}

impl Record for RespNew {
    open spec fn schema_fields() -> Seq<Seq<char>> {
        seq!["greeting"@]
    }

    open spec fn field_map(&self) -> Map<Seq<char>, Seq<char>> {
        Map::empty().insert("greeting"@, self.greeting@)
    }

    proof fn lemma_wf(&self) {
        lemma_dom_one("greeting"@, self.greeting@);
    }

    fn to_fields(&self) -> (r: Vec<(String, String)>) {
        let mut r: Vec<(String, String)> = Vec::new();
        r.push(("greeting".to_owned(), self.greeting.clone()));
        proof {
            assert(r@[0].0@ == "greeting"@);
            let ghost a = r@[0];
            assert(r@ =~= seq![a]);
            lemma_fields_map_one(a);
        }
        r
    }

    fn from_fields(fields: &Vec<(String, String)>) -> (r: Result<Self, DecodeError>) {
        let ghost m = fields_map(fields@);
        let ghost sch = Self::schema_fields();
        proof {
            assert(sch[0] == "greeting"@);
        }
        let greeting = match require_field(fields, &"greeting".to_owned()) {
            Ok(v) => v,
            Err(e) => {
                proof {
                    lemma_first_missing_at(sch, m, 0);
                }
                return Err(e);
            },
        };
        let result = RespNew { greeting };
        proof {
            assert forall|i: int| 0 <= i < sch.len() implies m.dom().contains(
                #[trigger] sch[i],
            ) by {
            }
            lemma_first_missing_none(sch, m);
            lemma_project_one("greeting"@, result.greeting@, m);
        }
        Ok(result)
    }
}

impl Default for RespNew {
    /// An empty greeting line.
    fn default() -> (r: Self)
        ensures
            r.greeting@ == Seq::<char>::empty(),
    {
        RespNew { greeting: String::new() }
    }
}

/// Which revision a peer was built against.
#[derive(Clone, Copy)]
pub enum Revision {
    V0,
    V1,
}

/// The request schema a peer of the given revision reads.
pub open spec fn request_schema(rev: Revision) -> Seq<Seq<char>> {
    match rev {
        Revision::V0 => ReqOld::schema_fields(),
        Revision::V1 => ReqNew::schema_fields(),
    }
}

/// The response schema a peer of the given revision reads.
pub open spec fn response_schema(rev: Revision) -> Seq<Seq<char>> {
    match rev {
        Revision::V0 => RespOld::schema_fields(),
        Revision::V1 => RespNew::schema_fields(),
    }
}

/// The fields of the response a server of the given revision sends back:
/// its revision's default response body.
pub open spec fn response_map(rev: Revision) -> Map<Seq<char>, Seq<char>> {
    Map::empty().insert("greeting"@, Seq::<char>::empty())
}

/// A client: a pre-encoded outbound request, fixed at construction, and a
/// response handler dispatched on the revision the client was built
/// against.
pub struct Client {
    pub request: String,
    pub revision: Revision,
}

/// A server: a request handler dispatched on the revision the server was
/// built against.
pub struct Server {
    pub revision: Revision,
}

impl Client {
    /// The client's pre-encoded request parses back to a field map carrying
    /// exactly the fields of its revision's request schema.
    pub open spec fn wf(&self) -> bool {
        match json_parse(self.request@) {
            Some(m) => m.dom() == fields_of(request_schema(self.revision)),
            None => false,
        }
    }

    /// The field map the client's pre-encoded request parses back to.
    pub open spec fn request_fields(&self) -> Map<Seq<char>, Seq<char>>
        recommends
            self.wf(),
    {
        match json_parse(self.request@) {
            Some(m) => m,
            None => Map::empty(),
        }
    }

    /// Decodes an inbound response under this client's revision and
    /// surfaces the greeting line it carries.
    pub fn handle_response(&self, response: &str) -> (r: Result<String, DecodeError>)
        ensures
            match decode_outcome(response_schema(self.revision), response@) {
                DecodeOutcome::Malformed => r matches Err(e) && e matches DecodeError::Malformed,
                DecodeOutcome::Missing(n) => r matches Err(e) && (e matches
                DecodeError::MissingField(f) && f@ == n),
                DecodeOutcome::Decoded(m) => r matches Ok(g) && m.dom().contains("greeting"@)
                    && g@ == m["greeting"@],
            },
    {
        match self.revision {
            Revision::V0 => match load::<RespOld>(response) {
                Ok(resp) => Ok(resp.greeting),
                Err(e) => Err(e),
            },
            Revision::V1 => match load::<RespNew>(response) {
                Ok(resp) => Ok(resp.greeting),
                Err(e) => Err(e),
            },
        }
    }
}

impl Server {
    /// Decodes an inbound request under this server's revision; on success
    /// answers with this revision's default response body, encoded.
    pub fn handle_request(&self, request: &str) -> (r: Result<String, DecodeError>)
        ensures
            match decode_outcome(request_schema(self.revision), request@) {
                DecodeOutcome::Malformed => r matches Err(e) && e matches DecodeError::Malformed,
                DecodeOutcome::Missing(n) => r matches Err(e) && (e matches
                DecodeError::MissingField(f) && f@ == n),
                DecodeOutcome::Decoded(_) => r matches Ok(resp) && json_parse(resp@) == Some(
                    response_map(self.revision),
                ),
            },
    {
        match self.revision {
            Revision::V0 => match load::<ReqOld>(request) {
                Ok(_) => Ok(save(&RespOld::default())),
                Err(e) => Err(e),
            },
            Revision::V1 => match load::<ReqNew>(request) {
                Ok(_) => Ok(save(&RespNew::default())),
                Err(e) => Err(e),
            },
        }
    }
}

/// A client built against the first revision, its default request body
/// pre-encoded.
pub fn make_v0_client() -> (c: Client)
    ensures
        c.wf(),
        c.revision is V0,
        c.request_fields() == Map::<Seq<char>, Seq<char>>::empty().insert(
            "name"@,
            Seq::<char>::empty(),
        ),
{
    let body = ReqOld::default();
    let request = save(&body);
    let c = Client { request, revision: Revision::V0 };
    proof {
        body.lemma_wf();
    }
    c
}

/// A client built against the updated revision, its default request body
/// pre-encoded.
pub fn make_v1_client() -> (c: Client)
    ensures
        c.wf(),
        c.revision is V1,
        c.request_fields() == Map::<Seq<char>, Seq<char>>::empty().insert(
            "name"@,
            Seq::<char>::empty(),
        ),
{
    let body = ReqNew::default();
    let request = save(&body);
    let c = Client { request, revision: Revision::V1 };
    proof {
        body.lemma_wf();
    }
    c
}

/// A server built against the first revision.
pub fn make_v0_server() -> (s: Server)
    ensures
        s.revision is V0,
{
    Server { revision: Revision::V0 }
}

/// A server built against the updated revision.
pub fn make_v1_server() -> (s: Server)
    ensures
        s.revision is V1,
{
    Server { revision: Revision::V1 }
}

/// One round trip, no retries. The client's request goes to the server; if
/// the server cannot decode it the exchange fails with that error and the
/// client's handler never runs. Otherwise the server's response goes to the
/// client, whose decode result — the greeting it carries, or the failure —
/// is the exchange's result.
pub fn run_network(client: Client, server: Server) -> (r: Result<String, DecodeError>)
    ensures
        match decode_outcome(request_schema(server.revision), client.request@) {
            DecodeOutcome::Malformed => r matches Err(e) && e matches DecodeError::Malformed,
            DecodeOutcome::Missing(n) => r matches Err(e) && (e matches
            DecodeError::MissingField(f) && f@ == n),
            DecodeOutcome::Decoded(_) => match first_missing(
                response_schema(client.revision),
                response_map(server.revision),
            ) {
                Some(n) => r matches Err(e) && (e matches DecodeError::MissingField(f) && f@
                    == n),
                None => r matches Ok(g) && g@ == response_map(server.revision)["greeting"@],
            },
        },
{
    let response = match server.handle_request(client.request.as_str()) {
        Ok(resp) => resp,
        Err(e) => {
            return Err(e);
        },
    };
    client.handle_response(response.as_str())
}

} // verus!
