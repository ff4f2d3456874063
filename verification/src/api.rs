//! HTTP API: request routing over the cluster state.
//!
//! [`HttpApi::handle`] decides, for a method and a path, which endpoint
//! answers and with what data: the records of the state it was given, or an
//! error response. Turning records into JSON bodies, and the version string
//! of the agent endpoints, belong to the binary that serves the API.
use crate::allocs::Allocation;
use crate::error::Result;
use crate::eval::Evaluation;
use crate::jobspec::Job;
use crate::node::Node;
use crate::state::{derefs, StateStore};
use crate::strmap::{lookup, values};
use crate::text::concat3;
use vstd::prelude::*;

verus! {

/// HTTP method of an API request.
#[derive(Debug, Clone, Copy, PartialEq, Eq, Structural)]
pub enum Method {
    /// `GET`.
    Get,
    /// `POST`.
    Post,
    /// `PUT`.
    Put,
    /// `DELETE`.
    Delete,
}

/// A decoded API request.
#[derive(Debug, Clone)]
pub struct ApiRequest {
    /// Request method.
    pub method: Method,
    /// Request path, e.g. `"/v1/jobs"`.
    pub path: String,
    /// Optional JSON body.
    pub body: Option<String>,
}

/// An API response.
#[derive(Debug, Clone)]
pub struct ApiResponse {
    /// HTTP status code.
    pub status: u16,
    /// JSON (or plain-text) response body.
    pub body: String,
}

/// The lower-case hexadecimal digit for `d` (below 16).
pub open spec fn hex_digit(d: u32) -> char {
    if d < 10 {
        (48 + d) as char
    } else {
        (87 + d) as char
    }
}

/// How a character stands inside a JSON string: `"`, the backslash and the
/// control characters below 0x20 are escaped (`\b \t \n \f \r` by name,
/// the others as `\u00` and two lower-case hex digits); every other
/// character stands for itself.
pub open spec fn json_escape_char(c: char) -> Seq<char> {
    if c == '"' {
        seq!['\\', '"']
    } else if c == '\\' {
        seq!['\\', '\\']
    } else if c == '\u{8}' {
        seq!['\\', 'b']
    } else if c == '\t' {
        seq!['\\', 't']
    } else if c == '\n' {
        seq!['\\', 'n']
    } else if c == '\u{c}' {
        seq!['\\', 'f']
    } else if c == '\r' {
        seq!['\\', 'r']
    } else if (c as u32) < 0x20 {
        seq!['\\', 'u', '0', '0', hex_digit((c as u32) / 16), hex_digit((c as u32) % 16)]
    } else {
        seq![c]
    }
}

/// The characters of `s`, each escaped for a JSON string.
pub open spec fn json_escaped(s: Seq<char>) -> Seq<char>
    decreases s.len(),
{
    if s.len() == 0 {
        Seq::empty()
    } else {
        json_escaped(s.drop_last()) + json_escape_char(s.last())
    }
}

/// `s` as a JSON string literal: quoted, with its characters escaped.
pub open spec fn json_quoted(s: Seq<char>) -> Seq<char> {
    seq!['"'] + json_escaped(s) + seq!['"']
}

/// `serde_json::to_string` on a string slice. Claimed: the result is
/// [`json_quoted`] of the characters, as serde_json's escape table gives it
/// (the call cannot fail for a string; an empty string would stand for a
/// failure).
#[verifier::external_body]
fn json_string(s: &str) -> (r: String)
    ensures
        r@ == json_quoted(s@),
{
    match serde_json::to_string(s) {
        Ok(t) => t,
        Err(_) => String::new(),
    }
}

/// The JSON object `{"error": msg}`.
pub open spec fn error_body(msg: Seq<char>) -> Seq<char> {
    "{\"error\":"@ + json_quoted(msg) + "}"@
}

/// Whether `r` is the error response with status `status` and message `msg`.
pub open spec fn is_error_response(r: ApiResponse, status: u16, msg: Seq<char>) -> bool {
    r.status == status && r.body@ == error_body(msg)
}

impl ApiResponse {
    /// A response with status `status` whose body is `{"error": msg}`.
    fn error(status: u16, msg: &str) -> (r: Self)
        ensures
            is_error_response(r, status, msg@),
    {
        let quoted = json_string(msg);
        ApiResponse { status, body: concat3("{\"error\":", quoted.as_str(), "}") }
    }

    /// A 400 Bad Request response.
    pub fn bad_request(msg: &str) -> (r: Self)
        ensures
            is_error_response(r, 400, msg@),
    {
        Self::error(400, msg)
    }

    /// A 404 Not Found response.
    pub fn not_found() -> (r: Self)
        ensures
            is_error_response(r, 404, "not found"@),
    {
        Self::error(404, "not found")
    }

    /// A 500 Internal Server Error response.
    pub fn internal_error(msg: &str) -> (r: Self)
        ensures
            is_error_response(r, 500, msg@),
    {
        Self::error(500, msg)
    }
}

/// The endpoint a request is routed to.
#[derive(Debug, Clone, Copy, PartialEq, Eq, Structural)]
pub enum Route {
    /// `GET /v1/jobs`.
    ListJobs,
    /// `GET /v1/job/{name}`.
    GetJob,
    /// `GET /v1/evaluations`.
    ListEvals,
    /// `GET /v1/allocations`.
    ListAllocs,
    /// `GET /v1/nodes`.
    ListNodes,
    /// `GET /v1/agent`.
    AgentHealth,
    /// `GET /v1/agent/members`.
    AgentMembers,
    /// `GET /v1/agent/self`.
    AgentSelf,
    /// `GET /v1/status/leader`.
    StatusLeader,
    /// `GET /v1/status/peers`.
    StatusPeers,
    /// `GET /v1/operator/raft/configuration`.
    RaftConfiguration,
    /// Anything else.
    Unknown,
}

/// The prefix of a single-job path.
pub open spec fn job_prefix() -> Seq<char> {
    "/v1/job/"@
}

/// The endpoint for `method` and `path`: only `GET` is served, and a path
/// under `/v1/job/` names a job.
pub open spec fn route_of(method: Method, path: Seq<char>) -> Route {
    if method != Method::Get {
        Route::Unknown
    } else if path == "/v1/jobs"@ {
        Route::ListJobs
    } else if job_prefix().is_prefix_of(path) {
        Route::GetJob
    } else if path == "/v1/evaluations"@ {
        Route::ListEvals
    } else if path == "/v1/allocations"@ {
        Route::ListAllocs
    } else if path == "/v1/nodes"@ {
        Route::ListNodes
    } else if path == "/v1/agent"@ {
        Route::AgentHealth
    } else if path == "/v1/agent/members"@ {
        Route::AgentMembers
    } else if path == "/v1/agent/self"@ {
        Route::AgentSelf
    } else if path == "/v1/status/leader"@ {
        Route::StatusLeader
    } else if path == "/v1/status/peers"@ {
        Route::StatusPeers
    } else if path == "/v1/operator/raft/configuration"@ {
        Route::RaftConfiguration
    } else {
        Route::Unknown
    }
}

/// Each endpoint answers exactly its own requests: `GET` on its one path
/// (any path under `/v1/job/` for a single job), and nothing else reaches
/// it; so distinct served paths lead to distinct endpoints.
pub proof fn law_each_path_its_own_endpoint(m: Method, p: Seq<char>)
    ensures
        route_of(m, p) == Route::ListJobs <==> m == Method::Get && p == "/v1/jobs"@,
        route_of(m, p) == Route::GetJob <==> m == Method::Get && "/v1/job/"@.is_prefix_of(p),
        route_of(m, p) == Route::ListEvals <==> m == Method::Get && p == "/v1/evaluations"@,
        route_of(m, p) == Route::ListAllocs <==> m == Method::Get && p == "/v1/allocations"@,
        route_of(m, p) == Route::ListNodes <==> m == Method::Get && p == "/v1/nodes"@,
        route_of(m, p) == Route::AgentHealth <==> m == Method::Get && p == "/v1/agent"@,
        route_of(m, p) == Route::AgentMembers <==> m == Method::Get && p == "/v1/agent/members"@,
        route_of(m, p) == Route::AgentSelf <==> m == Method::Get && p == "/v1/agent/self"@,
        route_of(m, p) == Route::StatusLeader <==> m == Method::Get && p == "/v1/status/leader"@,
        route_of(m, p) == Route::StatusPeers <==> m == Method::Get && p == "/v1/status/peers"@,
        route_of(m, p) == Route::RaftConfiguration <==> m == Method::Get && p == "/v1/operator/raft/configuration"@,
{
    reveal_strlit("/v1/job/");
    reveal_strlit("/v1/jobs");
    reveal_strlit("/v1/evaluations");
    reveal_strlit("/v1/allocations");
    reveal_strlit("/v1/nodes");
    reveal_strlit("/v1/agent");
    reveal_strlit("/v1/agent/members");
    reveal_strlit("/v1/agent/self");
    reveal_strlit("/v1/status/leader");
    reveal_strlit("/v1/status/peers");
    reveal_strlit("/v1/operator/raft/configuration");
    let jp = "/v1/job/"@;
    // No served path other than a job's lies under the job prefix.
    assert(!jp.is_prefix_of("/v1/jobs"@)) by {
        assert("/v1/jobs"@[7] != jp[7]);
    }
    assert(!jp.is_prefix_of("/v1/evaluations"@)) by {
        assert("/v1/evaluations"@[4] != jp[4]);
    }
    assert(!jp.is_prefix_of("/v1/allocations"@)) by {
        assert("/v1/allocations"@[4] != jp[4]);
    }
    assert(!jp.is_prefix_of("/v1/nodes"@)) by {
        assert("/v1/nodes"@[4] != jp[4]);
    }
    assert(!jp.is_prefix_of("/v1/agent"@)) by {
        assert("/v1/agent"@[4] != jp[4]);
    }
    assert(!jp.is_prefix_of("/v1/agent/members"@)) by {
        assert("/v1/agent/members"@[4] != jp[4]);
    }
    assert(!jp.is_prefix_of("/v1/agent/self"@)) by {
        assert("/v1/agent/self"@[4] != jp[4]);
    }
    assert(!jp.is_prefix_of("/v1/status/leader"@)) by {
        assert("/v1/status/leader"@[4] != jp[4]);
    }
    assert(!jp.is_prefix_of("/v1/status/peers"@)) by {
        assert("/v1/status/peers"@[4] != jp[4]);
    }
    assert(!jp.is_prefix_of("/v1/operator/raft/configuration"@)) by {
        assert("/v1/operator/raft/configuration"@[4] != jp[4]);
    }
    // The served paths are pairwise distinct.
    assert("/v1/agent"@ != "/v1/agent/members"@);
    assert("/v1/agent"@ != "/v1/agent/self"@);
    assert("/v1/agent/members"@ != "/v1/agent/self"@) by {
        assert("/v1/agent/members"@[10] != "/v1/agent/self"@[10]);
    }
    assert("/v1/status/leader"@ != "/v1/status/peers"@) by {
        assert("/v1/status/leader"@[11] != "/v1/status/peers"@[11]);
    }
    assert("/v1/evaluations"@ != "/v1/allocations"@) by {
        assert("/v1/evaluations"@[4] != "/v1/allocations"@[4]);
    }
}

/// `s` with every leading repetition of `p` removed (as
/// `str::trim_start_matches` with a string pattern).
pub open spec fn strip_leading(s: Seq<char>, p: Seq<char>) -> Seq<char>
    decreases s.len(),
{
    if p.len() > 0 && p.is_prefix_of(s) {
        strip_leading(s.skip(p.len() as int), p)
    } else {
        s
    }
}

/// The job name a single-job path names.
pub open spec fn job_name_of(path: Seq<char>) -> Seq<char> {
    strip_leading(path, job_prefix())
}

/// Whether `p` begins `s`.
fn has_prefix(s: &str, p: &str) -> (r: bool)
    ensures
        r == p@.is_prefix_of(s@),
{
    let n = p.unicode_len();
    if n > s.unicode_len() {
        return false;
    }
    let mut i: usize = 0;
    while i < n
        invariant
            n == p@.len(),
            n <= s@.len(),
            i <= n,
            forall|j: int| 0 <= j < i ==> p@[j] == s@[j],
        decreases n - i,
    {
        if p.get_char(i) != s.get_char(i) {
            assert(p@ != s@.subrange(0, n as int)) by {
                assert(s@.subrange(0, n as int)[i as int] == s@[i as int]);
            }
            return false;
        }
        i = i + 1;
    }
    assert(p@ =~= s@.subrange(0, n as int));
    true
}

/// Whether `s` is `t`, character for character.
fn same(s: &str, t: &str) -> (r: bool)
    ensures
        r == (s@ == t@),
{
    crate::text::str_eq(s, t)
}

/// Route a request.
pub fn route(method: Method, path: &str) -> (r: Route)
    ensures
        r == route_of(method, path@),
{
    if method != Method::Get {
        Route::Unknown
    } else if same(path, "/v1/jobs") {
        Route::ListJobs
    } else if has_prefix(path, "/v1/job/") {
        Route::GetJob
    } else if same(path, "/v1/evaluations") {
        Route::ListEvals
    } else if same(path, "/v1/allocations") {
        Route::ListAllocs
    } else if same(path, "/v1/nodes") {
        Route::ListNodes
    } else if same(path, "/v1/agent") {
        Route::AgentHealth
    } else if same(path, "/v1/agent/members") {
        Route::AgentMembers
    } else if same(path, "/v1/agent/self") {
        Route::AgentSelf
    } else if same(path, "/v1/status/leader") {
        Route::StatusLeader
    } else if same(path, "/v1/status/peers") {
        Route::StatusPeers
    } else if same(path, "/v1/operator/raft/configuration") {
        Route::RaftConfiguration
    } else {
        Route::Unknown
    }
}

/// The job name in a single-job path: the path with every leading
/// `/v1/job/` removed.
pub fn job_name(path: &str) -> (r: &str)
    ensures
        r@ == job_name_of(path@),
{
    let prefix = "/v1/job/";
    proof {
        reveal_strlit("/v1/job/");
    }
    let n = prefix.unicode_len();
    let mut rest = path;
    while has_prefix(rest, prefix)
        invariant
            n == prefix@.len(),
            n > 0,
            prefix@ == job_prefix(),
            strip_leading(rest@, prefix@) == strip_leading(path@, prefix@),
        decreases rest@.len(),
    {
        let len = rest.unicode_len();
        let next = rest.substring_char(n, len);
        assert(next@ =~= rest@.skip(n as int));
        rest = next;
    }
    rest
}

/// What the API answers.
#[derive(Debug)]
pub enum ApiReply<'a> {
    /// The stored jobs.
    Jobs(Vec<&'a Job>),
    /// One stored job.
    Job(&'a Job),
    /// The stored evaluations.
    Evals(Vec<&'a Evaluation>),
    /// The stored allocations.
    Allocs(Vec<&'a Allocation>),
    /// The stored nodes.
    Nodes(Vec<&'a Node>),
    /// The agent's health: running, with its version.
    AgentHealth,
    /// The cluster members (none listed yet).
    AgentMembers,
    /// The agent's own information.
    AgentSelf,
    /// The current leader (none known yet).
    StatusLeader,
    /// The cluster peers (none listed yet).
    StatusPeers,
    /// The consensus configuration (no servers listed yet).
    RaftConfiguration,
    /// An error response.
    Error(ApiResponse),
}

impl<'a> ApiReply<'a> {
    /// The HTTP status of the reply: that of an error response, 200
    /// otherwise.
    pub open spec fn spec_status(&self) -> u16 {
        match self {
            ApiReply::Error(resp) => resp.status,
            _ => 200,
        }
    }

    /// The HTTP status of the reply.
    pub fn status(&self) -> (r: u16)
        ensures
            r == self.spec_status(),
    {
        match self {
            ApiReply::Error(resp) => resp.status,
            _ => 200,
        }
    }
}

/// Whether `reply` is what a state (if any) answers to `method` on `path`.
pub open spec fn answers(state: Option<StateStore>, method: Method, path: Seq<char>, reply: ApiReply) -> bool {
    match route_of(method, path) {
        Route::ListJobs => reply matches ApiReply::Jobs(v) && match state {
            Some(st) => derefs(v@) == values(st.model().jobs),
            None => v@.len() == 0,
        },
        Route::GetJob => {
            let name = job_name_of(path);
            if name.len() == 0 {
                reply matches ApiReply::Error(resp) && is_error_response(resp, 400, "job name is required"@)
            } else {
                match state {
                    Some(st) => match lookup(st.model().jobs, name) {
                        Some(j) => reply matches ApiReply::Job(x) && *x == j,
                        None => reply matches ApiReply::Error(resp) && is_error_response(resp, 404, "not found"@),
                    },
                    None => reply matches ApiReply::Error(resp) && is_error_response(resp, 404, "not found"@),
                }
            }
        },
        Route::ListEvals => reply matches ApiReply::Evals(v) && match state {
            Some(st) => derefs(v@) == values(st.model().evals),
            None => v@.len() == 0,
        },
        Route::ListAllocs => reply matches ApiReply::Allocs(v) && match state {
            Some(st) => derefs(v@) == values(st.model().allocs),
            None => v@.len() == 0,
        },
        Route::ListNodes => reply matches ApiReply::Nodes(v) && match state {
            Some(st) => derefs(v@) == values(st.model().nodes),
            None => v@.len() == 0,
        },
        Route::AgentHealth => reply is AgentHealth,
        Route::AgentMembers => reply is AgentMembers,
        Route::AgentSelf => reply is AgentSelf,
        Route::StatusLeader => reply is StatusLeader,
        Route::StatusPeers => reply is StatusPeers,
        Route::RaftConfiguration => reply is RaftConfiguration,
        Route::Unknown => reply matches ApiReply::Error(resp) && is_error_response(resp, 404, "not found"@),
    }
}

/// The in-tree HTTP API over an optional cluster state.
#[derive(Debug)]
pub struct HttpApi {
    /// Shared cluster state (not all endpoints need it).
    state: Option<StateStore>,
}

impl HttpApi {
    /// The state the API answers from.
    pub closed spec fn spec_state(&self) -> Option<StateStore> {
        self.state
    }

    /// Create an API handler over `state`.
    pub fn new(state: Option<StateStore>) -> (r: Self)
        ensures
            r.spec_state() == state,
    {
        HttpApi { state }
    }

    /// Handle one request. Never fails; the `Result` leaves room for write
    /// endpoints.
    pub fn handle(&self, request: ApiRequest) -> (r: Result<ApiReply<'_>>)
        ensures
            r matches Ok(reply) && answers(self.spec_state(), request.method, request.path@, reply),
    {
        let path = request.path.as_str();
        let reply = match route(request.method, path) {
            Route::ListJobs => match &self.state {
                Some(st) => ApiReply::Jobs(st.list_jobs()),
                None => ApiReply::Jobs(Vec::new()),
            },
            Route::GetJob => {
                let name = job_name(path);
                if name.is_empty() {
                    ApiReply::Error(ApiResponse::bad_request("job name is required"))
                } else {
                    match &self.state {
                        Some(st) => match st.get_job(name) {
                            Some(j) => ApiReply::Job(j),
                            None => ApiReply::Error(ApiResponse::not_found()),
                        },
                        None => ApiReply::Error(ApiResponse::not_found()),
                    }
                }
            },
            Route::ListEvals => match &self.state {
                Some(st) => ApiReply::Evals(st.list_evals()),
                None => ApiReply::Evals(Vec::new()),
            },
            Route::ListAllocs => match &self.state {
                Some(st) => ApiReply::Allocs(st.list_allocs()),
                None => ApiReply::Allocs(Vec::new()),
            },
            Route::ListNodes => match &self.state {
                Some(st) => ApiReply::Nodes(st.list_nodes()),
                None => ApiReply::Nodes(Vec::new()),
            },
            Route::AgentHealth => ApiReply::AgentHealth,
            Route::AgentMembers => ApiReply::AgentMembers,
            Route::AgentSelf => ApiReply::AgentSelf,
            Route::StatusLeader => ApiReply::StatusLeader,
            Route::StatusPeers => ApiReply::StatusPeers,
            Route::RaftConfiguration => ApiReply::RaftConfiguration,
            Route::Unknown => ApiReply::Error(ApiResponse::not_found()),
        };
        Ok(reply)
    }
}

impl Default for HttpApi {
    fn default() -> (r: Self)
        ensures
            r.spec_state() is None,
    {
        HttpApi::new(None)
    }
}

} // verus!
