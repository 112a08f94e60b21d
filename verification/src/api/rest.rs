//! The REST router over the raw HTTP layer: exact path matching (the
//! query string set aside), query-parameter extraction, and a closed set
//! of endpoint handlers.

use vstd::prelude::*;
use vstd::string::StrSliceExecFns;
use vstd::string::StringSliceAdditionalSpecFns;
use crate::api::ApiRequest;
use crate::api::ApiResponse;
use crate::api::HttpMethod;
use crate::api::http::copy_range;
use crate::api::http::find_byte;
use crate::api::http::push_decimal;
use crate::api::http::spec_decimal;
use crate::api::http::spec_find_byte;

verus! {

/// The endpoint handlers a route can dispatch to; the set is closed.
#[derive(Clone, Copy, PartialEq, Eq, Structural, Debug)]
pub enum EndpointHandler {
    Status,
    AiPredict,
}

/// One endpoint: a path template, a method, and the handler dispatched to.
pub struct RestEndpoint {
    pub path: Vec<u8>,
    pub method: HttpMethod,
    pub handler: EndpointHandler,
}

/// A routed request: the raw request plus the parameters extracted from
/// its path.
pub struct RestRequest {
    pub path: Vec<u8>,
    pub method: HttpMethod,
    pub headers: Vec<(Vec<u8>, Vec<u8>)>,
    pub body: Option<Vec<u8>>,
    pub path_params: Vec<(Vec<u8>, Vec<u8>)>,
    pub query_params: Vec<(Vec<u8>, Vec<u8>)>,
}

/// A handler's answer before conversion to the raw layer.
pub struct RestResponse {
    pub status: u16,
    pub headers: Vec<(Vec<u8>, Vec<u8>)>,
    pub body: Option<Vec<u8>>,
}

/// The path with any query string stripped.
pub open spec fn spec_without_query(path: Seq<u8>) -> Seq<u8> {
    match spec_find_byte(path, 0, path.len() as int, 63) {
        Some(q) => path.subrange(0, q),
        None => path,
    }
}

/// The query parameters of a path: the `name=value` pieces between `&`
/// separators after the `?`; pieces without `=` are dropped.
pub open spec fn spec_query_params(path: Seq<u8>) -> Seq<(Seq<u8>, Seq<u8>)> {
    match spec_find_byte(path, 0, path.len() as int, 63) {
        Some(q) => spec_params_from(path, q + 1),
        None => Seq::empty(),
    }
}

/// The `name=value` pieces from position `pos` on.
pub open spec fn spec_params_from(path: Seq<u8>, pos: int) -> Seq<(Seq<u8>, Seq<u8>)>
    decreases path.len() - pos,
{
    if pos < 0 || pos > path.len() {
        Seq::empty()
    } else {
        let piece_end = match spec_find_byte(path, pos, path.len() as int, 38) {
            Some(a) => a,
            None => path.len() as int,
        };
        let here = match spec_find_byte(path, pos, piece_end, 61) {
            Some(e) => seq![(path.subrange(pos, e), path.subrange(e + 1, piece_end))],
            None => Seq::empty(),
        };
        if piece_end < pos || piece_end >= path.len() {
            here
        } else {
            here + spec_params_from(path, piece_end + 1)
        }
    }
}

/// Index of the first parameter with the given name, if any.
pub open spec fn spec_param_lookup(params: Seq<(Vec<u8>, Vec<u8>)>, name: Seq<u8>) -> Option<int>
    decreases params.len(),
{
    if params.len() == 0 {
        None
    } else if params[0].0@ == name {
        Some(0)
    } else {
        match spec_param_lookup(params.drop_first(), name) {
            Some(i) => Some(i + 1),
            None => None,
        }
    }
}

impl RestRequest {
    /// The first path parameter with the given name, if any.
    pub fn get_path_param(&self, name: &[u8]) -> (r: Option<&Vec<u8>>)
        ensures
            match spec_param_lookup(self.path_params@, name@) {
                Some(i) => r matches Some(v) && v@ == self.path_params@[i].1@,
                None => r is None,
            },
    {
        param_lookup(&self.path_params, name)
    }

    /// The first query parameter with the given name, if any.
    pub fn get_query_param(&self, name: &[u8]) -> (r: Option<&Vec<u8>>)
        ensures
            match spec_param_lookup(self.query_params@, name@) {
                Some(i) => r matches Some(v) && v@ == self.query_params@[i].1@,
                None => r is None,
            },
    {
        param_lookup(&self.query_params, name)
    }
}

/// Scan a parameter list for the first entry with the given name.
fn param_lookup<'a>(params: &'a Vec<(Vec<u8>, Vec<u8>)>, name: &[u8]) -> (r: Option<&'a Vec<u8>>)
    ensures
        match spec_param_lookup(params@, name@) {
            Some(i) => r matches Some(v) && v@ == params@[i].1@,
            None => r is None,
        },
{
    let ghost params0 = params@;
    let mut k: usize = 0;
    while k < params.len()
        invariant
            k <= params0.len(),
            params@ == params0,
            forall|j: int| 0 <= j < k ==> (#[trigger] params0[j]).0@ != name@,
        decreases params0.len() - k,
    {
        if bytes_eq(&params[k].0, name) {
            proof {
                lemma_param_lookup_found(params0, name@, k as int);
            }
            return Some(&params[k].1);
        }
        k = k + 1;
    }
    proof {
        lemma_param_lookup_none(params0, name@);
    }
    None
}

/// Whether a byte vector and a byte slice hold the same bytes.
fn bytes_eq(a: &Vec<u8>, b: &[u8]) -> (r: bool)
    ensures
        r == (a@ == b@),
{
    if a.len() != b.len() {
        proof {
            assert(a@ != b@);
        }
        return false;
    }
    let mut k: usize = 0;
    while k < a.len()
        invariant
            k <= a@.len(),
            a@.len() == b@.len(),
            forall|j: int| 0 <= j < k ==> a@[j] == b@[j],
        decreases a@.len() - k,
    {
        if a[k] != b[k] {
            proof {
                assert(a@ != b@);
            }
            return false;
        }
        k = k + 1;
    }
    proof {
        assert(a@ =~= b@);
    }
    true
}

proof fn lemma_param_lookup_found(params: Seq<(Vec<u8>, Vec<u8>)>, name: Seq<u8>, i: int)
    requires
        0 <= i < params.len(),
        params[i].0@ == name,
        forall|j: int| 0 <= j < i ==> (#[trigger] params[j]).0@ != name,
    ensures
        spec_param_lookup(params, name) == Some(i),
    decreases i,
{
    if i == 0 {
    } else {
        assert forall|j: int| 0 <= j < i - 1 implies (#[trigger] params.drop_first()[j]).0@
            != name by {
            assert(params.drop_first()[j] == params[j + 1]);
        }
        assert(params.drop_first()[i - 1] == params[i]);
        lemma_param_lookup_found(params.drop_first(), name, i - 1);
    }
}

proof fn lemma_param_lookup_none(params: Seq<(Vec<u8>, Vec<u8>)>, name: Seq<u8>)
    requires
        forall|j: int| 0 <= j < params.len() ==> (#[trigger] params[j]).0@ != name,
    ensures
        spec_param_lookup(params, name) is None,
    decreases params.len(),
{
    if params.len() > 0 {
        assert forall|j: int| 0 <= j < params.drop_first().len() implies (
        #[trigger] params.drop_first()[j]).0@ != name by {
            assert(params.drop_first()[j] == params[j + 1]);
        }
        lemma_param_lookup_none(params.drop_first(), name);
    }
}

/// Index of the first endpoint matching a path and method, if any; the
/// path is compared with its query string stripped.
pub open spec fn spec_first_endpoint(
    endpoints: Seq<RestEndpoint>,
    path: Seq<u8>,
    method: HttpMethod,
) -> Option<int>
    decreases endpoints.len(),
{
    if endpoints.len() == 0 {
        None
    } else if endpoints[0].path@ == spec_without_query(path) && endpoints[0].method == method {
        Some(0)
    } else {
        match spec_first_endpoint(endpoints.drop_first(), path, method) {
            Some(i) => Some(i + 1),
            None => None,
        }
    }
}

/// The status each endpoint handler answers with.
pub open spec fn spec_endpoint_status(h: EndpointHandler) -> u16 {
    match h {
        EndpointHandler::Status => 200,
        EndpointHandler::AiPredict => 501,
    }
}

/// The body each endpoint handler answers with.
pub open spec fn spec_endpoint_body(h: EndpointHandler) -> Seq<u8> {
    match h {
        EndpointHandler::Status => "{\"status\":\"ok\",\"version\":\"0.1.0\"}".spec_bytes(),
        EndpointHandler::AiPredict => "{\"error\":\"inference not wired up\"}".spec_bytes(),
    }
}

/// The headers each endpoint handler answers with: the status answer
/// carries its content type and length, the unfinished inference stub
/// carries none.
pub open spec fn spec_endpoint_headers(h: EndpointHandler) -> Seq<(Seq<u8>, Seq<u8>)> {
    match h {
        EndpointHandler::Status => seq![
            ("Content-Type".spec_bytes(), "application/json".spec_bytes()),
            (
                "Content-Length".spec_bytes(),
                spec_decimal(spec_endpoint_body(EndpointHandler::Status).len() as int),
            ),
        ],
        EndpointHandler::AiPredict => Seq::empty(),
    }
}

/// The byte-header list as plain text pairs.
pub open spec fn spec_byte_headers(hs: Seq<(Vec<u8>, Vec<u8>)>) -> Seq<(Seq<u8>, Seq<u8>)> {
    hs.map_values(|p: (Vec<u8>, Vec<u8>)| (p.0@, p.1@))
}

/// The router: its ordered endpoint table.
pub struct RestRouter {
    pub endpoints: Vec<RestEndpoint>,
}

impl RestRouter {
    /// A router with no endpoints.
    pub fn new() -> (r: Self)
        ensures
            r.endpoints@.len() == 0,
    {
        RestRouter { endpoints: Vec::new() }
    }

    /// Append an endpoint; earlier endpoints keep priority.
    pub fn add_endpoint(&mut self, endpoint: RestEndpoint)
        ensures
            final(self).endpoints@ == old(self).endpoints@.push(endpoint),
    {
        self.endpoints.push(endpoint);
    }

    /// Route a request: the first endpoint whose path (query aside) and
    /// method match gets it; with no match the answer is a not-found
    /// response with an error body.
    pub fn route(&self, api_request: &ApiRequest) -> (r: ApiResponse)
        ensures
            match spec_first_endpoint(self.endpoints@, api_request.path@, api_request.method) {
                Some(i) => r.status == spec_endpoint_status(self.endpoints@[i].handler)
                    && spec_byte_headers(r.headers@) == spec_endpoint_headers(
                    self.endpoints@[i].handler,
                ) && (r.body matches Some(b) && b@ == spec_endpoint_body(
                    self.endpoints@[i].handler,
                )),
                None => r.status == 404 && r.headers@.len() == 0 && (r.body matches Some(b) && b@
                    == "{\"error\":\"Not Found\"}".spec_bytes()),
            },
    {
        let rest_request = self.parse_request(api_request);
        let stripped = without_query(&api_request.path);
        let ghost endpoints0 = self.endpoints@;
        let mut k: usize = 0;
        while k < self.endpoints.len()
            invariant
                k <= endpoints0.len(),
                self.endpoints@ == endpoints0,
                stripped@ == spec_without_query(api_request.path@),
                forall|j: int|
                    0 <= j < k ==> !((#[trigger] endpoints0[j]).path@ == stripped@
                        && endpoints0[j].method == api_request.method),
            decreases endpoints0.len() - k,
        {
            let endpoint = &self.endpoints[k];
            if bytes_eq(&endpoint.path, stripped.as_slice()) && method_matches(
                endpoint.method,
                api_request.method,
            ) {
                proof {
                    lemma_first_endpoint_found(
                        endpoints0,
                        api_request.path@,
                        api_request.method,
                        k as int,
                    );
                }
                let rest_response = endpoint_dispatch(endpoint.handler, &rest_request);
                return ApiResponse {
                    status: rest_response.status,
                    headers: rest_response.headers,
                    body: rest_response.body,
                };
            }
            k = k + 1;
        }
        proof {
            lemma_first_endpoint_none(endpoints0, api_request.path@, api_request.method);
        }
        ApiResponse {
            status: 404,
            headers: Vec::new(),
            body: Some("{\"error\":\"Not Found\"}".as_bytes_vec()),
        }
    }

    /// Lift a raw request to a routed one: extract its parameters.
    pub fn parse_request(&self, api_request: &ApiRequest) -> (r: RestRequest)
        ensures
            r.path@ == api_request.path@,
            r.method == api_request.method,
            r.headers@.len() == api_request.headers@.len(),
            r.path_params@.len() == 0,
            r.query_params@.len() == spec_query_params(api_request.path@).len(),
            forall|k: int|
                0 <= k < r.query_params@.len() ==> (#[trigger] r.query_params@[k]).0@
                    == spec_query_params(api_request.path@)[k].0 && r.query_params@[k].1@
                    == spec_query_params(api_request.path@)[k].1,
    {
        let (path_params, query_params) = self.extract_params(&api_request.path);
        let mut headers: Vec<(Vec<u8>, Vec<u8>)> = Vec::new();
        let mut k: usize = 0;
        while k < api_request.headers.len()
            invariant
                k <= api_request.headers@.len(),
                headers@.len() == k,
            decreases api_request.headers@.len() - k,
        {
            let name = copy_range(
                api_request.headers[k].0.as_slice(),
                0,
                api_request.headers[k].0.len(),
            );
            let value = copy_range(
                api_request.headers[k].1.as_slice(),
                0,
                api_request.headers[k].1.len(),
            );
            headers.push((name, value));
            k = k + 1;
        }
        let body: Option<Vec<u8>> = match &api_request.body {
            Some(b) => Some(copy_range(b.as_slice(), 0, b.len())),
            None => None,
        };
        let path = copy_range(api_request.path.as_slice(), 0, api_request.path.len());
        RestRequest {
            path,
            method: api_request.method,
            headers,
            body,
            path_params,
            query_params,
        }
    }

    /// Split a path into its path and query parameters. Path parameters
    /// would come from matching the path against a template; no template
    /// carries variables yet, so that list is empty.
    pub fn extract_params(&self, path: &Vec<u8>) -> (r: (
        Vec<(Vec<u8>, Vec<u8>)>,
        Vec<(Vec<u8>, Vec<u8>)>,
    ))
        ensures
            r.0@.len() == 0,
            r.1@.len() == spec_query_params(path@).len(),
            forall|k: int|
                0 <= k < r.1@.len() ==> (#[trigger] r.1@[k]).0@ == spec_query_params(path@)[k].0
                    && r.1@[k].1@ == spec_query_params(path@)[k].1,
    {
        let path_params: Vec<(Vec<u8>, Vec<u8>)> = Vec::new();
        let mut query_params: Vec<(Vec<u8>, Vec<u8>)> = Vec::new();
        let q = find_byte(path.as_slice(), 0, path.len(), 63);
        if let Some(qi) = q {
            let mut pos: usize = qi + 1;
            loop
                invariant_except_break
                    spec_query_params(path@).skip(query_params@.len() as int)
                        =~= spec_params_from(path@, pos as int),
                    query_params@.len() <= spec_query_params(path@).len(),
                invariant
                    qi + 1 <= pos <= path@.len() + 1,
                    forall|k: int|
                        0 <= k < query_params@.len() ==> (#[trigger] query_params@[k]).0@
                            == spec_query_params(path@)[k].0 && query_params@[k].1@
                            == spec_query_params(path@)[k].1,
                ensures
                    query_params@.len() == spec_query_params(path@).len(),
                    forall|k: int|
                        0 <= k < query_params@.len() ==> (#[trigger] query_params@[k]).0@
                            == spec_query_params(path@)[k].0 && query_params@[k].1@
                            == spec_query_params(path@)[k].1,
                decreases path@.len() + 1 - pos,
            {
                if pos > path.len() {
                    proof {
                        assert(spec_params_from(path@, pos as int) =~= Seq::<(
                            Seq<u8>,
                            Seq<u8>,
                        )>::empty());
                    }
                    break ;
                }
                let piece_end: usize = match find_byte(path.as_slice(), pos, path.len(), 38) {
                    Some(a) => a,
                    None => path.len(),
                };
                let ghost before = query_params@;
                match find_byte(path.as_slice(), pos, piece_end, 61) {
                    Some(e) => {
                        let name = copy_range(path.as_slice(), pos, e);
                        let value = copy_range(path.as_slice(), e + 1, piece_end);
                        proof {
                            let here = spec_params_from(path@, pos as int);
                            assert(here[0] == (name@, value@));
                            assert(here.len() >= 1);
                            assert(spec_query_params(path@).len() >= before.len() + 1);
                            assert(spec_query_params(path@)[before.len() as int] == here[0]);
                            if piece_end < path@.len() {
                                assert(here.skip(1) =~= spec_params_from(
                                    path@,
                                    piece_end as int + 1,
                                ));
                            } else {
                                assert(here.skip(1) =~= Seq::<(Seq<u8>, Seq<u8>)>::empty());
                            }
                        }
                        query_params.push((name, value));
                    },
                    None => {
                        proof {
                            let here = spec_params_from(path@, pos as int);
                            if piece_end < path@.len() {
                                assert(here =~= spec_params_from(path@, piece_end as int + 1));
                            } else {
                                assert(here =~= Seq::<(Seq<u8>, Seq<u8>)>::empty());
                            }
                        }
                    },
                }
                if piece_end == path.len() {
                    proof {
                        if spec_find_byte(path@, pos as int, piece_end as int, 61) is None {
                            assert(spec_params_from(path@, pos as int) =~= Seq::<(
                                Seq<u8>,
                                Seq<u8>,
                            )>::empty());
                        }
                    }
                    break ;
                }
                pos = piece_end + 1;
            }
        }
        (path_params, query_params)
    }

    /// Whether a path (query aside) matches a route template exactly; no
    /// template carries variables yet.
    pub fn matches_route(&self, route_template: &Vec<u8>, actual_path: &Vec<u8>) -> (r: bool)
        ensures
            r == (route_template@ == spec_without_query(actual_path@)),
    {
        let stripped = without_query(actual_path);
        bytes_eq(route_template, stripped.as_slice())
    }
}

/// The path with any query string stripped.
fn without_query(path: &Vec<u8>) -> (r: Vec<u8>)
    ensures
        r@ == spec_without_query(path@),
{
    match find_byte(path.as_slice(), 0, path.len(), 63) {
        Some(q) => copy_range(path.as_slice(), 0, q),
        None => {
            let r = copy_range(path.as_slice(), 0, path.len());
            proof {
                assert(r@ =~= path@);
            }
            r
        },
    }
}

/// Whether two methods are the same.
fn method_matches(a: HttpMethod, b: HttpMethod) -> (r: bool)
    ensures
        r == (a == b),
{
    match (a, b) {
        (HttpMethod::GET, HttpMethod::GET) => true,
        (HttpMethod::POST, HttpMethod::POST) => true,
        (HttpMethod::PUT, HttpMethod::PUT) => true,
        (HttpMethod::DELETE, HttpMethod::DELETE) => true,
        _ => false,
    }
}

/// Answer from the named endpoint handler.
fn endpoint_dispatch(handler: EndpointHandler, request: &RestRequest) -> (r: RestResponse)
    ensures
        r.status == spec_endpoint_status(handler),
        spec_byte_headers(r.headers@) == spec_endpoint_headers(handler),
        r.body matches Some(b) && b@ == spec_endpoint_body(handler),
{
    match handler {
        EndpointHandler::Status => {
            let body = "{\"status\":\"ok\",\"version\":\"0.1.0\"}".as_bytes_vec();
            let mut headers: Vec<(Vec<u8>, Vec<u8>)> = Vec::new();
            headers.push(("Content-Type".as_bytes_vec(), "application/json".as_bytes_vec()));
            let mut length: Vec<u8> = Vec::new();
            push_decimal(body.len() as u64, &mut length);
            headers.push(("Content-Length".as_bytes_vec(), length));
            proof {
                assert(spec_byte_headers(headers@).len() == 2);
                assert(spec_byte_headers(headers@)[0] == (headers@[0].0@, headers@[0].1@));
                assert(spec_byte_headers(headers@)[1] == (headers@[1].0@, headers@[1].1@));
                assert(spec_byte_headers(headers@) =~= spec_endpoint_headers(
                    EndpointHandler::Status,
                ));
            }
            RestResponse { status: 200, headers, body: Some(body) }
        },
        EndpointHandler::AiPredict => {
            // The original inference endpoint is unfinished; until it is
            // wired to the AI subsystem the route answers not-implemented.
            let r = RestResponse {
                status: 501,
                headers: Vec::new(),
                body: Some("{\"error\":\"inference not wired up\"}".as_bytes_vec()),
            };
            proof {
                assert(spec_byte_headers(r.headers@) =~= spec_endpoint_headers(
                    EndpointHandler::AiPredict,
                ));
            }
            r
        },
    }
}

proof fn lemma_first_endpoint_found(
    endpoints: Seq<RestEndpoint>,
    path: Seq<u8>,
    method: HttpMethod,
    i: int,
)
    requires
        0 <= i < endpoints.len(),
        endpoints[i].path@ == spec_without_query(path) && endpoints[i].method == method,
        forall|j: int|
            0 <= j < i ==> !((#[trigger] endpoints[j]).path@ == spec_without_query(path)
                && endpoints[j].method == method),
    ensures
        spec_first_endpoint(endpoints, path, method) == Some(i),
    decreases i,
{
    if i == 0 {
    } else {
        assert forall|j: int| 0 <= j < i - 1 implies !((#[trigger] endpoints.drop_first()[j]).path@
            == spec_without_query(path) && endpoints.drop_first()[j].method == method) by {
            assert(endpoints.drop_first()[j] == endpoints[j + 1]);
        }
        assert(endpoints.drop_first()[i - 1] == endpoints[i]);
        lemma_first_endpoint_found(endpoints.drop_first(), path, method, i - 1);
    }
}

proof fn lemma_first_endpoint_none(endpoints: Seq<RestEndpoint>, path: Seq<u8>, method: HttpMethod)
    requires
        forall|j: int|
            0 <= j < endpoints.len() ==> !((#[trigger] endpoints[j]).path@ == spec_without_query(
                path,
            ) && endpoints[j].method == method),
    ensures
        spec_first_endpoint(endpoints, path, method) is None,
    decreases endpoints.len(),
{
    if endpoints.len() > 0 {
        assert forall|j: int| 0 <= j < endpoints.drop_first().len() implies !((
        #[trigger] endpoints.drop_first()[j]).path@ == spec_without_query(path)
            && endpoints.drop_first()[j].method == method) by {
            assert(endpoints.drop_first()[j] == endpoints[j + 1]);
        }
        lemma_first_endpoint_none(endpoints.drop_first(), path, method);
    }
}

} // verus!
