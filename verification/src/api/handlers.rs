//! The fixed REST handlers: a closed set, each producing a canned JSON
//! answer until the subsystems behind them are wired up.

use vstd::prelude::*;
use vstd::string::StrSliceExecFns;
use vstd::string::StringSliceAdditionalSpecFns;
use crate::network::http::Request;
use crate::network::http::Response;
use crate::network::http::StatusCode;

verus! {

/// The handlers a route can dispatch to; the set is closed by design.
#[derive(Clone, Copy, PartialEq, Eq, Structural, Debug)]
pub enum RouteHandler {
    ListModels,
    RunInference,
    TrainModel,
    CreateTensor,
    ListTensors,
}

/// The header list as text.
pub open spec fn headers_view(hs: Seq<(String, String)>) -> Seq<(Seq<char>, Seq<char>)> {
    hs.map_values(|p: (String, String)| (p.0@, p.1@))
}

/// The status each handler answers with.
pub open spec fn spec_handler_status(h: RouteHandler) -> StatusCode {
    match h {
        RouteHandler::ListModels => StatusCode::OK,
        RouteHandler::RunInference => StatusCode::OK,
        RouteHandler::TrainModel => StatusCode::Accepted,
        RouteHandler::CreateTensor => StatusCode::Created,
        RouteHandler::ListTensors => StatusCode::OK,
    }
}

/// The headers each handler answers with.
pub open spec fn spec_handler_headers(h: RouteHandler) -> Seq<(Seq<char>, Seq<char>)> {
    match h {
        RouteHandler::CreateTensor => seq![
            ("Content-Type"@, "application/json"@),
            ("Location"@, "/api/v1/tensors/42"@),
        ],
        _ => seq![("Content-Type"@, "application/json"@)],
    }
}

/// The body each handler answers with.
pub open spec fn spec_handler_body(h: RouteHandler) -> Seq<u8> {
    match h {
        RouteHandler::ListModels => "[\n        {\"id\": \"linear_regression\", \"type\": \"regression\", \"parameters\": 10},\n        {\"id\": \"neural_net\", \"type\": \"classification\", \"parameters\": 1024}\n    ]".spec_bytes(),
        RouteHandler::RunInference => "{\"prediction\": [0.1, 0.2, 0.7], \"latency_ms\": 25}".spec_bytes(),
        RouteHandler::TrainModel => "{\"job_id\": \"train_12345\", \"status\": \"started\"}".spec_bytes(),
        RouteHandler::CreateTensor => "{\"tensor_id\": 42, \"shape\": [3, 4], \"bytes\": 48}".spec_bytes(),
        RouteHandler::ListTensors => "[\n        {\"id\": 1, \"shape\": [2, 2], \"type\": \"float32\"},\n        {\"id\": 2, \"shape\": [3, 4, 5], \"type\": \"float32\"}\n    ]".spec_bytes(),
    }
}

/// A response is exactly what the named handler produces.
pub open spec fn response_matches(h: RouteHandler, r: Response) -> bool {
    &&& r.status == spec_handler_status(h)
    &&& headers_view(r.headers@) == spec_handler_headers(h)
    &&& r.body@ == spec_handler_body(h)
}

fn json_headers() -> (r: Vec<(String, String)>)
    ensures
        r@.len() == 1,
        r@[0].0@ == "Content-Type"@,
        r@[0].1@ == "application/json"@,
        headers_view(r@) =~= seq![("Content-Type"@, "application/json"@)],
{
    let mut headers: Vec<(String, String)> = Vec::new();
    headers.push((String::from_str("Content-Type"), String::from_str("application/json")));
    headers
}

/// List the available models.
pub fn list_models(req: &Request) -> (r: Response)
    ensures
        response_matches(RouteHandler::ListModels, r),
{
    let body = "[\n        {\"id\": \"linear_regression\", \"type\": \"regression\", \"parameters\": 10},\n        {\"id\": \"neural_net\", \"type\": \"classification\", \"parameters\": 1024}\n    ]".as_bytes_vec();
    Response { status: StatusCode::OK, headers: json_headers(), body }
}

/// Run inference with the selected model.
pub fn run_inference(req: &Request) -> (r: Response)
    ensures
        response_matches(RouteHandler::RunInference, r),
{
    let body = "{\"prediction\": [0.1, 0.2, 0.7], \"latency_ms\": 25}".as_bytes_vec();
    Response { status: StatusCode::OK, headers: json_headers(), body }
}

/// Start a training job.
pub fn train_model(req: &Request) -> (r: Response)
    ensures
        response_matches(RouteHandler::TrainModel, r),
{
    let body = "{\"job_id\": \"train_12345\", \"status\": \"started\"}".as_bytes_vec();
    Response { status: StatusCode::Accepted, headers: json_headers(), body }
}

/// Create a tensor from the request's data.
pub fn create_tensor(req: &Request) -> (r: Response)
    ensures
        response_matches(RouteHandler::CreateTensor, r),
{
    let body = "{\"tensor_id\": 42, \"shape\": [3, 4], \"bytes\": 48}".as_bytes_vec();
    let mut headers = json_headers();
    headers.push((String::from_str("Location"), String::from_str("/api/v1/tensors/42")));
    proof {
        assert(headers_view(headers@).len() == 2);
        assert(headers_view(headers@)[0] == (headers@[0].0@, headers@[0].1@));
        assert(headers_view(headers@)[1] == (headers@[1].0@, headers@[1].1@));
        assert(headers_view(headers@) =~= spec_handler_headers(RouteHandler::CreateTensor));
    }
    Response { status: StatusCode::Created, headers, body }
}

/// List the tensors currently held.
pub fn list_tensors(req: &Request) -> (r: Response)
    ensures
        response_matches(RouteHandler::ListTensors, r),
{
    let body = "[\n        {\"id\": 1, \"shape\": [2, 2], \"type\": \"float32\"},\n        {\"id\": 2, \"shape\": [3, 4, 5], \"type\": \"float32\"}\n    ]".as_bytes_vec();
    Response { status: StatusCode::OK, headers: json_headers(), body }
}

/// Dispatch to the named handler.
pub fn dispatch(handler: RouteHandler, request: &Request) -> (r: Response)
    ensures
        response_matches(handler, r),
{
    match handler {
        RouteHandler::ListModels => list_models(request),
        RouteHandler::RunInference => run_inference(request),
        RouteHandler::TrainModel => train_model(request),
        RouteHandler::CreateTensor => create_tensor(request),
        RouteHandler::ListTensors => list_tensors(request),
    }
}

} // verus!
