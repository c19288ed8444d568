use vstd::prelude::*;

use crate::json::JsonValue;
use crate::text::{
    lemma_strip_trailing_shape, concat, has_prefix, starts_with, strip_leading, strip_trailing, trim_leading, trim_trailing,
};

verus! {

/// A JSON-RPC 2.0 request to the n3n management interface.
pub struct JsonRpcRequest {
    jsonrpc: String,
    method: String,
    id: u32,
}

impl JsonRpcRequest {
    pub closed spec fn jsonrpc_view(&self) -> Seq<char> {
        self.jsonrpc@
    }

    pub closed spec fn method_view(&self) -> Seq<char> {
        self.method@
    }

    pub closed spec fn id_view(&self) -> u32 {
        self.id
    }

    /// The request that calls `method`: protocol version `"2.0"`, id 1.
    pub fn new(method: &str) -> (request: JsonRpcRequest)
        ensures
            request.jsonrpc_view() == "2.0"@,
            request.method_view() == method@,
            request.id_view() == 1,
    {
        JsonRpcRequest { jsonrpc: String::from_str("2.0"), method: String::from_str(method), id: 1 }
    }

    pub fn jsonrpc(&self) -> (v: &str)
        ensures
            v@ == self.jsonrpc_view(),
    {
        self.jsonrpc.as_str()
    }

    pub fn method(&self) -> (m: &str)
        ensures
            m@ == self.method_view(),
    {
        self.method.as_str()
    }

    pub fn id(&self) -> (id: u32)
        ensures
            id == self.id_view(),
    {
        self.id
    }
}

/// A JSON-RPC 2.0 response of the n3n management interface.
pub struct JsonRpcResponse {
    jsonrpc: String,
    result: Option<JsonValue>,
    error: Option<JsonValue>,
    id: JsonValue,
}

impl JsonRpcResponse {
    pub closed spec fn jsonrpc_view(&self) -> Seq<char> {
        self.jsonrpc@
    }

    pub closed spec fn result_view(&self) -> Option<JsonValue> {
        self.result
    }

    pub closed spec fn id_view(&self) -> JsonValue {
        self.id
    }

    pub closed spec fn error_view(&self) -> Option<JsonValue> {
        self.error
    }

    pub fn new(jsonrpc: String, result: Option<JsonValue>, error: Option<JsonValue>, id: JsonValue) -> (response: JsonRpcResponse)
        ensures
            response.jsonrpc_view() == jsonrpc@,
            response.result_view() == result,
            response.error_view() == error,
            response.id_view() == id,
    {
        JsonRpcResponse { jsonrpc, result, error, id }
    }
}

/// What the management API answers for an n3n call: the call's `result`.
pub struct ApiResponse {
    result: Option<JsonValue>,
}

impl ApiResponse {
    pub closed spec fn result_view(&self) -> Option<JsonValue> {
        self.result
    }

    /// The answer to a call: its result, with any JSON-RPC error dropped.
    pub fn from_rpc_response(response: JsonRpcResponse) -> (answer: ApiResponse)
        ensures
            answer.result_view() == response.result_view(),
    {
        ApiResponse { result: response.result }
    }

    pub fn into_result(self) -> (result: Option<JsonValue>)
        ensures
            result == self.result_view(),
    {
        self.result
    }
}

/// The URL that a request to the n3n endpoint `endpoint` is posted to.
pub open spec fn request_url_for(endpoint: Seq<char>) -> Seq<char> {
    if has_prefix(endpoint, "unix://"@) {
        "http://x/v1"@
    } else {
        strip_trailing(endpoint, '/') + "/v1"@
    }
}

/// The URL of an endpoint that is not a Unix socket is the endpoint itself,
/// cut before its trailing slashes, followed by `/v1`: nothing else of it is
/// changed, dropped or added.
pub proof fn lemma_request_url_keeps_endpoint(endpoint: Seq<char>)
    requires
        !has_prefix(endpoint, "unix://"@),
    ensures
        ({
            let url = request_url_for(endpoint);
            let kept = url.len() - 3;
            &&& url.len() >= 3
            &&& url.subrange(kept, url.len() as int) == "/v1"@
            &&& kept <= endpoint.len()
            &&& url.subrange(0, kept) == endpoint.subrange(0, kept)
            &&& forall|j: int| kept <= j < endpoint.len() ==> endpoint[j] == '/'
            &&& (kept == 0 || endpoint[kept - 1] != '/')
        }),
{
    reveal_strlit("/v1");
    lemma_strip_trailing_shape(endpoint, '/');
    let base = strip_trailing(endpoint, '/');
    let url = request_url_for(endpoint);
    assert(url == base + "/v1"@);
    assert(url.subrange(url.len() - 3, url.len() as int) =~= "/v1"@);
    assert(url.subrange(0, url.len() - 3) =~= base);
}

/// An `https://` endpoint is posted to over `https://`, so long as it names
/// something after the scheme.
pub proof fn lemma_request_url_keeps_https(endpoint: Seq<char>, j: int)
    requires
        has_prefix(endpoint, "https://"@),
        8 <= j < endpoint.len(),
        endpoint[j] != '/',
    ensures
        has_prefix(request_url_for(endpoint), "https://"@),
{
    reveal_strlit("https://");
    reveal_strlit("unix://");
    assert(endpoint.subrange(0, 8) == "https://"@);
    assert("https://"@[0] == 'h');
    assert(endpoint[0] == endpoint.subrange(0, 8)[0]);
    assert(endpoint[0] == 'h');
    assert(!has_prefix(endpoint, "unix://"@)) by {
        if has_prefix(endpoint, "unix://"@) {
            assert(endpoint.subrange(0, 7) == "unix://"@);
            assert("unix://"@[0] == 'u');
            assert(endpoint.subrange(0, 7)[0] == endpoint[0]);
        }
    }
    lemma_request_url_keeps_endpoint(endpoint);
    let url = request_url_for(endpoint);
    let kept = url.len() - 3;
    assert(kept > j);
    assert(url.subrange(0, 8) =~= url.subrange(0, kept).subrange(0, 8));
    assert(endpoint.subrange(0, 8) =~= endpoint.subrange(0, kept).subrange(0, 8));
}

/// A `unix://` endpoint is always posted to `http://x/v1`.
pub proof fn lemma_request_url_over_socket(endpoint: Seq<char>)
    requires
        has_prefix(endpoint, "unix://"@),
    ensures
        request_url_for(endpoint) == "http://x/v1"@,
{
}

/// Trailing slashes on an HTTP endpoint do not change the URL it is posted to.
pub proof fn lemma_request_url_ignores_trailing_slash(endpoint: Seq<char>)
    requires
        !has_prefix(endpoint, "unix://"@),
        !has_prefix(endpoint.push('/'), "unix://"@),
    ensures
        request_url_for(endpoint.push('/')) == request_url_for(endpoint),
{
    assert(endpoint.push('/').drop_last() =~= endpoint);
}

/// Client of the n3n management interface (JSON-RPC over a Unix socket or HTTP).
pub struct N3nClient {
    api_endpoint: String,
}

impl N3nClient {
    pub closed spec fn endpoint_view(&self) -> Seq<char> {
        self.api_endpoint@
    }

    /// A client for the endpoint `unix://<path>` or `http(s)://<host>`.
    pub fn new(api_endpoint: &str) -> (client: N3nClient)
        ensures
            client.endpoint_view() == api_endpoint@,
    {
        N3nClient { api_endpoint: String::from_str(api_endpoint) }
    }

    pub fn api_endpoint(&self) -> (e: &str)
        ensures
            e@ == self.endpoint_view(),
    {
        self.api_endpoint.as_str()
    }

    /// The socket to connect through when the endpoint is `unix://<path>`.
    pub fn unix_socket_path(&self) -> (path: Option<&str>)
        ensures
            match path {
                Some(p) => has_prefix(self.endpoint_view(), "unix://"@) && p@ == strip_leading(
                    self.endpoint_view(),
                    "unix://"@,
                ),
                None => !has_prefix(self.endpoint_view(), "unix://"@),
            },
    {
        let e = self.api_endpoint.as_str();
        if starts_with(e, "unix://") {
            proof {
                reveal_strlit("unix://");
            }
            Some(trim_leading(e, "unix://"))
        } else {
            None
        }
    }

    /// The URL that requests are posted to.
    pub fn request_url(&self) -> (url: String)
        ensures
            url@ == request_url_for(self.endpoint_view()),
    {
        let e = self.api_endpoint.as_str();
        if starts_with(e, "unix://") {
            String::from_str("http://x/v1")
        } else {
            concat(trim_trailing(e, '/'), "/v1")
        }
    }

    /// The request that calls `method`.
    pub fn request_for(&self, method: &str) -> (request: JsonRpcRequest)
        ensures
            request.jsonrpc_view() == "2.0"@,
            request.method_view() == method@,
            request.id_view() == 1,
    {
        JsonRpcRequest::new(method)
    }
}

} // verus!
