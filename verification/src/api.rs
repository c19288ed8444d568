use vstd::prelude::*;

use crate::n2n::N2nClient;
use crate::n3n::N3nClient;
use crate::text::{
    concat, contains_text, has_prefix, occurs_in, same_text, starts_with, strip_leading,
    trim_leading,
};

verus! {

/// How the management API is set up: where the node's management interface
/// is, and where the API itself listens.
#[derive(Clone)]
pub struct AppConfig {
    pub api_endpoint: String,
    pub host: String,
    pub port: u16,
}

/// The queries the API forwards to a node, one per path `/api/<segment>`.
#[derive(PartialEq, Eq, Structural, Clone, Copy, Debug)]
pub enum ApiMethod {
    Edges,
    Supernodes,
    Info,
    PacketStats,
    Timestamps,
    Communities,
}

/// The path segment of a query, which is also the n2n command that answers it.
pub open spec fn segment_of(m: ApiMethod) -> Seq<char> {
    match m {
        ApiMethod::Edges => "edges"@,
        ApiMethod::Supernodes => "supernodes"@,
        ApiMethod::Info => "info"@,
        ApiMethod::PacketStats => "packetstats"@,
        ApiMethod::Timestamps => "timestamps"@,
        ApiMethod::Communities => "communities"@,
    }
}

/// The query whose path segment is `s`, if any.
pub open spec fn method_of_segment(s: Seq<char>) -> Option<ApiMethod> {
    if s == "edges"@ {
        Some(ApiMethod::Edges)
    } else if s == "supernodes"@ {
        Some(ApiMethod::Supernodes)
    } else if s == "info"@ {
        Some(ApiMethod::Info)
    } else if s == "packetstats"@ {
        Some(ApiMethod::PacketStats)
    } else if s == "timestamps"@ {
        Some(ApiMethod::Timestamps)
    } else if s == "communities"@ {
        Some(ApiMethod::Communities)
    } else {
        None
    }
}

/// The query whose JSON-RPC method name is `s` (`get_<segment>`), if any.
pub open spec fn method_of_rpc_name(s: Seq<char>) -> Option<ApiMethod> {
    if s == "get_edges"@ {
        Some(ApiMethod::Edges)
    } else if s == "get_supernodes"@ {
        Some(ApiMethod::Supernodes)
    } else if s == "get_info"@ {
        Some(ApiMethod::Info)
    } else if s == "get_packetstats"@ {
        Some(ApiMethod::PacketStats)
    } else if s == "get_timestamps"@ {
        Some(ApiMethod::Timestamps)
    } else if s == "get_communities"@ {
        Some(ApiMethod::Communities)
    } else {
        None
    }
}

impl ApiMethod {
    /// The query named by a path segment.
    pub fn from_segment(segment: &str) -> (m: Option<ApiMethod>)
        ensures
            m == method_of_segment(segment@),
    {
        if same_text(segment, "edges") {
            Some(ApiMethod::Edges)
        } else if same_text(segment, "supernodes") {
            Some(ApiMethod::Supernodes)
        } else if same_text(segment, "info") {
            Some(ApiMethod::Info)
        } else if same_text(segment, "packetstats") {
            Some(ApiMethod::PacketStats)
        } else if same_text(segment, "timestamps") {
            Some(ApiMethod::Timestamps)
        } else if same_text(segment, "communities") {
            Some(ApiMethod::Communities)
        } else {
            None
        }
    }

    /// The query named by a JSON-RPC method name.
    pub fn from_rpc_name(name: &str) -> (m: Option<ApiMethod>)
        ensures
            m == method_of_rpc_name(name@),
    {
        if same_text(name, "get_edges") {
            Some(ApiMethod::Edges)
        } else if same_text(name, "get_supernodes") {
            Some(ApiMethod::Supernodes)
        } else if same_text(name, "get_info") {
            Some(ApiMethod::Info)
        } else if same_text(name, "get_packetstats") {
            Some(ApiMethod::PacketStats)
        } else if same_text(name, "get_timestamps") {
            Some(ApiMethod::Timestamps)
        } else if same_text(name, "get_communities") {
            Some(ApiMethod::Communities)
        } else {
            None
        }
    }

    /// The path segment, which is also the n2n command.
    pub fn segment(&self) -> (s: &'static str)
        ensures
            s@ == segment_of(*self),
    {
        match self {
            ApiMethod::Edges => "edges",
            ApiMethod::Supernodes => "supernodes",
            ApiMethod::Info => "info",
            ApiMethod::PacketStats => "packetstats",
            ApiMethod::Timestamps => "timestamps",
            ApiMethod::Communities => "communities",
        }
    }

    /// The JSON-RPC method name: `get_<segment>`.
    pub fn rpc_name(&self) -> (name: String)
        ensures
            name@ == "get_"@ + segment_of(*self),
    {
        concat("get_", self.segment())
    }
}

/// The JSON-RPC method name for the path `/api/<segment>`, or `None` when the
/// segment names no query the API forwards.
pub fn api_method_name(segment: &str) -> (name: Option<String>)
    ensures
        match name {
            Some(n) => method_of_segment(segment@) is Some && n@ == "get_"@ + segment@,
            None => method_of_segment(segment@) is None,
        },
{
    match ApiMethod::from_segment(segment) {
        Some(_) => Some(concat("get_", segment)),
        None => None,
    }
}

/// The management interface the API talks to.
pub enum ProtocolType {
    /// n3n: JSON-RPC over a Unix socket or HTTP.
    N3n(N3nClient),
    /// n2n: text commands over UDP.
    N2n(N2nClient),
}

/// An endpoint that names no supported management interface.
#[derive(PartialEq, Eq, Structural, Debug)]
pub enum EndpointError {
    Unsupported,
}

impl EndpointError {
    /// The text the error is reported with.
    pub fn message(&self) -> (text: String)
        ensures
            text@ == "Unsupported endpoint format"@,
    {
        String::from_str("Unsupported endpoint format")
    }
}

/// The endpoint is that of an n3n node.
pub open spec fn is_n3n_endpoint(e: Seq<char>) -> bool {
    has_prefix(e, "unix://"@) || has_prefix(e, "http://"@) || has_prefix(e, "https://"@)
}

/// The endpoint is that of an n2n node.
pub open spec fn is_n2n_endpoint(e: Seq<char>) -> bool {
    !is_n3n_endpoint(e) && has_prefix(e, "udp://"@)
}

/// Chooses the management interface from its endpoint URL: `unix://`,
/// `http://` and `https://` are n3n; `udp://<host:port>` is n2n at
/// `<host:port>`; anything else is refused.
pub fn init_protocol(api_endpoint: &str) -> (protocol: Result<ProtocolType, EndpointError>)
    ensures
        is_n3n_endpoint(api_endpoint@) ==> (protocol matches Ok(ProtocolType::N3n(c))
            && c.endpoint_view() == api_endpoint@),
        is_n2n_endpoint(api_endpoint@) ==> (protocol matches Ok(ProtocolType::N2n(c))
            && c.address_view() == strip_leading(api_endpoint@, "udp://"@)),
        !is_n3n_endpoint(api_endpoint@) && !is_n2n_endpoint(api_endpoint@) ==> protocol == Err::<
            ProtocolType,
            EndpointError,
        >(EndpointError::Unsupported),
{
    if starts_with(api_endpoint, "unix://") || starts_with(api_endpoint, "http://") || starts_with(
        api_endpoint,
        "https://",
    ) {
        Ok(ProtocolType::N3n(N3nClient::new(api_endpoint)))
    } else if starts_with(api_endpoint, "udp://") {
        Ok(ProtocolType::N2n(N2nClient::new(trim_leading(api_endpoint, "udp://"))))
    } else {
        Err(EndpointError::Unsupported)
    }
}

/// `udp://<address>` selects n2n at `<address>`, when the address does not
/// itself begin with `udp://`.
pub proof fn lemma_udp_endpoint_address(address: Seq<char>)
    requires
        !has_prefix(address, "udp://"@),
    ensures
        is_n2n_endpoint("udp://"@ + address),
        strip_leading("udp://"@ + address, "udp://"@) == address,
{
    reveal_strlit("udp://");
    reveal_strlit("unix://");
    reveal_strlit("http://");
    reveal_strlit("https://");
    let e = "udp://"@ + address;
    assert(e.subrange(0, 6) =~= "udp://"@);
    assert(e.subrange(6, e.len() as int) =~= address);
    assert(e[0] == 'u');
    assert(e[1] == 'd');
    assert(strip_leading(address, "udp://"@) == address);
    assert(has_prefix(e, "udp://"@));
}

/// The call that answers a JSON-RPC method name on the given interface.
pub enum BackendCall {
    /// Send the JSON-RPC request with this method to the n3n node.
    N3nRequest(String),
    /// Send this command to the n2n node.
    N2nCommand(String),
}

/// The call that answers `method`, or `None` when the API does not forward it.
pub fn plan_request(protocol: &ProtocolType, method: &str) -> (call: Option<BackendCall>)
    ensures
        match method_of_rpc_name(method@) {
            None => call is None,
            Some(m) => match protocol {
                ProtocolType::N3n(_) => call matches Some(BackendCall::N3nRequest(name)) && name@
                    == method@,
                ProtocolType::N2n(_) => call matches Some(BackendCall::N2nCommand(cmd)) && cmd@
                    == segment_of(m),
            },
        },
{
    match ApiMethod::from_rpc_name(method) {
        None => None,
        Some(m) => match protocol {
            ProtocolType::N3n(_) => Some(BackendCall::N3nRequest(String::from_str(method))),
            ProtocolType::N2n(_) => Some(BackendCall::N2nCommand(String::from_str(m.segment()))),
        },
    }
}

/// The HTTP statuses the API answers with.
#[derive(PartialEq, Eq, Structural, Clone, Copy, Debug)]
pub enum HttpStatus {
    Success,
    BadRequest,
    NotFound,
    InternalServerError,
}

/// A plain-text HTTP answer.
pub struct Reply {
    pub status: HttpStatus,
    pub body: String,
}

/// The answer to a failed call on the interface: for n2n, a failure whose
/// message mentions `not implemented` is `404 not implemented`; any other
/// failure is a 500 whose body names the interface and carries `detail`.
pub fn failure_reply(protocol: &ProtocolType, message: &str, detail: &str) -> (reply: Reply)
    ensures
        match protocol {
            ProtocolType::N3n(_) => reply.status == HttpStatus::InternalServerError && reply.body@
                == "N3N request failed: "@ + detail@,
            ProtocolType::N2n(_) => if occurs_in(message@, "not implemented"@) {
                reply.status == HttpStatus::NotFound && reply.body@ == "not implemented"@
            } else {
                reply.status == HttpStatus::InternalServerError && reply.body@
                    == "N2N request failed: "@ + detail@
            },
        },
{
    match protocol {
        ProtocolType::N3n(_) => Reply {
            status: HttpStatus::InternalServerError,
            body: concat("N3N request failed: ", detail),
        },
        ProtocolType::N2n(_) => {
            if contains_text(message, "not implemented") {
                Reply { status: HttpStatus::NotFound, body: String::from_str("not implemented") }
            } else {
                Reply {
                    status: HttpStatus::InternalServerError,
                    body: concat("N2N request failed: ", detail),
                }
            }
        },
    }
}

/// The answer to a path `/api/<segment>` that names no query.
pub fn invalid_method_reply() -> (reply: Reply)
    ensures
        reply.status == HttpStatus::BadRequest,
        reply.body@ == "Invalid method"@,
{
    Reply { status: HttpStatus::BadRequest, body: String::from_str("Invalid method") }
}

/// The answer of the health check.
pub fn health_reply() -> (reply: Reply)
    ensures
        reply.status == HttpStatus::Success,
        reply.body@ == "ok"@,
{
    Reply { status: HttpStatus::Success, body: String::from_str("ok") }
}

/// The file served for a request to the static web interface.
#[derive(PartialEq, Eq, Structural, Clone, Copy, Debug)]
pub enum StaticFile {
    /// `index.html` inside the requested directory.
    DirectoryIndex,
    /// The requested file itself.
    Requested,
    /// The interface's own `index.html`, which routes the path in the browser.
    AppIndex,
}

/// The components of a path: the texts between its `/` separators, empty
/// ones included.
pub open spec fn components(path: Seq<char>) -> Seq<Seq<char>>
    decreases path.len(),
{
    if path.len() == 0 {
        seq![Seq::empty()]
    } else if path.last() == '/' {
        components(path.drop_last()).push(Seq::empty())
    } else {
        let cs = components(path.drop_last());
        cs.update(cs.len() - 1, cs.last().push(path.last()))
    }
}

/// The component `..`.
pub open spec fn is_parent_component(c: Seq<char>) -> bool {
    c.len() == 2 && c[0] == '.' && c[1] == '.'
}

/// A component that names no directory: empty, or `.`.
pub open spec fn is_neutral_component(c: Seq<char>) -> bool {
    c.len() == 0 || (c.len() == 1 && c[0] == '.')
}

/// How a component moves the position in the directory tree: `..` climbs
/// one level, empty and `.` stay, any other name descends one level.
pub open spec fn component_step(c: Seq<char>) -> int {
    if is_parent_component(c) {
        -1
    } else if is_neutral_component(c) {
        0
    } else {
        1
    }
}

/// How many levels below the start the components lead.
pub open spec fn depth_after(cs: Seq<Seq<char>>) -> int
    decreases cs.len(),
{
    if cs.len() == 0 {
        0
    } else {
        depth_after(cs.drop_last()) + component_step(cs.last())
    }
}

/// Read from left to right, the components never climb above the start.
pub open spec fn never_above_start(cs: Seq<Seq<char>>) -> bool
    decreases cs.len(),
{
    cs.len() == 0 || (never_above_start(cs.drop_last()) && depth_after(cs) >= 0)
}

/// A requested path stays inside the directory it is joined to: it is
/// relative and, read component by component, it never climbs above that
/// directory.
pub open spec fn stays_inside(path: Seq<char>) -> bool {
    &&& !(path.len() > 0 && path[0] == '/')
    &&& never_above_start(components(path))
}

proof fn lemma_depth_without_parents(cs: Seq<Seq<char>>)
    requires
        forall|k: int|
            0 <= k < cs.len() ==> !(#[trigger] cs[k].len() == 2 && cs[k][0] == '.' && cs[k][1]
                == '.'),
    ensures
        depth_after(cs) >= 0,
        never_above_start(cs),
    decreases cs.len(),
{
    if cs.len() > 0 {
        assert forall|k: int| 0 <= k < cs.drop_last().len() implies !(
        #[trigger] cs.drop_last()[k].len() == 2 && cs.drop_last()[k][0] == '.'
            && cs.drop_last()[k][1] == '.') by {
            assert(cs.drop_last()[k] == cs[k]);
        }
        lemma_depth_without_parents(cs.drop_last());
        assert(!(cs[cs.len() - 1].len() == 2 && cs[cs.len() - 1][0] == '.' && cs[cs.len()
            - 1][1] == '.'));
    }
}

/// A relative path none of whose components is `..` stays inside.
pub proof fn lemma_path_without_parent_stays_inside(path: Seq<char>)
    requires
        !(path.len() > 0 && path[0] == '/'),
        forall|k: int|
            0 <= k < components(path).len() ==> !(#[trigger] components(path)[k].len() == 2
                && components(path)[k][0] == '.' && components(path)[k][1] == '.'),
    ensures
        stays_inside(path),
{
    lemma_depth_without_parents(components(path));
}

/// Whether a requested path, joined to the web interface's directory, stays
/// inside it.
pub fn path_stays_inside(path: &str) -> (inside: bool)
    ensures
        inside == stays_inside(path@),
{
    let n = path.unicode_len();
    if n > 0 && path.get_char(0) == '/' {
        return false;
    }
    // What the component being read is so far: 0 empty, 1 `.`, 2 `..`, 3 a name.
    let mut kind: u8 = 0;
    let mut depth: usize = 0;
    let mut escaped = false;
    let mut i: usize = 0;
    proof {
        assert(path@.take(0) =~= Seq::<char>::empty());
    }
    while i < n
        invariant
            n == path@.len(),
            i <= n,
            !(n > 0 && path@[0] == '/'),
            depth <= i,
            ({
                let cs = components(path@.take(i as int));
                &&& cs.len() >= 1
                &&& escaped == !never_above_start(cs.drop_last())
                &&& !escaped ==> depth == depth_after(cs.drop_last())
                &&& (kind == 0 <==> cs.last().len() == 0)
                &&& (kind == 1 <==> (cs.last().len() == 1 && cs.last()[0] == '.'))
                &&& (kind == 2 <==> is_parent_component(cs.last()))
                &&& kind <= 3
            }),
        decreases n - i,
    {
        let c = path.get_char(i);
        let ghost cs = components(path@.take(i as int));
        proof {
            assert(path@.take(i + 1).drop_last() =~= path@.take(i as int));
            assert(path@.take(i + 1).last() == c);
        }
        if c == '/' {
            proof {
                let next = components(path@.take(i + 1));
                assert(next.drop_last() =~= cs);
            }
            if !escaped {
                if kind == 2 {
                    if depth == 0 {
                        escaped = true;
                    } else {
                        depth = depth - 1;
                    }
                } else if kind == 3 {
                    depth = depth + 1;
                }
            }
            kind = 0;
        } else {
            proof {
                let next = components(path@.take(i + 1));
                assert(next.drop_last() =~= cs.drop_last());
                assert(next.last() =~= cs.last().push(c));
            }
            if kind == 0 && c == '.' {
                kind = 1;
            } else if kind == 1 && c == '.' {
                kind = 2;
            } else {
                kind = 3;
            }
        }
        i = i + 1;
    }
    proof {
        assert(path@.take(n as int) =~= path@);
    }
    if escaped {
        return false;
    }
    if kind == 2 {
        depth > 0
    } else {
        true
    }
}

/// The file served for a requested path, given what is on disk: whether the
/// path stays inside the interface's directory, whether it is a directory,
/// whether that directory holds `index.html`, and whether the path exists.
/// A path that would leave the directory is answered as one that does not exist.
pub open spec fn static_file_for(
    inside: bool,
    is_dir: bool,
    dir_has_index: bool,
    exists: bool,
) -> StaticFile {
    if !inside {
        StaticFile::AppIndex
    } else if is_dir {
        if dir_has_index {
            StaticFile::DirectoryIndex
        } else {
            StaticFile::AppIndex
        }
    } else if exists {
        StaticFile::Requested
    } else {
        StaticFile::AppIndex
    }
}

/// Chooses the file to serve for the requested `path`, from what is on disk
/// under it; the disk is consulted only for a path that stays inside.
pub fn choose_static_file(path: &str, is_dir: bool, dir_has_index: bool, exists: bool) -> (file:
    StaticFile)
    ensures
        file == static_file_for(stays_inside(path@), is_dir, dir_has_index, exists),
{
    if !path_stays_inside(path) {
        return StaticFile::AppIndex;
    }
    if is_dir {
        if dir_has_index {
            return StaticFile::DirectoryIndex;
        }
        return StaticFile::AppIndex;
    }
    if exists {
        StaticFile::Requested
    } else {
        StaticFile::AppIndex
    }
}

/// The API forwards exactly the six queries of its interface: `edges`,
/// `supernodes`, `info`, `packetstats`, `timestamps` and `communities`. Each is
/// reached from its path segment and from the JSON-RPC method `get_<segment>`,
/// and its segment is the n2n command that answers it.
pub proof fn lemma_api_routes()
    ensures
        segment_of(ApiMethod::Edges) == "edges"@,
        segment_of(ApiMethod::Supernodes) == "supernodes"@,
        segment_of(ApiMethod::Info) == "info"@,
        segment_of(ApiMethod::PacketStats) == "packetstats"@,
        segment_of(ApiMethod::Timestamps) == "timestamps"@,
        segment_of(ApiMethod::Communities) == "communities"@,
        method_of_segment("edges"@) == Some(ApiMethod::Edges),
        method_of_segment("supernodes"@) == Some(ApiMethod::Supernodes),
        method_of_segment("info"@) == Some(ApiMethod::Info),
        method_of_segment("packetstats"@) == Some(ApiMethod::PacketStats),
        method_of_segment("timestamps"@) == Some(ApiMethod::Timestamps),
        method_of_segment("communities"@) == Some(ApiMethod::Communities),
        method_of_rpc_name("get_edges"@) == Some(ApiMethod::Edges),
        method_of_rpc_name("get_supernodes"@) == Some(ApiMethod::Supernodes),
        method_of_rpc_name("get_info"@) == Some(ApiMethod::Info),
        method_of_rpc_name("get_packetstats"@) == Some(ApiMethod::PacketStats),
        method_of_rpc_name("get_timestamps"@) == Some(ApiMethod::Timestamps),
        method_of_rpc_name("get_communities"@) == Some(ApiMethod::Communities),
        forall|s: Seq<char>| #[trigger] method_of_segment(s) is Some <==> (s == "edges"@ || s == "supernodes"@ || s == "info"@ || s == "packetstats"@ || s == "timestamps"@ || s == "communities"@),
        forall|s: Seq<char>| #[trigger] method_of_rpc_name("get_"@ + s) == method_of_segment(s),
{
    reveal_strlit("edges");
    reveal_strlit("get_edges");
    reveal_strlit("supernodes");
    reveal_strlit("get_supernodes");
    reveal_strlit("info");
    reveal_strlit("get_info");
    reveal_strlit("packetstats");
    reveal_strlit("get_packetstats");
    reveal_strlit("timestamps");
    reveal_strlit("get_timestamps");
    reveal_strlit("communities");
    reveal_strlit("get_communities");
    reveal_strlit("get_");
    assert forall|s: Seq<char>| #[trigger] method_of_rpc_name("get_"@ + s) == method_of_segment(s) by {
        let t = "get_"@ + s;
        assert(t.subrange(4, t.len() as int) =~= s);
        assert(("get_"@ + "edges"@) =~= "get_edges"@);
        if t == "get_edges"@ {
            assert("get_edges"@.subrange(4, "get_edges"@.len() as int) =~= "edges"@);
        }
        assert(("get_"@ + "supernodes"@) =~= "get_supernodes"@);
        if t == "get_supernodes"@ {
            assert("get_supernodes"@.subrange(4, "get_supernodes"@.len() as int) =~= "supernodes"@);
        }
        assert(("get_"@ + "info"@) =~= "get_info"@);
        if t == "get_info"@ {
            assert("get_info"@.subrange(4, "get_info"@.len() as int) =~= "info"@);
        }
        assert(("get_"@ + "packetstats"@) =~= "get_packetstats"@);
        if t == "get_packetstats"@ {
            assert("get_packetstats"@.subrange(4, "get_packetstats"@.len() as int) =~= "packetstats"@);
        }
        assert(("get_"@ + "timestamps"@) =~= "get_timestamps"@);
        if t == "get_timestamps"@ {
            assert("get_timestamps"@.subrange(4, "get_timestamps"@.len() as int) =~= "timestamps"@);
        }
        assert(("get_"@ + "communities"@) =~= "get_communities"@);
        if t == "get_communities"@ {
            assert("get_communities"@.subrange(4, "get_communities"@.len() as int) =~= "communities"@);
        }
    }
    lemma_method_names_round_trip(ApiMethod::Edges);
    assert("supernodes"@[0] != "timestamps"@[0]);
    assert("packetstats"@[0] != "communities"@[0]);
    assert("get_supernodes"@[4] != "get_timestamps"@[4]);
    assert("get_packetstats"@[4] != "get_communities"@[4]);
}

/// Every query is found again from its path segment and from its JSON-RPC
/// method name.
pub proof fn lemma_method_names_round_trip(m: ApiMethod)
    ensures
        method_of_segment(segment_of(m)) == Some(m),
        method_of_rpc_name("get_"@ + segment_of(m)) == Some(m),
{
    reveal_strlit("edges");
    reveal_strlit("supernodes");
    reveal_strlit("info");
    reveal_strlit("packetstats");
    reveal_strlit("timestamps");
    reveal_strlit("communities");
    reveal_strlit("get_");
    reveal_strlit("get_edges");
    reveal_strlit("get_supernodes");
    reveal_strlit("get_info");
    reveal_strlit("get_packetstats");
    reveal_strlit("get_timestamps");
    reveal_strlit("get_communities");
    assert("supernodes"@[0] != "timestamps"@[0]);
    assert("packetstats"@[0] != "communities"@[0]);
    assert("get_supernodes"@[4] != "get_timestamps"@[4]);
    assert("get_packetstats"@[4] != "get_communities"@[4]);
    assert("get_"@ + "edges"@ =~= "get_edges"@);
    assert("get_"@ + "supernodes"@ =~= "get_supernodes"@);
    assert("get_"@ + "info"@ =~= "get_info"@);
    assert("get_"@ + "packetstats"@ =~= "get_packetstats"@);
    assert("get_"@ + "timestamps"@ =~= "get_timestamps"@);
    assert("get_"@ + "communities"@ =~= "get_communities"@);
}

} // verus!
