//! The server's pure half: routing of method names and the JSON-RPC
//! response envelopes it answers with. The line loop and the dispatch to
//! subprocesses are the caller's work.

use vstd::prelude::*;
use crate::json::JVal;
use crate::json::Json;
use crate::json::jview;
use crate::json::jview_fields;
use crate::json::lemma_jview_fields_index;
use crate::strutil::str_eq;

verus! {

/// The request could not be parsed.
pub const PARSE_ERROR_CODE: i64 = -32700;

/// The method is not part of the protocol.
pub const METHOD_NOT_FOUND_CODE: i64 = -32601;

/// The parameters are missing or malformed.
pub const INVALID_PARAMS_CODE: i64 = -32602;

/// The handler itself failed.
pub const INTERNAL_ERROR_CODE: i64 = -32603;

/// The requests the server answers.
#[derive(Debug, Clone, Copy, PartialEq, Eq, Structural)]
pub enum McpMethod {
    Initialize,
    Initialized,
    ToolsList,
    ToolsCall,
    ResourcesList,
    ResourcesRead,
    Unknown,
}

/// The request dispatcher. It holds no state: every call stands alone.
pub struct Server {
}

impl Server {
    /// A server.
    pub fn new() -> (r: Server) {
        Server {  }
    }

    /// Which handler a method name selects.
    pub fn route_method(&self, method: &str) -> (r: McpMethod)
        ensures
            r == spec_route(method@),
    {
        if str_eq(method, "initialize") {
            McpMethod::Initialize
        } else if str_eq(method, "notifications/initialized") {
            McpMethod::Initialized
        } else if str_eq(method, "tools/list") {
            McpMethod::ToolsList
        } else if str_eq(method, "tools/call") {
            McpMethod::ToolsCall
        } else if str_eq(method, "resources/list") {
            McpMethod::ResourcesList
        } else if str_eq(method, "resources/read") {
            McpMethod::ResourcesRead
        } else {
            McpMethod::Unknown
        }
    }
}

/// Which handler a method name selects.
pub open spec fn spec_route(method: Seq<char>) -> McpMethod {
    if method == "initialize"@ {
        McpMethod::Initialize
    } else if method == "notifications/initialized"@ {
        McpMethod::Initialized
    } else if method == "tools/list"@ {
        McpMethod::ToolsList
    } else if method == "tools/call"@ {
        McpMethod::ToolsCall
    } else if method == "resources/list"@ {
        McpMethod::ResourcesList
    } else if method == "resources/read"@ {
        McpMethod::ResourcesRead
    } else {
        McpMethod::Unknown
    }
}

/// A successful response envelope.
pub open spec fn spec_response_ok(id: JVal, result: JVal) -> JVal {
    JVal::Obj(
        seq![("jsonrpc"@, JVal::Str("2.0"@)), ("id"@, id), ("result"@, result)],
    )
}

/// An error response envelope.
pub open spec fn spec_response_err(id: JVal, code: int, message: Seq<char>) -> JVal {
    JVal::Obj(
        seq![
            ("jsonrpc"@, JVal::Str("2.0"@)),
            ("id"@, id),
            (
                "error"@,
                JVal::Obj(seq![("code"@, JVal::Int(code)), ("message"@, JVal::Str(message))]),
            ),
        ],
    )
}

/// Builds a successful response envelope.
pub fn response_ok(id: Json, result: Json) -> (r: Json)
    ensures
        r@ == spec_response_ok(jview(id), jview(result)),
{
    let ghost idv = jview(id);
    let ghost rv = jview(result);
    let mut fields: Vec<(String, Json)> = Vec::new();
    fields.push(("jsonrpc".to_owned(), Json::Str("2.0".to_owned())));
    fields.push(("id".to_owned(), id));
    fields.push(("result".to_owned(), result));
    proof {
        lemma_jview_fields_index(fields@);
        assert(jview_fields(fields@)[0] == ((fields@[0]).0@, jview(fields@[0].1)));
        assert(jview_fields(fields@)[1] == ((fields@[1]).0@, jview(fields@[1].1)));
        assert(jview_fields(fields@)[2] == ((fields@[2]).0@, jview(fields@[2].1)));
        assert(jview_fields(fields@) =~= spec_response_ok(idv, rv)->Obj_0);
    }
    Json::Obj(fields)
}

/// Builds an error response envelope.
pub fn response_err(id: Json, code: i64, message: &str) -> (r: Json)
    ensures
        r@ == spec_response_err(jview(id), code as int, message@),
{
    let ghost idv = jview(id);
    let mut err_fields: Vec<(String, Json)> = Vec::new();
    err_fields.push(("code".to_owned(), Json::Int(code)));
    err_fields.push(("message".to_owned(), Json::Str(message.to_owned())));
    proof {
        lemma_jview_fields_index(err_fields@);
        assert(jview_fields(err_fields@)[0] == ((err_fields@[0]).0@, jview(err_fields@[0].1)));
        assert(jview_fields(err_fields@)[1] == ((err_fields@[1]).0@, jview(err_fields@[1].1)));
        assert(jview_fields(err_fields@) =~= seq![
            ("code"@, JVal::Int(code as int)),
            ("message"@, JVal::Str(message@)),
        ]);
    }
    let err = Json::Obj(err_fields);
    let mut fields: Vec<(String, Json)> = Vec::new();
    fields.push(("jsonrpc".to_owned(), Json::Str("2.0".to_owned())));
    fields.push(("id".to_owned(), id));
    fields.push(("error".to_owned(), err));
    proof {
        lemma_jview_fields_index(fields@);
        assert(jview_fields(fields@)[0] == ((fields@[0]).0@, jview(fields@[0].1)));
        assert(jview_fields(fields@)[1] == ((fields@[1]).0@, jview(fields@[1].1)));
        assert(jview_fields(fields@)[2] == ((fields@[2]).0@, jview(fields@[2].1)));
        assert(jview_fields(fields@) =~= spec_response_err(idv, code as int, message@)->Obj_0);
    }
    Json::Obj(fields)
}

/// An empty-object result, answered to notifications.
pub fn empty_result() -> (r: Json)
    ensures
        r@ == JVal::Obj(Seq::empty()),
{
    let fields: Vec<(String, Json)> = Vec::new();
    proof {
        assert(jview_fields(fields@) =~= Seq::<(Seq<char>, JVal)>::empty());
    }
    Json::Obj(fields)
}

} // verus!
