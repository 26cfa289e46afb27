//! Building the parameter payloads of each capability call, and the small
//! path-to-URI helpers the tool layer uses around them.

use vstd::prelude::*;
use crate::json::JVal;
use crate::json::Json;
use crate::json::jview;
use crate::json::jview_fields;
use crate::json::jview_list;
use crate::json::lemma_jview_fields_index;
use crate::json::lemma_jview_list_index;
use crate::strutil::push_chars;
use crate::strutil::str_starts_with;

verus! {

/// A string value.
fn jstr(s: &str) -> (r: Json)
    ensures
        r@ == JVal::Str(s@),
{
    Json::Str(s.to_owned())
}

/// An empty object.
fn obj0() -> (r: Json)
    ensures
        r@ == JVal::Obj(Seq::empty()),
{
    let fields: Vec<(String, Json)> = Vec::new();
    proof {
        assert(jview_fields(fields@) =~= Seq::<(Seq<char>, JVal)>::empty());
    }
    Json::Obj(fields)
}

/// An object of one field.
fn obj1(k: &str, v: Json) -> (r: Json)
    ensures
        r@ == JVal::Obj(seq![(k@, jview(v))]),
{
    let ghost vv = jview(v);
    let mut fields: Vec<(String, Json)> = Vec::new();
    fields.push((k.to_owned(), v));
    proof {
        lemma_jview_fields_index(fields@);
        assert(jview_fields(fields@)[0] == ((fields@[0]).0@, jview(fields@[0].1)));
        assert(jview_fields(fields@) =~= seq![(k@, vv)]);
    }
    Json::Obj(fields)
}

/// An object of two fields.
fn obj2(k1: &str, v1: Json, k2: &str, v2: Json) -> (r: Json)
    ensures
        r@ == JVal::Obj(seq![(k1@, jview(v1)), (k2@, jview(v2))]),
{
    let ghost w1 = jview(v1);
    let ghost w2 = jview(v2);
    let mut fields: Vec<(String, Json)> = Vec::new();
    fields.push((k1.to_owned(), v1));
    fields.push((k2.to_owned(), v2));
    proof {
        lemma_jview_fields_index(fields@);
        assert(jview_fields(fields@)[0] == ((fields@[0]).0@, jview(fields@[0].1)));
        assert(jview_fields(fields@)[1] == ((fields@[1]).0@, jview(fields@[1].1)));
        assert(jview_fields(fields@) =~= seq![(k1@, w1), (k2@, w2)]);
    }
    Json::Obj(fields)
}

/// An object of three fields.
fn obj3(k1: &str, v1: Json, k2: &str, v2: Json, k3: &str, v3: Json) -> (r: Json)
    ensures
        r@ == JVal::Obj(seq![(k1@, jview(v1)), (k2@, jview(v2)), (k3@, jview(v3))]),
{
    let ghost w1 = jview(v1);
    let ghost w2 = jview(v2);
    let ghost w3 = jview(v3);
    let mut fields: Vec<(String, Json)> = Vec::new();
    fields.push((k1.to_owned(), v1));
    fields.push((k2.to_owned(), v2));
    fields.push((k3.to_owned(), v3));
    proof {
        lemma_jview_fields_index(fields@);
        assert(jview_fields(fields@)[0] == ((fields@[0]).0@, jview(fields@[0].1)));
        assert(jview_fields(fields@)[1] == ((fields@[1]).0@, jview(fields@[1].1)));
        assert(jview_fields(fields@)[2] == ((fields@[2]).0@, jview(fields@[2].1)));
        assert(jview_fields(fields@) =~= seq![(k1@, w1), (k2@, w2), (k3@, w3)]);
    }
    Json::Obj(fields)
}

/// An object of four fields.
fn obj4(k1: &str, v1: Json, k2: &str, v2: Json, k3: &str, v3: Json, k4: &str, v4: Json) -> (r:
    Json)
    ensures
        r@ == JVal::Obj(
            seq![(k1@, jview(v1)), (k2@, jview(v2)), (k3@, jview(v3)), (k4@, jview(v4))],
        ),
{
    let ghost w1 = jview(v1);
    let ghost w2 = jview(v2);
    let ghost w3 = jview(v3);
    let ghost w4 = jview(v4);
    let mut fields: Vec<(String, Json)> = Vec::new();
    fields.push((k1.to_owned(), v1));
    fields.push((k2.to_owned(), v2));
    fields.push((k3.to_owned(), v3));
    fields.push((k4.to_owned(), v4));
    proof {
        lemma_jview_fields_index(fields@);
        assert(jview_fields(fields@)[0] == ((fields@[0]).0@, jview(fields@[0].1)));
        assert(jview_fields(fields@)[1] == ((fields@[1]).0@, jview(fields@[1].1)));
        assert(jview_fields(fields@)[2] == ((fields@[2]).0@, jview(fields@[2].1)));
        assert(jview_fields(fields@)[3] == ((fields@[3]).0@, jview(fields@[3].1)));
        assert(jview_fields(fields@) =~= seq![(k1@, w1), (k2@, w2), (k3@, w3), (k4@, w4)]);
    }
    Json::Obj(fields)
}

/// An array of two values.
fn arr2(a: Json, b: Json) -> (r: Json)
    ensures
        r@ == JVal::Arr(seq![jview(a), jview(b)]),
{
    let ghost wa = jview(a);
    let ghost wb = jview(b);
    let mut items: Vec<Json> = Vec::new();
    items.push(a);
    items.push(b);
    proof {
        lemma_jview_list_index(items@);
        assert(jview_list(items@)[0] == jview(items@[0]));
        assert(jview_list(items@)[1] == jview(items@[1]));
        assert(jview_list(items@) =~= seq![wa, wb]);
    }
    Json::Arr(items)
}

/// The format list `["plaintext", "markdown"]` sent for hover and
/// completion documentation.
pub open spec fn spec_format_list() -> JVal {
    JVal::Arr(seq![JVal::Str("plaintext"@), JVal::Str("markdown"@)])
}

/// The fixed client capabilities: markdown and plaintext documentation for
/// completion and hover, and the diagnostics subscription.
pub open spec fn spec_client_capabilities() -> JVal {
    JVal::Obj(
        seq![
            (
                "textDocument"@,
                JVal::Obj(
                    seq![
                        (
                            "completion"@,
                            JVal::Obj(
                                seq![
                                    (
                                        "completionItem"@,
                                        JVal::Obj(
                                            seq![("documentationFormat"@, spec_format_list())],
                                        ),
                                    ),
                                ],
                            ),
                        ),
                        ("hover"@, JVal::Obj(seq![("contentFormat"@, spec_format_list())])),
                        ("publishDiagnostics"@, JVal::Obj(Seq::empty())),
                    ],
                ),
            ),
        ],
    )
}

/// The `initialize` request parameters.
pub open spec fn spec_initialize_params(pid: int, root_uri: Option<Seq<char>>) -> JVal {
    JVal::Obj(
        seq![
            ("processId"@, JVal::Int(pid)),
            (
                "rootUri"@,
                match root_uri {
                    Some(u) => JVal::Str(u),
                    None => JVal::Null,
                },
            ),
            ("capabilities"@, spec_client_capabilities()),
        ],
    )
}

/// Builds the `initialize` request parameters.
pub fn initialize_params(process_id: i64, root_uri: Option<&str>) -> (r: Json)
    ensures
        r@ == spec_initialize_params(
            process_id as int,
            match root_uri {
                Some(u) => Some(u@),
                None => None,
            },
        ),
{
    let formats1 = arr2(jstr("plaintext"), jstr("markdown"));
    let formats2 = arr2(jstr("plaintext"), jstr("markdown"));
    let completion = obj1("completionItem", obj1("documentationFormat", formats1));
    let hover = obj1("contentFormat", formats2);
    let text_document = obj3("completion", completion, "hover", hover, "publishDiagnostics", obj0());
    let capabilities = obj1("textDocument", text_document);
    let root: Json = match root_uri {
        Some(u) => jstr(u),
        None => Json::Null,
    };
    let r = obj3("processId", Json::Int(process_id), "rootUri", root, "capabilities", capabilities);
    proof {
        let ghost tv = spec_initialize_params(
            process_id as int,
            match root_uri {
                Some(u) => Some(u@),
                None => None,
            },
        );
        assert(jview(capabilities) =~~= spec_client_capabilities());
        assert(r@->Obj_0 =~= tv->Obj_0);
        assert(r@ == tv);
    }
    r
}

/// The `textDocument/didOpen` parameters: full text, language `nix`,
/// version 1.
pub open spec fn spec_did_open_params(uri: Seq<char>, text: Seq<char>) -> JVal {
    JVal::Obj(
        seq![
            (
                "textDocument"@,
                JVal::Obj(
                    seq![
                        ("uri"@, JVal::Str(uri)),
                        ("languageId"@, JVal::Str("nix"@)),
                        ("version"@, JVal::Int(1)),
                        ("text"@, JVal::Str(text)),
                    ],
                ),
            ),
        ],
    )
}

/// Builds the `textDocument/didOpen` parameters.
pub fn did_open_params(uri: &str, text: &str) -> (r: Json)
    ensures
        r@ == spec_did_open_params(uri@, text@),
{
    let td = obj4(
        "uri",
        jstr(uri),
        "languageId",
        jstr("nix"),
        "version",
        Json::Int(1),
        "text",
        jstr(text),
    );
    let r = obj1("textDocument", td);
    proof {
        assert(r@ =~~= spec_did_open_params(uri@, text@));
    }
    r
}

/// Parameters keyed by document and zero-based position, shared by the
/// completion, hover and definition requests.
pub open spec fn spec_position_params(uri: Seq<char>, line: int, character: int) -> JVal {
    JVal::Obj(
        seq![
            ("textDocument"@, JVal::Obj(seq![("uri"@, JVal::Str(uri))])),
            (
                "position"@,
                JVal::Obj(seq![("line"@, JVal::Int(line)), ("character"@, JVal::Int(character))]),
            ),
        ],
    )
}

/// Builds document/position parameters.
pub fn position_params(uri: &str, line: u32, character: u32) -> (r: Json)
    ensures
        r@ == spec_position_params(uri@, line as int, character as int),
{
    let td = obj1("uri", jstr(uri));
    let pos = obj2("line", Json::Int(line as i64), "character", Json::Int(character as i64));
    let r = obj2("textDocument", td, "position", pos);
    proof {
        assert(r@ =~~= spec_position_params(uri@, line as int, character as int));
    }
    r
}

/// A document URI for a file path: paths that are already URIs pass
/// through, anything else gains the `file://` scheme.
pub fn file_to_uri(path: &str) -> (r: String)
    ensures
        path@.len() >= 7 && path@.subrange(0, 7) == "file://"@ ==> r@ == path@,
        !(path@.len() >= 7 && path@.subrange(0, 7) == "file://"@) ==> r@ == "file://"@ + path@,
{
    proof {
        reveal_strlit("file://");
    }
    if str_starts_with(path, "file://") {
        path.to_owned()
    } else {
        let mut s = String::new();
        push_chars(&mut s, "file://");
        push_chars(&mut s, path);
        proof {
            assert(s@ =~= "file://"@ + path@);
        }
        s
    }
}

/// The position of the last separator of a path, if any.
pub open spec fn spec_last_slash(s: Seq<char>) -> Option<int>
    decreases s,
{
    if s.len() == 0 {
        None
    } else if s.last() == '/' {
        Some(s.len() - 1)
    } else {
        spec_last_slash(s.drop_last())
    }
}

/// The root URI for a file path: the containing directory with the
/// `file://` scheme. A path with no separator yields the bare scheme; the
/// root directory is its own parent.
pub fn get_root_uri(file_path: &str) -> (r: Option<String>)
    ensures
        match r {
            Some(u) => match spec_last_slash(file_path@) {
                Some(k) => if k == 0 {
                    u@ == "file://"@ + seq!['/']
                } else {
                    u@ == "file://"@ + file_path@.take(k)
                },
                None => u@ == "file://"@,
            },
            None => false,
        },
{
    let cs = crate::strutil::chars_of(file_path);
    let mut i = cs.len();
    proof {
        assert(cs@.take(cs@.len() as int) =~= cs@);
    }
    let mut last: Option<usize> = None;
    while i > 0
        invariant
            cs@ == file_path@,
            i <= cs@.len(),
            match last {
                Some(k) => k < cs@.len() && spec_last_slash(cs@) == Some(k as int),
                None => spec_last_slash(cs@) == spec_last_slash(cs@.take(i as int)),
            },
        decreases i,
    {
        proof {
            assert(cs@.take(i as int).drop_last() =~= cs@.take(i - 1));
            assert(cs@.take(i as int).last() == cs@[i - 1]);
        }
        if last.is_none() && cs[i - 1] == '/' {
            last = Some(i - 1);
        }
        i = i - 1;
    }
    let mut s = String::new();
    push_chars(&mut s, "file://");
    match last {
        Some(k) => {
            if k == 0 {
                s.push('/');
                proof {
                    assert(s@ =~= "file://"@ + seq!['/']);
                }
            } else {
                let mut j: usize = 0;
                while j < k
                    invariant
                        cs@ == file_path@,
                        k < cs@.len(),
                        j <= k,
                        s@ == "file://"@ + cs@.take(j as int),
                    decreases k - j,
                {
                    s.push(cs[j]);
                    proof {
                        assert(s@ =~= "file://"@ + cs@.take(j + 1 as int));
                    }
                    j = j + 1;
                }
            }
        },
        None => {
            proof {
                assert(cs@.take(0) =~= Seq::<char>::empty());
            }
        },
    }
    Some(s)
}

/// The protocol's name for a completion item kind.
pub open spec fn spec_completion_kind_name(kind: int) -> Seq<char> {
    if kind == 1 {
        "text"@
    } else if kind == 2 {
        "method"@
    } else if kind == 3 {
        "function"@
    } else if kind == 4 {
        "constructor"@
    } else if kind == 5 {
        "field"@
    } else if kind == 6 {
        "variable"@
    } else if kind == 7 {
        "class"@
    } else if kind == 8 {
        "interface"@
    } else if kind == 9 {
        "module"@
    } else if kind == 10 {
        "property"@
    } else if kind == 11 {
        "unit"@
    } else if kind == 12 {
        "value"@
    } else if kind == 13 {
        "enum"@
    } else if kind == 14 {
        "keyword"@
    } else if kind == 15 {
        "snippet"@
    } else if kind == 16 {
        "color"@
    } else if kind == 17 {
        "file"@
    } else if kind == 18 {
        "reference"@
    } else if kind == 19 {
        "folder"@
    } else if kind == 20 {
        "enum_member"@
    } else if kind == 21 {
        "constant"@
    } else if kind == 22 {
        "struct"@
    } else if kind == 23 {
        "event"@
    } else if kind == 24 {
        "operator"@
    } else if kind == 25 {
        "type_parameter"@
    } else {
        "unknown"@
    }
}

/// Names a completion item kind.
pub fn completion_kind_to_string(kind: u32) -> (r: &'static str)
    ensures
        r@ == spec_completion_kind_name(kind as int),
{
    match kind {
        1 => "text",
        2 => "method",
        3 => "function",
        4 => "constructor",
        5 => "field",
        6 => "variable",
        7 => "class",
        8 => "interface",
        9 => "module",
        10 => "property",
        11 => "unit",
        12 => "value",
        13 => "enum",
        14 => "keyword",
        15 => "snippet",
        16 => "color",
        17 => "file",
        18 => "reference",
        19 => "folder",
        20 => "enum_member",
        21 => "constant",
        22 => "struct",
        23 => "event",
        24 => "operator",
        25 => "type_parameter",
        _ => "unknown",
    }
}

} // verus!
