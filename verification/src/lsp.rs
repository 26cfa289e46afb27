//! The typed results of the capability API, and the exact decoding of each
//! from the JSON shapes the protocol allows. Every accepted encoding is
//! written down in a `spec` function; the executable decoders return
//! precisely what those specifications say.

use vstd::prelude::*;
use crate::json::JVal;
use crate::json::Json;
use crate::json::jget;
use crate::json::jview;
use crate::json::jview_list;
use crate::json::ser_jval;
use crate::json::json_to_text;

verus! {

/// A failure of the client, by kind.
#[derive(Debug)]
pub enum LspError {
    /// The server process could not be started.
    SpawnFailed(String),
    /// Reading from or writing to the server failed.
    Communication(String),
    /// A malformed frame, invalid JSON, or an error response.
    Protocol(String),
    /// No response arrived within the deadline, in seconds.
    Timeout(u64),
    /// An input/output failure outside the pipes.
    Io(String),
    /// The requested document does not exist.
    FileNotFound(String),
}

#[derive(Debug, Clone, Copy, PartialEq, Eq, Structural)]
pub struct Position {
    pub line: u32,
    pub character: u32,
}

#[derive(Debug, Clone, Copy, PartialEq, Eq, Structural)]
pub struct Range {
    pub start: Position,
    pub end: Position,
}

#[derive(Debug, Clone, Copy, PartialEq, Eq, Structural)]
pub struct DiagnosticSeverity(pub u32);

impl DiagnosticSeverity {
    /// The protocol's name for this severity level.
    pub fn as_str(&self) -> (r: &'static str)
        ensures
            self.0 == 1 ==> r@ == "error"@,
            self.0 == 2 ==> r@ == "warning"@,
            self.0 == 3 ==> r@ == "information"@,
            self.0 == 4 ==> r@ == "hint"@,
            !(1 <= self.0 <= 4) ==> r@ == "unknown"@,
    {
        match self.0 {
            1 => "error",
            2 => "warning",
            3 => "information",
            4 => "hint",
            _ => "unknown",
        }
    }
}

#[derive(Debug)]
pub struct Diagnostic {
    pub range: Range,
    pub severity: Option<DiagnosticSeverity>,
    pub message: String,
    pub source: Option<String>,
}

#[derive(Debug)]
pub struct CompletionItem {
    pub label: String,
    pub kind: Option<u32>,
    pub detail: Option<String>,
    pub documentation: Option<String>,
}

#[derive(Debug)]
pub struct HoverResult {
    pub contents: String,
    pub range: Option<Range>,
}

#[derive(Debug)]
pub struct Location {
    pub uri: String,
    pub range: Range,
}

/// The mathematical value of a [`Diagnostic`].
#[verifier::ext_equal]
pub struct DiagnosticV {
    pub range: Range,
    pub severity: Option<int>,
    pub message: Seq<char>,
    pub source: Option<Seq<char>>,
}

/// The mathematical value of a [`CompletionItem`].
#[verifier::ext_equal]
pub struct CompletionItemV {
    pub label: Seq<char>,
    pub kind: Option<int>,
    pub detail: Option<Seq<char>>,
    pub documentation: Option<Seq<char>>,
}

/// The mathematical value of a [`HoverResult`].
#[verifier::ext_equal]
pub struct HoverV {
    pub contents: Seq<char>,
    pub range: Option<Range>,
}

/// The mathematical value of a [`Location`].
#[verifier::ext_equal]
pub struct LocationV {
    pub uri: Seq<char>,
    pub range: Range,
}

impl View for Diagnostic {
    type V = DiagnosticV;

    open spec fn view(&self) -> DiagnosticV {
        DiagnosticV {
            range: self.range,
            severity: match self.severity {
                Some(s) => Some(s.0 as int),
                None => None,
            },
            message: self.message@,
            source: match self.source {
                Some(s) => Some(s@),
                None => None,
            },
        }
    }
}

impl View for CompletionItem {
    type V = CompletionItemV;

    open spec fn view(&self) -> CompletionItemV {
        CompletionItemV {
            label: self.label@,
            kind: match self.kind {
                Some(k) => Some(k as int),
                None => None,
            },
            detail: match self.detail {
                Some(s) => Some(s@),
                None => None,
            },
            documentation: match self.documentation {
                Some(s) => Some(s@),
                None => None,
            },
        }
    }
}

impl View for HoverResult {
    type V = HoverV;

    open spec fn view(&self) -> HoverV {
        HoverV { contents: self.contents@, range: self.range }
    }
}

impl View for Location {
    type V = LocationV;

    open spec fn view(&self) -> LocationV {
        LocationV { uri: self.uri@, range: self.range }
    }
}

/// A non-negative wire integer, as `as_u64` reads one.
pub open spec fn spec_as_u64(v: JVal) -> Option<int> {
    match v {
        JVal::Int(n) => if n >= 0 {
            Some(n)
        } else {
            None
        },
        _ => None,
    }
}

/// A 32-bit field value: the low 32 bits of the wire integer.
pub open spec fn spec_u32_of(n: int) -> int {
    n % 0x1_0000_0000
}

/// A position: required `line` and `character` fields.
pub open spec fn spec_position(v: JVal) -> Option<Position> {
    match jget(v, "line"@) {
        Some(l) => match spec_as_u64(l) {
            Some(ln) => match jget(v, "character"@) {
                Some(c) => match spec_as_u64(c) {
                    Some(ch) => Some(
                        Position { line: spec_u32_of(ln) as u32, character: spec_u32_of(ch) as u32 },
                    ),
                    None => None,
                },
                None => None,
            },
            None => None,
        },
        None => None,
    }
}

/// A range: required `start` and `end` positions.
pub open spec fn spec_range(v: JVal) -> Option<Range> {
    match jget(v, "start"@) {
        Some(s) => match spec_position(s) {
            Some(sp) => match jget(v, "end"@) {
                Some(e) => match spec_position(e) {
                    Some(ep) => Some(Range { start: sp, end: ep }),
                    None => None,
                },
                None => None,
            },
            None => None,
        },
        None => None,
    }
}

/// An optional string field.
pub open spec fn spec_str_field(v: JVal, key: Seq<char>) -> Option<Seq<char>> {
    match jget(v, key) {
        Some(JVal::Str(s)) => Some(s),
        _ => None,
    }
}

/// A diagnostic: required range and message, optional severity and source.
pub open spec fn spec_diagnostic(v: JVal) -> Option<DiagnosticV> {
    match jget(v, "range"@) {
        Some(r) => match spec_range(r) {
            Some(range) => match spec_str_field(v, "message"@) {
                Some(message) => Some(
                    DiagnosticV {
                        range,
                        severity: match jget(v, "severity"@) {
                            Some(s) => match spec_as_u64(s) {
                                Some(n) => Some(spec_u32_of(n)),
                                None => None,
                            },
                            None => None,
                        },
                        message,
                        source: spec_str_field(v, "source"@),
                    },
                ),
                None => None,
            },
            None => None,
        },
        None => None,
    }
}

/// A completion item: required label; the documentation may be a string or
/// a markup object with a `value` field.
pub open spec fn spec_completion_item(v: JVal) -> Option<CompletionItemV> {
    match spec_str_field(v, "label"@) {
        Some(label) => Some(
            CompletionItemV {
                label,
                kind: match jget(v, "kind"@) {
                    Some(k) => match spec_as_u64(k) {
                        Some(n) => Some(spec_u32_of(n)),
                        None => None,
                    },
                    None => None,
                },
                detail: spec_str_field(v, "detail"@),
                documentation: match jget(v, "documentation"@) {
                    Some(JVal::Str(s)) => Some(s),
                    Some(d) => spec_str_field(d, "value"@),
                    None => None,
                },
            },
        ),
        None => None,
    }
}

/// A location: required uri and range.
pub open spec fn spec_location(v: JVal) -> Option<LocationV> {
    match spec_str_field(v, "uri"@) {
        Some(uri) => match jget(v, "range"@) {
            Some(r) => match spec_range(r) {
                Some(range) => Some(LocationV { uri, range }),
                None => None,
            },
            None => None,
        },
        None => None,
    }
}


/// The low 32 bits of a non-negative wire integer.
fn u32_of_nonneg(n: i64) -> (r: u32)
    requires
        n >= 0,
    ensures
        r as int == spec_u32_of(n as int),
{
    let nu: u64 = n as u64;
    let t: u32 = #[verifier::truncate] (nu as u32);
    proof {
        assert(t as u64 == nu & 0xffffffffu64) by (bit_vector)
            requires
                t == nu as u32,
        ;
        vstd::bits::lemma_u64_low_bits_mask_is_mod(nu, 32);
        vstd::bits::lemma_low_bits_mask_values();
        vstd::arithmetic::power2::lemma2_to64();
    }
    t
}

/// Reads a position from a JSON value.
fn parse_position(v: &Json) -> (r: Option<Position>)
    ensures
        r == spec_position(v@),
{
    let l = match v.get("line") {
        Some(l) => l,
        None => {
            return None;
        },
    };
    let ln = match l.as_i64() {
        Some(n) => if n >= 0 {
            n
        } else {
            return None;
        },
        None => {
            return None;
        },
    };
    let c = match v.get("character") {
        Some(c) => c,
        None => {
            return None;
        },
    };
    let ch = match c.as_i64() {
        Some(n) => if n >= 0 {
            n
        } else {
            return None;
        },
        None => {
            return None;
        },
    };
    let p = Position { line: u32_of_nonneg(ln), character: u32_of_nonneg(ch) };
    Some(p)
}

/// Reads a range from a JSON value.
fn parse_range(v: &Json) -> (r: Option<Range>)
    ensures
        r == spec_range(v@),
{
    let s = match v.get("start") {
        Some(s) => s,
        None => {
            return None;
        },
    };
    let sp = match parse_position(s) {
        Some(p) => p,
        None => {
            return None;
        },
    };
    let e = match v.get("end") {
        Some(e) => e,
        None => {
            return None;
        },
    };
    let ep = match parse_position(e) {
        Some(p) => p,
        None => {
            return None;
        },
    };
    Some(Range { start: sp, end: ep })
}

/// Reads an optional string field.
fn get_str_field(v: &Json, key: &str) -> (r: Option<String>)
    ensures
        match r {
            Some(s) => spec_str_field(v@, key@) == Some(s@),
            None => spec_str_field(v@, key@) is None,
        },
{
    match v.get(key) {
        Some(f) => match f.as_text() {
            Some(s) => Some(s.clone()),
            None => None,
        },
        None => None,
    }
}

/// Reads one diagnostic from a JSON value.
pub fn parse_diagnostic(v: &Json) -> (r: Option<Diagnostic>)
    ensures
        match r {
            Some(d) => spec_diagnostic(v@) == Some(d@),
            None => spec_diagnostic(v@) is None,
        },
{
    let rj = match v.get("range") {
        Some(r) => r,
        None => {
            return None;
        },
    };
    let range = match parse_range(rj) {
        Some(r) => r,
        None => {
            return None;
        },
    };
    let message = match get_str_field(v, "message") {
        Some(m) => m,
        None => {
            return None;
        },
    };
    let severity: Option<DiagnosticSeverity> = match v.get("severity") {
        Some(s) => match s.as_i64() {
            Some(n) => if n >= 0 {
                Some(DiagnosticSeverity(u32_of_nonneg(n)))
            } else {
                None
            },
            None => None,
        },
        None => None,
    };
    let source = get_str_field(v, "source");
    let d = Diagnostic { range, severity, message, source };
    proof {
        assert(spec_diagnostic(v@) == Some(d@)) by {
            assert(spec_diagnostic(v@).unwrap() =~= d@);
        }
    }
    Some(d)
}

/// Reads one completion item from a JSON value.
pub fn parse_completion_item(v: &Json) -> (r: Option<CompletionItem>)
    ensures
        match r {
            Some(c) => spec_completion_item(v@) == Some(c@),
            None => spec_completion_item(v@) is None,
        },
{
    let label = match get_str_field(v, "label") {
        Some(l) => l,
        None => {
            return None;
        },
    };
    let kind: Option<u32> = match v.get("kind") {
        Some(k) => match k.as_i64() {
            Some(n) => if n >= 0 {
                Some(u32_of_nonneg(n))
            } else {
                None
            },
            None => None,
        },
        None => None,
    };
    let detail = get_str_field(v, "detail");
    let documentation: Option<String> = match v.get("documentation") {
        Some(d) => match d.as_text() {
            Some(s) => Some(s.clone()),
            None => get_str_field(d, "value"),
        },
        None => None,
    };
    let c = CompletionItem { label, kind, detail, documentation };
    proof {
        assert(spec_completion_item(v@) == Some(c@)) by {
            assert(spec_completion_item(v@).unwrap() =~= c@);
        }
    }
    Some(c)
}

/// Reads one location from a JSON value.
pub fn parse_location(v: &Json) -> (r: Option<Location>)
    ensures
        match r {
            Some(l) => spec_location(v@) == Some(l@),
            None => spec_location(v@) is None,
        },
{
    let uri = match get_str_field(v, "uri") {
        Some(u) => u,
        None => {
            return None;
        },
    };
    let rj = match v.get("range") {
        Some(r) => r,
        None => {
            return None;
        },
    };
    let range = match parse_range(rj) {
        Some(r) => r,
        None => {
            return None;
        },
    };
    let l = Location { uri, range };
    proof {
        assert(spec_location(v@) == Some(l@)) by {
            assert(spec_location(v@).unwrap() =~= l@);
        }
    }
    Some(l)
}

impl LspError {
    /// The text the failure describes itself with.
    pub fn message(&self) -> (r: String)
        ensures
            match self {
                LspError::SpawnFailed(m) => r@ == "Failed to spawn LSP process: "@ + m@,
                LspError::Communication(m) => r@ == "LSP communication error: "@ + m@,
                LspError::Protocol(m) => r@ == "LSP protocol error: "@ + m@,
                LspError::Timeout(_) => r@ == "LSP request timeout"@,
                LspError::Io(m) => r@ == "IO error: "@ + m@,
                LspError::FileNotFound(m) => r@ == "File not found: "@ + m@,
            },
    {
        let mut s = String::new();
        match self {
            LspError::SpawnFailed(m) => {
                crate::strutil::push_chars(&mut s, "Failed to spawn LSP process: ");
                crate::strutil::push_chars(&mut s, m.as_str());
            },
            LspError::Communication(m) => {
                crate::strutil::push_chars(&mut s, "LSP communication error: ");
                crate::strutil::push_chars(&mut s, m.as_str());
            },
            LspError::Protocol(m) => {
                crate::strutil::push_chars(&mut s, "LSP protocol error: ");
                crate::strutil::push_chars(&mut s, m.as_str());
            },
            LspError::Timeout(_) => {
                crate::strutil::push_chars(&mut s, "LSP request timeout");
            },
            LspError::Io(m) => {
                crate::strutil::push_chars(&mut s, "IO error: ");
                crate::strutil::push_chars(&mut s, m.as_str());
            },
            LspError::FileNotFound(m) => {
                crate::strutil::push_chars(&mut s, "File not found: ");
                crate::strutil::push_chars(&mut s, m.as_str());
            },
        }
        s
    }
}


/// The completion items recovered from an array, in order, dropping
/// entries without a label.
pub open spec fn spec_items_of(arr: Seq<JVal>) -> Seq<CompletionItemV>
    decreases arr,
{
    if arr.len() == 0 {
        Seq::empty()
    } else {
        spec_items_of(arr.drop_last()) + (match spec_completion_item(arr.last()) {
            Some(c) => seq![c],
            None => Seq::empty(),
        })
    }
}

/// Completion normalization: a bare array of items, or an object with an
/// `items` array; any other shape is an empty list.
pub open spec fn spec_completion_result(v: JVal) -> Seq<CompletionItemV> {
    match v {
        JVal::Arr(items) => spec_items_of(items),
        _ => match jget(v, "items"@) {
            Some(JVal::Arr(items)) => spec_items_of(items),
            _ => Seq::empty(),
        },
    }
}

/// The views of a vector of completion items.
pub open spec fn items_view(s: Seq<CompletionItem>) -> Seq<CompletionItemV>
    decreases s,
{
    if s.len() == 0 {
        Seq::empty()
    } else {
        items_view(s.drop_last()).push(s.last()@)
    }
}

/// The locations recovered from an array, in order, dropping entries
/// without a uri or range.
pub open spec fn spec_locations_of(arr: Seq<JVal>) -> Seq<LocationV>
    decreases arr,
{
    if arr.len() == 0 {
        Seq::empty()
    } else {
        spec_locations_of(arr.drop_last()) + (match spec_location(arr.last()) {
            Some(l) => seq![l],
            None => Seq::empty(),
        })
    }
}

/// Goto-definition normalization: null is an empty list, a single location
/// is a one-element list, an array is taken as-is, and any other shape is
/// an empty list.
pub open spec fn spec_definition_result(v: JVal) -> Seq<LocationV> {
    match v {
        JVal::Null => Seq::empty(),
        JVal::Arr(items) => spec_locations_of(items),
        _ => match spec_location(v) {
            Some(l) => seq![l],
            None => Seq::empty(),
        },
    }
}

/// The views of a vector of locations.
pub open spec fn locs_view(s: Seq<Location>) -> Seq<LocationV>
    decreases s,
{
    if s.len() == 0 {
        Seq::empty()
    } else {
        locs_view(s.drop_last()).push(s.last()@)
    }
}

/// One hover fragment: a plain string, or a markup object's `value`.
pub open spec fn spec_hover_entry(v: JVal) -> Option<Seq<char>> {
    match v {
        JVal::Str(s) => Some(s),
        _ => spec_str_field(v, "value"@),
    }
}

/// The hover fragments of an array, dropping unrecognized entries.
pub open spec fn spec_hover_parts(arr: Seq<JVal>) -> Seq<Seq<char>>
    decreases arr,
{
    if arr.len() == 0 {
        Seq::empty()
    } else {
        spec_hover_parts(arr.drop_last()) + (match spec_hover_entry(arr.last()) {
            Some(s) => seq![s],
            None => Seq::empty(),
        })
    }
}

/// Fragments joined with newlines.
pub open spec fn spec_join_nl(parts: Seq<Seq<char>>) -> Seq<char>
    decreases parts,
{
    if parts.len() == 0 {
        Seq::empty()
    } else if parts.len() == 1 {
        parts[0]
    } else {
        spec_join_nl(parts.drop_last()) + seq!['\n'] + parts.last()
    }
}

/// Hover normalization of the `contents` field: a string stands alone, an
/// array's fragments are joined with newlines, a markup object gives its
/// `value`, and anything else is rendered as its JSON text.
pub open spec fn spec_hover_contents(c: JVal) -> Seq<char> {
    match c {
        JVal::Str(s) => s,
        JVal::Arr(items) => spec_join_nl(spec_hover_parts(items)),
        _ => match spec_str_field(c, "value"@) {
            Some(s) => s,
            None => ser_jval(c),
        },
    }
}

/// Hover normalization: a null result means no hover; otherwise the
/// `contents` field is required and normalized, and the range is optional.
pub open spec fn spec_hover_result(v: JVal) -> Option<HoverV> {
    if v is Null {
        None
    } else {
        match jget(v, "contents"@) {
            None => None,
            Some(c) => Some(
                HoverV {
                    contents: spec_hover_contents(c),
                    range: match jget(v, "range"@) {
                        Some(r) => spec_range(r),
                        None => None,
                    },
                },
            ),
        }
    }
}

/// Collects the completion items of an array value.
fn collect_items(items: &Vec<Json>) -> (r: Vec<CompletionItem>)
    ensures
        items_view(r@) == spec_items_of(jview_list(items@)),
{
    let ghost iv = jview_list(items@);
    proof {
        crate::json::lemma_jview_list_index(items@);
        assert(iv.take(0) =~= Seq::<JVal>::empty());
    }
    let mut out: Vec<CompletionItem> = Vec::new();
    let mut i: usize = 0;
    while i < items.len()
        invariant
            iv == jview_list(items@),
            iv.len() == items@.len(),
            forall|m: int| 0 <= m < items@.len() ==> iv[m] == jview(#[trigger] items@[m]),
            i <= items@.len(),
            items_view(out@) == spec_items_of(iv.take(i as int)),
        decreases items@.len() - i,
    {
        let ghost pre = out@;
        match parse_completion_item(&items[i]) {
            Some(c) => {
                proof {
                    assert(pre.push(c).drop_last() =~= pre);
                    assert(pre.push(c).last() == c);
                }
                out.push(c);
            },
            None => {},
        }
        proof {
            assert(iv.take(i + 1 as int).drop_last() =~= iv.take(i as int));
            assert(iv.take(i + 1 as int).last() == iv[i as int]);
            assert(items_view(out@) =~= spec_items_of(iv.take(i + 1 as int)));
        }
        i = i + 1;
    }
    proof {
        assert(iv.take(iv.len() as int) =~= iv);
    }
    out
}

/// Normalizes a completion response into its items.
pub fn normalize_completion(v: &Json) -> (r: Vec<CompletionItem>)
    ensures
        items_view(r@) == spec_completion_result(v@),
{
    match v {
        Json::Arr(items) => collect_items(items),
        _ => {
            match v.get("items") {
                Some(f) => match f.as_items() {
                    Some(items) => {
                        proof {
                            assert(jget(v@, "items"@) == Some(JVal::Arr(jview_list(items@))));
                        }
                        collect_items(items)
                    },
                    None => Vec::new(),
                },
                None => Vec::new(),
            }
        },
    }
}

/// Collects the locations of an array value.
fn collect_locations(items: &Vec<Json>) -> (r: Vec<Location>)
    ensures
        locs_view(r@) == spec_locations_of(jview_list(items@)),
{
    let ghost iv = jview_list(items@);
    proof {
        crate::json::lemma_jview_list_index(items@);
        assert(iv.take(0) =~= Seq::<JVal>::empty());
    }
    let mut out: Vec<Location> = Vec::new();
    let mut i: usize = 0;
    while i < items.len()
        invariant
            iv == jview_list(items@),
            iv.len() == items@.len(),
            forall|m: int| 0 <= m < items@.len() ==> iv[m] == jview(#[trigger] items@[m]),
            i <= items@.len(),
            locs_view(out@) == spec_locations_of(iv.take(i as int)),
        decreases items@.len() - i,
    {
        let ghost pre = out@;
        match parse_location(&items[i]) {
            Some(l) => {
                proof {
                    assert(pre.push(l).drop_last() =~= pre);
                    assert(pre.push(l).last() == l);
                }
                out.push(l);
            },
            None => {},
        }
        proof {
            assert(iv.take(i + 1 as int).drop_last() =~= iv.take(i as int));
            assert(iv.take(i + 1 as int).last() == iv[i as int]);
            assert(locs_view(out@) =~= spec_locations_of(iv.take(i + 1 as int)));
        }
        i = i + 1;
    }
    proof {
        assert(iv.take(iv.len() as int) =~= iv);
    }
    out
}

/// Normalizes a goto-definition response into its locations.
pub fn normalize_definition(v: &Json) -> (r: Vec<Location>)
    ensures
        locs_view(r@) == spec_definition_result(v@),
{
    match v {
        Json::Null => Vec::new(),
        Json::Arr(items) => collect_locations(items),
        _ => {
            match parse_location(v) {
                Some(l) => {
                    let ghost lv = l@;
                    let mut out: Vec<Location> = Vec::new();
                    out.push(l);
                    proof {
                        assert(out@.len() == 1);
                        assert(out@.last() == l);
                        assert(out@.drop_last() =~= Seq::<Location>::empty());
                        assert(locs_view(out@) == locs_view(out@.drop_last()).push(lv));
                        assert(locs_view(out@.drop_last()).push(lv) =~= seq![lv]);
                    }
                    out
                },
                None => Vec::new(),
            }
        },
    }
}

/// Normalizes the `contents` field of a hover response.
fn hover_contents(c: &Json) -> (r: String)
    ensures
        r@ == spec_hover_contents(c@),
{
    match c {
        Json::Str(s) => s.clone(),
        Json::Arr(items) => {
            let ghost iv = jview_list(items@);
            proof {
                crate::json::lemma_jview_list_index(items@);
                assert(iv.take(0) =~= Seq::<JVal>::empty());
            }
            let mut parts: Vec<String> = Vec::new();
            let ghost parts_v = Seq::<Seq<char>>::empty();
            let mut i: usize = 0;
            while i < items.len()
                invariant
                    iv == jview_list(items@),
                    iv.len() == items@.len(),
                    forall|m: int| 0 <= m < items@.len() ==> iv[m] == jview(#[trigger] items@[m]),
                    i <= items@.len(),
                    strings_view(parts@) == spec_hover_parts(iv.take(i as int)),
                decreases items@.len() - i,
            {
                let item: &Json = &items[i];
                let ghost pre = parts@;
                let entry: Option<String> = match item {
                    Json::Str(s) => Some(s.clone()),
                    _ => get_str_field(item, "value"),
                };
                proof {
                    assert(match entry {
                        Some(s) => spec_hover_entry(iv[i as int]) == Some(s@),
                        None => spec_hover_entry(iv[i as int]) is None,
                    });
                }
                match entry {
                    Some(s) => {
                        proof {
                            assert(pre.push(s).drop_last() =~= pre);
                            assert(pre.push(s).last() == s);
                        }
                        parts.push(s);
                    },
                    None => {},
                }
                proof {
                    assert(iv.take(i + 1 as int).drop_last() =~= iv.take(i as int));
                    assert(iv.take(i + 1 as int).last() == iv[i as int]);
                    assert(strings_view(parts@) =~= spec_hover_parts(iv.take(i + 1 as int)));
                }
                i = i + 1;
            }
            proof {
                assert(iv.take(iv.len() as int) =~= iv);
            }
            join_nl(&parts)
        },
        _ => {
            match get_str_field(c, "value") {
                Some(s) => s,
                None => json_to_text(c),
            }
        },
    }
}

/// The views of a vector of strings.
pub open spec fn strings_view(s: Seq<String>) -> Seq<Seq<char>>
    decreases s,
{
    if s.len() == 0 {
        Seq::empty()
    } else {
        strings_view(s.drop_last()).push(s.last()@)
    }
}

/// Joins strings with newlines.
pub fn join_nl(parts: &Vec<String>) -> (r: String)
    ensures
        r@ == spec_join_nl(strings_view(parts@)),
{
    let ghost pv = strings_view(parts@);
    proof {
        lemma_strings_view_index(parts@);
    }
    let mut out = String::new();
    if parts.len() == 0 {
        proof {
            assert(out@ =~= spec_join_nl(pv));
        }
        return out;
    }
    crate::strutil::push_chars(&mut out, parts[0].as_str());
    let mut k: usize = 1;
    while k < parts.len()
        invariant
            pv == strings_view(parts@),
            pv.len() == parts@.len(),
            forall|m: int| 0 <= m < parts@.len() ==> pv[m] == (#[trigger] parts@[m])@,
            1 <= k <= parts@.len(),
            out@ == spec_join_nl(pv.take(k as int)),
        decreases parts@.len() - k,
    {
        let mut nl = String::new();
        nl.push('\n');
        crate::strutil::push_chars(&mut out, nl.as_str());
        crate::strutil::push_chars(&mut out, parts[k].as_str());
        proof {
            assert(pv.take(k + 1 as int).drop_last() =~= pv.take(k as int));
            assert(pv.take(k + 1 as int).last() == pv[k as int]);
            assert(out@ =~= spec_join_nl(pv.take(k + 1 as int)));
        }
        k = k + 1;
    }
    proof {
        assert(pv.take(pv.len() as int) =~= pv);
    }
    out
}

pub proof fn lemma_strings_view_index(s: Seq<String>)
    ensures
        strings_view(s).len() == s.len(),
        forall|m: int| 0 <= m < s.len() ==> strings_view(s)[m] == (#[trigger] s[m])@,
    decreases s,
{
    if s.len() > 0 {
        lemma_strings_view_index(s.drop_last());
        assert forall|m: int| 0 <= m < s.len() implies strings_view(s)[m] == (#[trigger] s[m])@ by {
            if m < s.len() - 1 {
                assert(s.drop_last()[m] == s[m]);
            }
        }
    }
}

/// Normalizes a hover response.
pub fn normalize_hover(v: &Json) -> (r: Option<HoverResult>)
    ensures
        match r {
            Some(h) => spec_hover_result(v@) == Some(h@),
            None => spec_hover_result(v@) is None,
        },
{
    if v.is_null() {
        return None;
    }
    let c = match v.get("contents") {
        Some(c) => c,
        None => {
            return None;
        },
    };
    let contents = hover_contents(c);
    let range: Option<Range> = match v.get("range") {
        Some(r) => parse_range(r),
        None => None,
    };
    let h = HoverResult { contents, range };
    proof {
        assert(spec_hover_result(v@) == Some(h@)) by {
            assert(spec_hover_result(v@).unwrap() =~= h@);
        }
    }
    Some(h)
}

} // verus!
