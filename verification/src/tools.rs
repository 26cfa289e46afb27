//! The tool layer's types and its pure work: parameters as plain values,
//! result shapes, pagination, and the assembly of capability results.
//! Invoking subprocesses and reading files are the caller's work.

use vstd::prelude::*;
use crate::capability::completion_kind_to_string;
use crate::capability::spec_completion_kind_name;
use crate::json::JVal;
use crate::json::Json;
use crate::json::jget;
use crate::json::jview;
use crate::json::jview_fields;
use crate::json::lemma_jview_fields_index;
use crate::lsp::CompletionItem;
use crate::lsp::spec_str_field;
use crate::lsp::strings_view;
use crate::lsp::Diagnostic;
use crate::lsp::Location;
use crate::output::PaginationInfo;
use crate::output::TruncationInfo;

verus! {

#[derive(Debug)]
pub struct NixBuildParams {
    pub installable: Option<String>,
    pub print_build_logs: Option<bool>,
    pub flake_dir: Option<String>,
    pub max_log_bytes: Option<usize>,
    pub log_tail: Option<usize>,
}

#[derive(Debug)]
pub struct NixFlakeShowParams {
    pub flake_ref: Option<String>,
    pub all_systems: Option<bool>,
    pub flake_dir: Option<String>,
    pub max_bytes: Option<usize>,
    pub head: Option<usize>,
    pub tail: Option<usize>,
}

#[derive(Debug)]
pub struct NixFlakeCheckParams {
    pub flake_ref: Option<String>,
    pub keep_going: Option<bool>,
    pub flake_dir: Option<String>,
    pub max_bytes: Option<usize>,
    pub head: Option<usize>,
    pub tail: Option<usize>,
}

#[derive(Debug)]
pub struct NixFlakeMetadataParams {
    pub flake_ref: Option<String>,
    pub flake_dir: Option<String>,
    pub max_bytes: Option<usize>,
    pub head: Option<usize>,
    pub tail: Option<usize>,
}

#[derive(Debug)]
pub struct NixFlakeUpdateParams {
    pub flake_ref: Option<String>,
    pub inputs: Option<Vec<String>>,
    pub flake_dir: Option<String>,
}

#[derive(Debug)]
pub struct NixFlakeLockParams {
    pub flake_ref: Option<String>,
    pub update_inputs: Option<Vec<String>>,
    pub override_inputs: Option<Vec<(String, String)>>,
    pub flake_dir: Option<String>,
    pub max_bytes: Option<usize>,
    pub head: Option<usize>,
    pub tail: Option<usize>,
}

#[derive(Debug)]
pub struct NixFlakeInitParams {
    pub template: Option<String>,
    pub flake_dir: Option<String>,
}

#[derive(Debug)]
pub struct NixRunParams {
    pub installable: Option<String>,
    pub args: Option<Vec<String>>,
    pub flake_dir: Option<String>,
}

#[derive(Debug)]
pub struct CommandEntry {
    pub command: String,
    pub args: Option<Vec<String>>,
}

#[derive(Debug)]
pub struct NixDevelopRunParams {
    pub flake_ref: Option<String>,
    pub commands: Vec<CommandEntry>,
    pub flake_dir: Option<String>,
    pub max_bytes: Option<usize>,
    pub head: Option<usize>,
    pub tail: Option<usize>,
}

#[derive(Debug)]
pub struct NixLogParams {
    pub installable: String,
    pub head: Option<usize>,
    pub tail: Option<usize>,
    pub max_bytes: Option<usize>,
}

#[derive(Debug)]
pub struct NixEvalParams {
    pub installable: Option<String>,
    pub expr: Option<String>,
    pub apply: Option<String>,
    pub flake_dir: Option<String>,
    pub max_bytes: Option<usize>,
    pub head: Option<usize>,
    pub tail: Option<usize>,
}

#[derive(Debug)]
pub struct NixSearchParams {
    pub query: String,
    pub flake_ref: Option<String>,
    pub exclude: Option<Vec<String>>,
    pub limit: Option<usize>,
    pub offset: Option<usize>,
}

#[derive(Debug)]
pub struct NixStorePathInfoParams {
    pub path: String,
    pub closure: Option<bool>,
    pub derivation: Option<bool>,
    pub closure_limit: Option<usize>,
    pub closure_offset: Option<usize>,
}

#[derive(Debug)]
pub struct NixStoreGcParams {
    pub dry_run: Option<bool>,
    pub max_freed: Option<String>,
}

#[derive(Debug)]
pub struct NixStoreLsParams {
    pub path: String,
    pub long: Option<bool>,
    pub offset: Option<usize>,
    pub limit: Option<usize>,
}

#[derive(Debug)]
pub struct NixStoreCatParams {
    pub path: String,
    pub offset: Option<usize>,
    pub limit: Option<usize>,
}

#[derive(Debug)]
pub struct NixDerivationShowParams {
    pub installable: Option<String>,
    pub recursive: Option<bool>,
    pub flake_dir: Option<String>,
    pub summary_only: Option<bool>,
    pub max_inputs: Option<usize>,
    pub inputs_offset: Option<usize>,
}

#[derive(Debug)]
pub struct NixHashPathParams {
    pub path: String,
    pub hash_type: Option<String>,
    pub base32: Option<bool>,
    pub sri: Option<bool>,
}

#[derive(Debug)]
pub struct NixHashFileParams {
    pub path: String,
    pub hash_type: Option<String>,
    pub base32: Option<bool>,
    pub sri: Option<bool>,
}

#[derive(Debug)]
pub struct NixCopyParams {
    pub installable: String,
    pub to: Option<String>,
    pub from: Option<String>,
}

#[derive(Debug)]
pub struct FhSearchParams {
    pub query: String,
    pub max_results: Option<usize>,
    pub offset: Option<usize>,
    pub limit: Option<usize>,
}

#[derive(Debug)]
pub struct FhAddParams {
    pub input_ref: String,
    pub flake_path: Option<String>,
    pub input_name: Option<String>,
}

#[derive(Debug)]
pub struct FhListFlakesParams {
    pub limit: Option<usize>,
    pub offset: Option<usize>,
}

#[derive(Debug)]
pub struct FhListReleasesParams {
    pub flake: String,
    pub limit: Option<usize>,
    pub offset: Option<usize>,
}

#[derive(Debug)]
pub struct FhListVersionsParams {
    pub flake: String,
    pub version_constraint: String,
    pub limit: Option<usize>,
    pub offset: Option<usize>,
}

#[derive(Debug)]
pub struct FhResolveParams {
    pub flake_ref: String,
}

#[derive(Debug)]
pub struct CachixPushParams {
    pub cache_name: Option<String>,
    pub store_paths: Vec<String>,
}

#[derive(Debug)]
pub struct CachixUseParams {
    pub cache_name: String,
}

#[derive(Debug)]
pub struct CachixStatusParams {
}

#[derive(Debug)]
pub struct FhStatusParams {
}

#[derive(Debug)]
pub struct FhFetchParams {
    pub flake_ref: String,
    pub target_link: String,
}

#[derive(Debug)]
pub struct FhLoginParams {
    pub token_file: Option<String>,
}

#[derive(Debug)]
pub struct TaskStatusParams {
    pub task_id: Option<String>,
}

#[derive(Debug)]
pub struct NilDiagnosticsParams {
    pub file_path: String,
    pub offset: Option<usize>,
    pub limit: Option<usize>,
}

#[derive(Debug)]
pub struct NilCompletionsParams {
    pub file_path: String,
    pub line: u32,
    pub character: u32,
    pub offset: Option<usize>,
    pub limit: Option<usize>,
}

#[derive(Debug)]
pub struct NilHoverParams {
    pub file_path: String,
    pub line: u32,
    pub character: u32,
}

#[derive(Debug)]
pub struct NilDefinitionParams {
    pub file_path: String,
    pub line: u32,
    pub character: u32,
}

#[derive(Debug)]
pub struct NixBuildResult {
    pub success: bool,
    pub store_paths: Vec<String>,
    pub stderr: String,
    pub truncated: Option<bool>,
    pub truncation_info: Option<TruncationInfo>,
}

#[derive(Debug)]
pub struct NixFlakeShowResult {
    pub success: bool,
    pub outputs: Json,
    pub stderr: String,
    pub truncated: Option<bool>,
    pub truncation_info: Option<TruncationInfo>,
}

#[derive(Debug)]
pub struct NixFlakeCheckResult {
    pub success: bool,
    pub stdout: String,
    pub stderr: String,
    pub truncated: Option<bool>,
    pub truncation_info: Option<TruncationInfo>,
}

#[derive(Debug)]
pub struct NixFlakeMetadataResult {
    pub success: bool,
    pub metadata: Json,
    pub stderr: String,
    pub truncated: Option<bool>,
    pub truncation_info: Option<TruncationInfo>,
}

#[derive(Debug)]
pub struct NixFlakeUpdateResult {
    pub success: bool,
    pub stdout: String,
    pub stderr: String,
    pub truncated: Option<bool>,
    pub truncation_info: Option<TruncationInfo>,
}

#[derive(Debug)]
pub struct NixFlakeLockResult {
    pub success: bool,
    pub stdout: String,
    pub stderr: String,
    pub truncated: Option<bool>,
    pub truncation_info: Option<TruncationInfo>,
}

#[derive(Debug)]
pub struct NixFlakeInitResult {
    pub success: bool,
    pub stdout: String,
    pub stderr: String,
    pub truncated: Option<bool>,
    pub truncation_info: Option<TruncationInfo>,
}

#[derive(Debug)]
pub struct NixRunResult {
    pub success: bool,
    pub stdout: String,
    pub stderr: String,
    pub exit_code: Option<i32>,
    pub truncated: Option<bool>,
    pub truncation_info: Option<TruncationInfo>,
}

#[derive(Debug)]
pub struct CommandResult {
    pub command: String,
    pub success: bool,
    pub stdout: String,
    pub stderr: String,
    pub exit_code: Option<i32>,
    pub truncated: Option<bool>,
    pub truncation_info: Option<TruncationInfo>,
}

#[derive(Debug)]
pub struct NixDevelopRunResult {
    pub success: bool,
    pub results: Vec<CommandResult>,
    pub truncated: Option<bool>,
    pub truncation_info: Option<TruncationInfo>,
}

#[derive(Debug)]
pub struct NixEvalResult {
    pub success: bool,
    pub value: Json,
    pub stderr: String,
    pub truncated: Option<bool>,
    pub truncation_info: Option<TruncationInfo>,
}

#[derive(Debug)]
pub struct NixLogResult {
    pub success: bool,
    pub log: String,
    pub stderr: String,
    pub truncated: Option<bool>,
    pub truncation_info: Option<TruncationInfo>,
}

#[derive(Debug)]
pub struct NixSearchResult {
    pub success: bool,
    pub packages: Json,
    pub stderr: String,
    pub pagination: Option<PaginationInfo>,
}

#[derive(Debug)]
pub struct NixStorePathInfoResult {
    pub success: bool,
    pub path_info: Json,
    pub stderr: String,
    pub pagination: Option<PaginationInfo>,
}

#[derive(Debug)]
pub struct NixStoreGcResult {
    pub success: bool,
    pub stdout: String,
    pub stderr: String,
}

#[derive(Debug)]
pub struct NixCopyResult {
    pub success: bool,
    pub stdout: String,
    pub stderr: String,
}

#[derive(Debug)]
pub struct NixStoreLsEntry {
    pub name: String,
    pub entry_type: String,
    pub size: Option<u64>,
}

#[derive(Debug)]
pub struct NixStoreLsResult {
    pub path: String,
    pub entries: Vec<NixStoreLsEntry>,
    pub pagination: Option<PaginationInfo>,
}

#[derive(Debug)]
pub struct NixStoreCatResult {
    pub path: String,
    pub content: String,
    pub pagination: Option<PaginationInfo>,
}

#[derive(Debug)]
pub struct DerivationSummary {
    pub path: String,
    pub name: Option<String>,
    pub outputs: Vec<String>,
    pub input_count: usize,
}

#[derive(Debug)]
pub struct NixDerivationShowResult {
    pub success: bool,
    pub derivation: Option<Json>,
    pub summary: Option<Vec<DerivationSummary>>,
    pub stderr: String,
    pub pagination: Option<PaginationInfo>,
}

#[derive(Debug)]
pub struct FhSearchResult {
    pub success: bool,
    pub results: Json,
    pub stderr: String,
    pub pagination: Option<PaginationInfo>,
    pub truncated: Option<bool>,
    pub truncation_info: Option<TruncationInfo>,
}

#[derive(Debug)]
pub struct FhAddResult {
    pub success: bool,
    pub output: String,
    pub stderr: String,
    pub truncated: Option<bool>,
    pub truncation_info: Option<TruncationInfo>,
}

#[derive(Debug)]
pub struct FhListResult {
    pub success: bool,
    pub results: Json,
    pub stderr: String,
    pub pagination: Option<PaginationInfo>,
    pub truncated: Option<bool>,
    pub truncation_info: Option<TruncationInfo>,
}

#[derive(Debug)]
pub struct FhResolveResult {
    pub success: bool,
    pub result: Json,
    pub stderr: String,
    pub truncated: Option<bool>,
    pub truncation_info: Option<TruncationInfo>,
}

#[derive(Debug)]
pub struct FhStatusResult {
    pub success: bool,
    pub logged_in: bool,
    pub stdout: String,
    pub stderr: String,
    pub truncated: Option<bool>,
    pub truncation_info: Option<TruncationInfo>,
}

#[derive(Debug)]
pub struct FhFetchResult {
    pub success: bool,
    pub store_path: Option<String>,
    pub target_link: String,
    pub stdout: String,
    pub stderr: String,
    pub truncated: Option<bool>,
    pub truncation_info: Option<TruncationInfo>,
}

#[derive(Debug)]
pub struct FhLoginResult {
    pub success: bool,
    pub message: String,
    pub stderr: String,
    pub truncated: Option<bool>,
    pub truncation_info: Option<TruncationInfo>,
}

#[derive(Debug)]
pub struct NixHashResult {
    pub success: bool,
    pub hash: String,
    pub stderr: String,
    pub truncated: Option<bool>,
    pub truncation_info: Option<TruncationInfo>,
}

#[derive(Debug)]
pub struct DiagnosticsResult {
    pub success: bool,
    pub file_path: String,
    pub diagnostics: Vec<DiagnosticInfo>,
    pub error: Option<String>,
    pub pagination: Option<PaginationInfo>,
}

#[derive(Debug)]
pub struct DiagnosticInfo {
    pub line: u32,
    pub character: u32,
    pub end_line: u32,
    pub end_character: u32,
    pub severity: String,
    pub message: String,
    pub source: Option<String>,
}

#[derive(Debug)]
pub struct CompletionsResult {
    pub success: bool,
    pub completions: Vec<CompletionInfo>,
    pub error: Option<String>,
    pub pagination: Option<PaginationInfo>,
}

#[derive(Debug)]
pub struct CompletionInfo {
    pub label: String,
    pub kind: Option<String>,
    pub detail: Option<String>,
    pub documentation: Option<String>,
}

#[derive(Debug)]
pub struct HoverInfoResult {
    pub success: bool,
    pub contents: Option<String>,
    pub range: Option<RangeInfo>,
    pub error: Option<String>,
}

#[derive(Debug)]
pub struct RangeInfo {
    pub start_line: u32,
    pub start_character: u32,
    pub end_line: u32,
    pub end_character: u32,
}

#[derive(Debug)]
pub struct DefinitionResult {
    pub success: bool,
    pub locations: Vec<LocationInfo>,
    pub error: Option<String>,
}

#[derive(Debug)]
pub struct LocationInfo {
    pub uri: String,
    pub line: u32,
    pub character: u32,
    pub end_line: u32,
    pub end_character: u32,
}

/// The flat report of one diagnostic, with the severity named.
pub fn diagnostic_info_of(d: &Diagnostic) -> (r: DiagnosticInfo)
    ensures
        r.line == d.range.start.line,
        r.character == d.range.start.character,
        r.end_line == d.range.end.line,
        r.end_character == d.range.end.character,
        r.message@ == d.message@,
        match (r.source, d.source) {
            (Some(a), Some(b)) => a@ == b@,
            (None, None) => true,
            _ => false,
        },
        match d.severity {
            Some(s) => {
                &&& s.0 == 1 ==> r.severity@ == "error"@
                &&& s.0 == 2 ==> r.severity@ == "warning"@
                &&& s.0 == 3 ==> r.severity@ == "information"@
                &&& s.0 == 4 ==> r.severity@ == "hint"@
                &&& !(1 <= s.0 <= 4) ==> r.severity@ == "unknown"@
            },
            None => r.severity@ == "unknown"@,
        },
{
    let severity: String = match &d.severity {
        Some(s) => s.as_str().to_owned(),
        None => "unknown".to_owned(),
    };
    let source = match &d.source {
        Some(s) => Some(s.clone()),
        None => None,
    };
    DiagnosticInfo {
        line: d.range.start.line,
        character: d.range.start.character,
        end_line: d.range.end.line,
        end_character: d.range.end.character,
        severity,
        message: d.message.clone(),
        source,
    }
}

/// The flat report of one completion item, with the kind named.
pub fn completion_info_of(c: &CompletionItem) -> (r: CompletionInfo)
    ensures
        r.label@ == c.label@,
        match (r.kind, c.kind) {
            (Some(k), Some(n)) => k@ == spec_completion_kind_name(n as int),
            (None, None) => true,
            _ => false,
        },
        match (r.detail, c.detail) {
            (Some(a), Some(b)) => a@ == b@,
            (None, None) => true,
            _ => false,
        },
        match (r.documentation, c.documentation) {
            (Some(a), Some(b)) => a@ == b@,
            (None, None) => true,
            _ => false,
        },
{
    let kind: Option<String> = match c.kind {
        Some(n) => Some(completion_kind_to_string(n).to_owned()),
        None => None,
    };
    let detail = match &c.detail {
        Some(s) => Some(s.clone()),
        None => None,
    };
    let documentation = match &c.documentation {
        Some(s) => Some(s.clone()),
        None => None,
    };
    CompletionInfo { label: c.label.clone(), kind, detail, documentation }
}

/// The flat report of a range.
pub fn range_info_of(r0: &crate::lsp::Range) -> (r: RangeInfo)
    ensures
        r.start_line == r0.start.line,
        r.start_character == r0.start.character,
        r.end_line == r0.end.line,
        r.end_character == r0.end.character,
{
    RangeInfo {
        start_line: r0.start.line,
        start_character: r0.start.character,
        end_line: r0.end.line,
        end_character: r0.end.character,
    }
}

/// The flat report of one location.
pub fn location_info_of(l: &Location) -> (r: LocationInfo)
    ensures
        r.uri@ == l.uri@,
        r.line == l.range.start.line,
        r.character == l.range.start.character,
        r.end_line == l.range.end.line,
        r.end_character == l.range.end.character,
{
    LocationInfo {
        uri: l.uri.clone(),
        line: l.range.start.line,
        character: l.range.start.character,
        end_line: l.range.end.line,
        end_character: l.range.end.character,
    }
}

/// The page of a list selected by an offset and a limit: the slice
/// `[start, end)` of the kept items and the page metadata, which is
/// reported only when the caller asked for a page.
pub open spec fn spec_page(total: int, offset: Option<usize>, limit: Option<usize>) -> (
    int,
    int,
    bool,
) {
    let off = match offset {
        Some(o) => o as int,
        None => 0int,
    };
    let lim = match limit {
        Some(l) => l as int,
        None => total,
    };
    let start = if off <= total {
        off
    } else {
        total
    };
    let end = if start + lim <= total {
        start + lim
    } else {
        total
    };
    (start, end, offset is Some || limit is Some)
}

/// Computes a page's bounds and metadata.
pub fn page_bounds(total: usize, offset: Option<usize>, limit: Option<usize>) -> (r: (
    usize,
    usize,
    Option<PaginationInfo>,
))
    ensures
        ({
            let sp = spec_page(total as int, offset, limit);
            &&& r.0 as int == sp.0
            &&& r.1 as int == sp.1
            &&& (r.2 is Some <==> sp.2)
            &&& match r.2 {
                Some(p) => {
                    &&& p.offset as int == (match offset {
                        Some(o) => o as int,
                        None => 0int,
                    })
                    &&& p.limit as int == (match limit {
                        Some(l) => l as int,
                        None => total as int,
                    })
                    &&& p.total == total
                    &&& p.has_more == (p.offset + (sp.1 - sp.0) < total)
                },
                None => true,
            }
        }),
{
    let off = match offset {
        Some(o) => o,
        None => 0,
    };
    let lim = match limit {
        Some(l) => l,
        None => total,
    };
    let start = if off <= total {
        off
    } else {
        total
    };
    let end = if lim <= total - start {
        start + lim
    } else {
        total
    };
    let meta = if offset.is_some() || limit.is_some() {
        Some(PaginationInfo { offset: off, limit: lim, total, has_more: off + (end - start) < total })
    } else {
        None
    };
    (start, end, meta)
}

/// Keeps the slice `[start, end)` of a list.
pub fn page_slice<T>(items: Vec<T>, start: usize, end: usize) -> (r: Vec<T>)
    requires
        start <= end <= items@.len(),
    ensures
        r@ == items@.subrange(start as int, end as int),
{
    let ghost iv = items@;
    let mut items = items;
    items.truncate(end);
    proof {
        assert(items@ =~= iv.subrange(0, end as int));
    }
    let mut k: usize = 0;
    while k < start
        invariant
            k <= start <= end <= iv.len(),
            items@ == iv.subrange(k as int, end as int),
        decreases start - k,
    {
        let _dropped = items.remove(0);
        proof {
            assert(items@ =~= iv.subrange(k + 1 as int, end as int));
        }
        k = k + 1;
    }
    items
}

/// Whether a hash algorithm name is accepted.
pub fn valid_hash_type(name: &str) -> (r: bool)
    ensures
        r == (name@ == "sha256"@ || name@ == "sha512"@ || name@ == "sha1"@ || name@ == "md5"@),
{
    crate::strutil::str_eq(name, "sha256") || crate::strutil::str_eq(name, "sha512")
        || crate::strutil::str_eq(name, "sha1") || crate::strutil::str_eq(name, "md5")
}


/// The keys of a field list, in order.
pub open spec fn keys_of_fields(fields: Seq<(Seq<char>, JVal)>) -> Seq<Seq<char>>
    decreases fields,
{
    if fields.len() == 0 {
        Seq::empty()
    } else {
        keys_of_fields(fields.drop_last()).push(fields.last().0)
    }
}

/// The name, output names and input count of one derivation entry.
pub open spec fn spec_derivation_summary(drv: JVal) -> (Option<Seq<char>>, Seq<Seq<char>>, int) {
    (
        spec_str_field(drv, "name"@),
        match jget(drv, "outputs"@) {
            Some(JVal::Obj(fields)) => keys_of_fields(fields),
            _ => Seq::empty(),
        },
        match jget(drv, "inputDrvs"@) {
            Some(JVal::Obj(fields)) => fields.len() as int,
            _ => 0int,
        },
    )
}

/// Summarizes one derivation entry: its name, the names of its outputs,
/// and how many derivations it takes as inputs.
pub fn extract_derivation_summary(path: &str, drv: &Json) -> (r: DerivationSummary)
    ensures
        ({
            let sp = spec_derivation_summary(drv@);
            &&& r.path@ == path@
            &&& match (r.name, sp.0) {
                (Some(a), Some(b)) => a@ == b,
                (None, None) => true,
                _ => false,
            }
            &&& strings_view(r.outputs@) == sp.1
            &&& r.input_count as int == sp.2
        }),
{
    let name = match drv.get("name") {
        Some(n) => match n.as_text() {
            Some(s) => Some(s.clone()),
            None => None,
        },
        None => None,
    };
    let mut outputs: Vec<String> = Vec::new();
    match drv.get("outputs") {
        Some(o) => {
            match o {
                Json::Obj(fields) => {
                    let ghost fv = jview_fields(fields@);
                    proof {
                        lemma_jview_fields_index(fields@);
                        assert(strings_view(outputs@) =~= keys_of_fields(fv.take(0)));
                        assert(fv.take(0) =~= Seq::<(Seq<char>, JVal)>::empty());
                    }
                    let mut i: usize = 0;
                    while i < fields.len()
                        invariant
                            fv == jview_fields(fields@),
                            fv.len() == fields@.len(),
                            forall|m: int|
                                0 <= m < fields@.len() ==> fv[m] == ((#[trigger] fields@[m]).0@,
                                jview(fields@[m].1)),
                            i <= fields@.len(),
                            strings_view(outputs@) == keys_of_fields(fv.take(i as int)),
                        decreases fields@.len() - i,
                    {
                        let ghost pre = outputs@;
                        let k = fields[i].0.clone();
                        proof {
                            assert(pre.push(k).drop_last() =~= pre);
                            assert(pre.push(k).last() == k);
                        }
                        outputs.push(k);
                        proof {
                            assert(fv.take(i + 1 as int).drop_last() =~= fv.take(i as int));
                            assert(fv.take(i + 1 as int).last() == fv[i as int]);
                            assert(strings_view(outputs@) =~= keys_of_fields(fv.take(i + 1 as int)));
                        }
                        i = i + 1;
                    }
                    proof {
                        assert(fv.take(fv.len() as int) =~= fv);
                        assert(o@ == JVal::Obj(fv));
                    }
                },
                _ => {
                    proof {
                        assert(strings_view(outputs@) =~= Seq::<Seq<char>>::empty());
                    }
                },
            }
        },
        None => {
            proof {
                assert(strings_view(outputs@) =~= Seq::<Seq<char>>::empty());
            }
        },
    }
    let input_count: usize = match drv.get("inputDrvs") {
        Some(d) => match d {
            Json::Obj(fields) => {
                proof {
                    crate::json::lemma_jview_fields_index(fields@);
                    assert(d@ == JVal::Obj(jview_fields(fields@)));
                }
                fields.len()
            },
            _ => 0,
        },
        None => 0,
    };
    DerivationSummary { path: path.to_owned(), name, outputs, input_count }
}

/// Which arguments an evaluation runs with: the installable, then the
/// expression, then the function applied to the result; at least one of
/// the installable and the expression must be given.
pub open spec fn spec_eval_args(
    installable: Option<Seq<char>>,
    expr: Option<Seq<char>>,
    apply: Option<Seq<char>>,
) -> Seq<Seq<char>> {
    let base = seq!["eval"@, "--json"@];
    let with_inst = match installable {
        Some(i) => base.push(i),
        None => base,
    };
    let with_expr = match expr {
        Some(e) => with_inst + seq!["--expr"@, e],
        None => with_inst,
    };
    match apply {
        Some(a) => with_expr + seq!["--apply"@, a],
        None => with_expr,
    }
}

/// Builds the evaluation argument list; without an installable or an
/// expression there is nothing to evaluate.
pub fn eval_args(
    installable: Option<&String>,
    expr: Option<&String>,
    apply: Option<&String>,
) -> (r: Result<Vec<String>, String>)
    ensures
        (installable is None && expr is None) <==> r is Err,
        r matches Err(m) ==> m@ == "Either 'installable' or 'expr' must be provided"@,
        r matches Ok(args) ==> strings_view(args@) == spec_eval_args(
            match installable {
                Some(i) => Some(i@),
                None => None,
            },
            match expr {
                Some(e) => Some(e@),
                None => None,
            },
            match apply {
                Some(a) => Some(a@),
                None => None,
            },
        ),
{
    if installable.is_none() && expr.is_none() {
        return Err("Either 'installable' or 'expr' must be provided".to_owned());
    }
    let mut args: Vec<String> = Vec::new();
    proof {
        assert(strings_view(args@) =~= Seq::<Seq<char>>::empty());
    }
    push_arg(&mut args, "eval".to_owned());
    push_arg(&mut args, "--json".to_owned());
    match installable {
        Some(i) => {
            push_arg(&mut args, i.clone());
        },
        None => {},
    }
    match expr {
        Some(e) => {
            push_arg(&mut args, "--expr".to_owned());
            push_arg(&mut args, e.clone());
        },
        None => {},
    }
    match apply {
        Some(a) => {
            push_arg(&mut args, "--apply".to_owned());
            push_arg(&mut args, a.clone());
        },
        None => {},
    }
    proof {
        assert(strings_view(args@) =~= spec_eval_args(
            match installable {
                Some(i) => Some(i@),
                None => None,
            },
            match expr {
                Some(e) => Some(e@),
                None => None,
            },
            match apply {
                Some(a) => Some(a@),
                None => None,
            },
        ));
    }
    Ok(args)
}

/// Appends one argument.
fn push_arg(args: &mut Vec<String>, s: String)
    ensures
        strings_view(final(args)@) == strings_view(old(args)@).push(s@),
{
    let ghost sv = s@;
    let ghost pre = args@;
    args.push(s);
    proof {
        assert(args@.drop_last() =~= pre);
        assert(args@.last()@ == sv);
    }
}

/// The command line a result reports: the command, then its arguments,
/// separated by single spaces.
pub open spec fn spec_command_display(command: Seq<char>, args: Seq<Seq<char>>) -> Seq<char>
    decreases args,
{
    if args.len() == 0 {
        command
    } else {
        spec_command_display(command, args.drop_last()) + seq![' '] + args.last()
    }
}

/// Renders the command line a result reports.
pub fn command_display(command: &String, args: &Vec<String>) -> (r: String)
    ensures
        r@ == spec_command_display(command@, strings_view(args@)),
{
    let ghost av = strings_view(args@);
    proof {
        crate::lsp::lemma_strings_view_index(args@);
        assert(av.take(0) =~= Seq::<Seq<char>>::empty());
    }
    let mut out = command.clone();
    let mut i: usize = 0;
    while i < args.len()
        invariant
            av == strings_view(args@),
            av.len() == args@.len(),
            forall|m: int| 0 <= m < args@.len() ==> av[m] == (#[trigger] args@[m])@,
            i <= args@.len(),
            out@ == spec_command_display(command@, av.take(i as int)),
        decreases args@.len() - i,
    {
        let mut sp = String::new();
        sp.push(' ');
        crate::strutil::push_chars(&mut out, sp.as_str());
        crate::strutil::push_chars(&mut out, args[i].as_str());
        proof {
            assert(av.take(i + 1 as int).drop_last() =~= av.take(i as int));
            assert(av.take(i + 1 as int).last() == av[i as int]);
            assert(out@ =~= spec_command_display(command@, av.take(i + 1 as int)));
        }
        i = i + 1;
    }
    proof {
        assert(av.take(av.len() as int) =~= av);
    }
    out
}

} // verus!
