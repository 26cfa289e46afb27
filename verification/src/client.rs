//! The message pump and request correlator: JSON-RPC envelopes, the
//! per-URI diagnostics cache, and the connection state. Reading from and
//! writing to the server process are the caller's work; every decision —
//! which frame resolves the pending request, what a notification does to
//! the cache, when the deadline has passed — is made here.

use vstd::prelude::*;
use crate::json::JVal;
use crate::json::Json;
use crate::json::jget;
use crate::json::jview;
use crate::json::jview_fields;
use crate::json::jview_list;
use crate::json::lemma_jview_fields_index;
use crate::json::lemma_jview_list_index;
use crate::lsp::Diagnostic;
use crate::lsp::DiagnosticV;
use crate::lsp::parse_diagnostic;
use crate::lsp::spec_diagnostic;
use crate::lsp::spec_str_field;
use crate::strutil::str_eq;
use crate::wire::WireStep;
use crate::wire::encode_message;
use crate::wire::message_bytes;
use crate::wire::message_premise;
use crate::wire::take_message;

verus! {

/// How long a request may wait for its response, in seconds.
pub const REQUEST_TIMEOUT_SECS: u64 = 30;

/// Whether the fixed request deadline has passed after `elapsed_ms`
/// milliseconds of waiting.
pub fn deadline_passed(elapsed_ms: u64) -> (r: bool)
    ensures
        r == (elapsed_ms >= REQUEST_TIMEOUT_SECS * 1000),
{
    elapsed_ms >= REQUEST_TIMEOUT_SECS * 1000
}

/// A request envelope.
pub open spec fn spec_request(id: int, method: Seq<char>, params: JVal) -> JVal {
    JVal::Obj(
        seq![
            ("jsonrpc"@, JVal::Str("2.0"@)),
            ("id"@, JVal::Int(id)),
            ("method"@, JVal::Str(method)),
            ("params"@, params),
        ],
    )
}

/// A notification envelope: no id, so it can never resolve a request.
pub open spec fn spec_notification(method: Seq<char>, params: JVal) -> JVal {
    JVal::Obj(
        seq![
            ("jsonrpc"@, JVal::Str("2.0"@)),
            ("method"@, JVal::Str(method)),
            ("params"@, params),
        ],
    )
}

/// Builds a request envelope.
pub fn make_request(id: i64, method: &str, params: Json) -> (r: Json)
    ensures
        r@ == spec_request(id as int, method@, jview(params)),
{
    let ghost pv = jview(params);
    let mut fields: Vec<(String, Json)> = Vec::new();
    fields.push(("jsonrpc".to_owned(), Json::Str("2.0".to_owned())));
    fields.push(("id".to_owned(), Json::Int(id)));
    fields.push(("method".to_owned(), Json::Str(method.to_owned())));
    fields.push(("params".to_owned(), params));
    proof {
        lemma_jview_fields_index(fields@);
        assert(fields@.len() == 4);
        assert(jview_fields(fields@)[0] == ((fields@[0]).0@, jview(fields@[0].1)));
        assert(jview_fields(fields@)[1] == ((fields@[1]).0@, jview(fields@[1].1)));
        assert(jview_fields(fields@)[2] == ((fields@[2]).0@, jview(fields@[2].1)));
        assert(jview_fields(fields@)[3] == ((fields@[3]).0@, jview(fields@[3].1)));
        assert(jview_fields(fields@) =~= spec_request(id as int, method@, pv)->Obj_0);
    }
    Json::Obj(fields)
}

/// Builds a notification envelope.
pub fn make_notification(method: &str, params: Json) -> (r: Json)
    ensures
        r@ == spec_notification(method@, jview(params)),
{
    let ghost pv = jview(params);
    let mut fields: Vec<(String, Json)> = Vec::new();
    fields.push(("jsonrpc".to_owned(), Json::Str("2.0".to_owned())));
    fields.push(("method".to_owned(), Json::Str(method.to_owned())));
    fields.push(("params".to_owned(), params));
    proof {
        lemma_jview_fields_index(fields@);
        assert(fields@.len() == 3);
        assert(jview_fields(fields@)[0] == ((fields@[0]).0@, jview(fields@[0].1)));
        assert(jview_fields(fields@)[1] == ((fields@[1]).0@, jview(fields@[1].1)));
        assert(jview_fields(fields@)[2] == ((fields@[2]).0@, jview(fields@[2].1)));
        assert(jview_fields(fields@) =~= spec_notification(method@, pv)->Obj_0);
    }
    Json::Obj(fields)
}

/// Whether a message is the response to the request with this id.
pub open spec fn spec_id_matches(v: JVal, expected: int) -> bool {
    jget(v, "id"@) == Some(JVal::Int(expected))
}

/// What a matching response resolves to: the server's error message, or
/// the `result` field (null when absent).
pub open spec fn spec_response_outcome(v: JVal) -> Result<JVal, Seq<char>> {
    match jget(v, "error"@) {
        Some(e) => Err(
            match spec_str_field(e, "message"@) {
                Some(m) => m,
                None => "Unknown error"@,
            },
        ),
        None => Ok(
            match jget(v, "result"@) {
                Some(res) => res,
                None => JVal::Null,
            },
        ),
    }
}

/// The diagnostics recovered from an array, dropping malformed entries.
pub open spec fn spec_diags_of(arr: Seq<JVal>) -> Seq<DiagnosticV>
    decreases arr,
{
    if arr.len() == 0 {
        Seq::empty()
    } else {
        spec_diags_of(arr.drop_last()) + (match spec_diagnostic(arr.last()) {
            Some(d) => seq![d],
            None => Seq::empty(),
        })
    }
}

/// The views of a vector of diagnostics.
pub open spec fn diags_view(s: Seq<Diagnostic>) -> Seq<DiagnosticV>
    decreases s,
{
    if s.len() == 0 {
        Seq::empty()
    } else {
        diags_view(s.drop_last()).push(s.last()@)
    }
}

/// The publish carried by a message: only a
/// `textDocument/publishDiagnostics` notification with parameters updates
/// the cache, keyed by its `uri` and holding exactly its diagnostics.
pub open spec fn spec_publish(v: JVal) -> Option<(Seq<char>, Seq<DiagnosticV>)> {
    match spec_str_field(v, "method"@) {
        Some(method) => if method == "textDocument/publishDiagnostics"@ {
            match jget(v, "params"@) {
                Some(p) => Some(
                    (
                        match spec_str_field(p, "uri"@) {
                            Some(u) => u,
                            None => Seq::empty(),
                        },
                        match jget(p, "diagnostics"@) {
                            Some(JVal::Arr(items)) => spec_diags_of(items),
                            _ => Seq::empty(),
                        },
                    ),
                ),
                None => None,
            }
        } else {
            None
        },
        None => None,
    }
}

/// The cache contents after one inbound message.
pub open spec fn spec_cache_after(
    cache: Map<Seq<char>, Seq<DiagnosticV>>,
    v: JVal,
) -> Map<Seq<char>, Seq<DiagnosticV>> {
    match spec_publish(v) {
        Some((u, ds)) => cache.insert(u, ds),
        None => cache,
    }
}

/// The per-URI diagnostics cache: each publish replaces the entry for its
/// URI, so only the latest publish is held.
pub struct DiagnosticsCache {
    pub entries: Vec<(String, Vec<Diagnostic>)>,
}

/// The map held by a cache's entries; later entries shadow earlier ones.
pub open spec fn cache_map(entries: Seq<(String, Vec<Diagnostic>)>) -> Map<
    Seq<char>,
    Seq<DiagnosticV>,
>
    decreases entries,
{
    if entries.len() == 0 {
        Map::empty()
    } else {
        cache_map(entries.drop_last()).insert(
            entries.last().0@,
            diags_view(entries.last().1@),
        )
    }
}

impl View for DiagnosticsCache {
    type V = Map<Seq<char>, Seq<DiagnosticV>>;

    open spec fn view(&self) -> Map<Seq<char>, Seq<DiagnosticV>> {
        cache_map(self.entries@)
    }
}

/// Clones a diagnostic.
fn clone_diagnostic(d: &Diagnostic) -> (r: Diagnostic)
    ensures
        r@ == d@,
{
    let severity = match &d.severity {
        Some(s) => Some(*s),
        None => None,
    };
    let source = match &d.source {
        Some(s) => Some(s.clone()),
        None => None,
    };
    let r = Diagnostic { range: d.range, severity, message: d.message.clone(), source };
    proof {
        assert(r@ =~= d@);
    }
    r
}

/// Clones a list of diagnostics.
pub fn clone_diagnostics(v: &Vec<Diagnostic>) -> (r: Vec<Diagnostic>)
    ensures
        diags_view(r@) == diags_view(v@),
{
    proof {
        lemma_diags_view_index(v@);
    }
    let mut r: Vec<Diagnostic> = Vec::new();
    let mut i: usize = 0;
    while i < v.len()
        invariant
            i <= v@.len(),
            diags_view(v@).len() == v@.len(),
            forall|m: int| 0 <= m < v@.len() ==> diags_view(v@)[m] == (#[trigger] v@[m])@,
            diags_view(r@) == diags_view(v@).take(i as int),
        decreases v@.len() - i,
    {
        let ghost pre = r@;
        let d = clone_diagnostic(&v[i]);
        proof {
            assert(pre.push(d).drop_last() =~= pre);
            assert(pre.push(d).last() == d);
        }
        r.push(d);
        proof {
            assert(diags_view(r@) =~= diags_view(v@).take(i + 1 as int));
        }
        i = i + 1;
    }
    proof {
        assert(diags_view(v@).take(v@.len() as int) =~= diags_view(v@));
    }
    r
}

/// Each entry of a list's view is the view of its entry.
pub proof fn lemma_diags_view_index(s: Seq<Diagnostic>)
    ensures
        diags_view(s).len() == s.len(),
        forall|m: int| 0 <= m < s.len() ==> diags_view(s)[m] == (#[trigger] s[m])@,
    decreases s,
{
    if s.len() > 0 {
        lemma_diags_view_index(s.drop_last());
        assert forall|m: int| 0 <= m < s.len() implies diags_view(s)[m] == (#[trigger] s[m])@ by {
            if m < s.len() - 1 {
                assert(s.drop_last()[m] == s[m]);
            }
        }
    }
}

impl DiagnosticsCache {
    /// An empty cache.
    pub fn new() -> (r: DiagnosticsCache)
        ensures
            r@ == Map::<Seq<char>, Seq<DiagnosticV>>::empty(),
    {
        DiagnosticsCache { entries: Vec::new() }
    }

    /// Stores a publish, replacing any earlier entry for the URI.
    pub fn insert(&mut self, uri: String, diags: Vec<Diagnostic>)
        ensures
            final(self)@ == old(self)@.insert(uri@, diags_view(diags@)),
    {
        let ghost uv = uri@;
        let ghost dv = diags_view(diags@);
        let ghost pre = self.entries@;
        self.entries.push((uri, diags));
        proof {
            assert(self.entries@.drop_last() =~= pre);
            assert(self.entries@.last().0@ == uv);
            assert(self.entries@.last().1@ == diags@);
        }
    }

    /// The latest diagnostics published for the URI; empty when none were.
    pub fn lookup(&self, uri: &str) -> (r: Vec<Diagnostic>)
        ensures
            self@.contains_key(uri@) ==> diags_view(r@) == self@[uri@],
            !self@.contains_key(uri@) ==> r@.len() == 0,
    {
        proof {
            assert(self.entries@.take(self.entries@.len() as int) =~= self.entries@);
        }
        let mut i = self.entries.len();
        while i > 0
            invariant
                i <= self.entries@.len(),
                cache_map(self.entries@).contains_key(uri@) == cache_map(
                    self.entries@.take(i as int),
                ).contains_key(uri@),
                cache_map(self.entries@).contains_key(uri@) ==> cache_map(self.entries@)[uri@]
                    == cache_map(self.entries@.take(i as int))[uri@],
            decreases i,
        {
            let e: &(String, Vec<Diagnostic>) = &self.entries[i - 1];
            proof {
                assert(self.entries@.take(i as int).last() == self.entries@[i - 1]);
                assert(self.entries@.take(i as int).drop_last() =~= self.entries@.take(i - 1));
            }
            if str_eq(e.0.as_str(), uri) {
                return clone_diagnostics(&e.1);
            }
            i = i - 1;
        }
        proof {
            assert(self.entries@.take(0) =~= Seq::<(String, Vec<Diagnostic>)>::empty());
        }
        Vec::new()
    }
}

/// Collects the diagnostics of an array value.
fn collect_diagnostics(items: &Vec<Json>) -> (r: Vec<Diagnostic>)
    ensures
        diags_view(r@) == spec_diags_of(jview_list(items@)),
{
    let ghost iv = jview_list(items@);
    proof {
        lemma_jview_list_index(items@);
        assert(iv.take(0) =~= Seq::<JVal>::empty());
    }
    let mut out: Vec<Diagnostic> = Vec::new();
    let mut i: usize = 0;
    while i < items.len()
        invariant
            iv == jview_list(items@),
            iv.len() == items@.len(),
            forall|m: int| 0 <= m < items@.len() ==> iv[m] == jview(#[trigger] items@[m]),
            i <= items@.len(),
            diags_view(out@) == spec_diags_of(iv.take(i as int)),
        decreases items@.len() - i,
    {
        let ghost pre = out@;
        match parse_diagnostic(&items[i]) {
            Some(d) => {
                proof {
                    assert(pre.push(d).drop_last() =~= pre);
                    assert(pre.push(d).last() == d);
                }
                out.push(d);
            },
            None => {},
        }
        proof {
            assert(iv.take(i + 1 as int).drop_last() =~= iv.take(i as int));
            assert(iv.take(i + 1 as int).last() == iv[i as int]);
            assert(diags_view(out@) =~= spec_diags_of(iv.take(i + 1 as int)));
        }
        i = i + 1;
    }
    proof {
        assert(iv.take(iv.len() as int) =~= iv);
    }
    out
}

/// Applies one inbound notification to the cache when it is a publish;
/// other methods are ignored.
pub fn handle_notification(msg: &Json, cache: &mut DiagnosticsCache)
    ensures
        final(cache)@ == spec_cache_after(old(cache)@, msg@),
{
    let method = match msg.get("method") {
        Some(m) => match m.as_text() {
            Some(s) => s,
            None => {
                return ;
            },
        },
        None => {
            return ;
        },
    };
    if !str_eq(method.as_str(), "textDocument/publishDiagnostics") {
        return ;
    }
    let params = match msg.get("params") {
        Some(p) => p,
        None => {
            return ;
        },
    };
    let uri: String = match params.get("uri") {
        Some(u) => match u.as_text() {
            Some(s) => s.clone(),
            None => String::new(),
        },
        None => String::new(),
    };
    let diags: Vec<Diagnostic> = match params.get("diagnostics") {
        Some(d) => match d.as_items() {
            Some(items) => collect_diagnostics(items),
            None => Vec::new(),
        },
        None => Vec::new(),
    };
    cache.insert(uri, diags);
}

/// One step of the correlator: a frame either resolves the pending request
/// (exactly when it carries the expected id), or is treated as a
/// notification and applied to the cache, and the wait goes on.
pub fn on_message(msg: &Json, expected_id: i64, cache: &mut DiagnosticsCache) -> (r: Option<
    Result<Json, String>,
>)
    ensures
        spec_id_matches(msg@, expected_id as int) ==> {
            &&& final(cache)@ == old(cache)@
            &&& match r {
                Some(Ok(j)) => spec_response_outcome(msg@) == Ok::<JVal, Seq<char>>(j@),
                Some(Err(m)) => spec_response_outcome(msg@) == Err::<JVal, Seq<char>>(m@),
                None => false,
            }
        },
        !spec_id_matches(msg@, expected_id as int) ==> {
            &&& r is None
            &&& final(cache)@ == spec_cache_after(old(cache)@, msg@)
        },
{
    let id_matches = match msg.get("id") {
        Some(idv) => match idv.as_i64() {
            Some(n) => n == expected_id,
            None => false,
        },
        None => false,
    };
    if id_matches {
        match msg.get("error") {
            Some(e) => {
                let m: String = match e.get("message") {
                    Some(mv) => match mv.as_text() {
                        Some(s) => s.clone(),
                        None => "Unknown error".to_owned(),
                    },
                    None => "Unknown error".to_owned(),
                };
                return Some(Err(m));
            },
            None => {
                let res: Json = match msg.get("result") {
                    Some(r0) => crate::json::clone_json(r0),
                    None => Json::Null,
                };
                return Some(Ok(res));
            },
        }
    }
    handle_notification(msg, cache);
    None
}

/// The outcome of waiting on a sequence of inbound messages: the first
/// matching response resolves the wait; every earlier message only feeds
/// the cache.
pub open spec fn spec_pump(
    msgs: Seq<JVal>,
    id: int,
    cache: Map<Seq<char>, Seq<DiagnosticV>>,
) -> (Option<Result<JVal, Seq<char>>>, Map<Seq<char>, Seq<DiagnosticV>>)
    decreases msgs,
{
    if msgs.len() == 0 {
        (None, cache)
    } else if spec_id_matches(msgs[0], id) {
        (Some(spec_response_outcome(msgs[0])), cache)
    } else {
        spec_pump(msgs.drop_first(), id, spec_cache_after(cache, msgs[0]))
    }
}

/// Only the exact matching response id unblocks the pending request: a
/// stream without the expected id never resolves it, whatever else — other
/// responses or notifications — arrives.
pub proof fn lemma_only_matching_id_resolves(
    msgs: Seq<JVal>,
    id: int,
    cache: Map<Seq<char>, Seq<DiagnosticV>>,
)
    requires
        forall|k: int| 0 <= k < msgs.len() ==> !spec_id_matches(#[trigger] msgs[k], id),
    ensures
        spec_pump(msgs, id, cache).0 is None,
    decreases msgs,
{
    if msgs.len() > 0 {
        assert(!spec_id_matches(msgs[0], id));
        assert(forall|k: int|
            0 <= k < msgs.drop_first().len() ==> !spec_id_matches(
                #[trigger] msgs.drop_first()[k],
                id,
            ));
        lemma_only_matching_id_resolves(msgs.drop_first(), id, spec_cache_after(cache, msgs[0]));
    }
}

/// Interleaving: a notification arriving before the awaited response does
/// not change the response's outcome, and its effect on the diagnostics
/// cache is applied.
pub proof fn lemma_interleaving(
    note: JVal,
    resp: JVal,
    id: int,
    cache: Map<Seq<char>, Seq<DiagnosticV>>,
)
    requires
        !spec_id_matches(note, id),
        spec_id_matches(resp, id),
    ensures
        spec_pump(seq![note, resp], id, cache) == (
            Some(spec_response_outcome(resp)),
            spec_cache_after(cache, note),
        ),
        spec_pump(seq![note, resp], id, cache).0 == spec_pump(seq![resp], id, cache).0,
{
    let two = seq![note, resp];
    assert(two.drop_first() =~= seq![resp]);
    assert(spec_pump(seq![resp], id, spec_cache_after(cache, note)).0 == Some(
        spec_response_outcome(resp),
    ));
}

/// The diagnostics cache holds only the latest publish per URI: after two
/// publishes for one URI, exactly the second one is cached.
pub proof fn lemma_latest_publish_wins(
    cache: Map<Seq<char>, Seq<DiagnosticV>>,
    uri: Seq<char>,
    d1: Seq<DiagnosticV>,
    d2: Seq<DiagnosticV>,
)
    ensures
        cache.insert(uri, d1).insert(uri, d2) == cache.insert(uri, d2),
        cache.insert(uri, d1).insert(uri, d2)[uri] == d2,
{
    assert(cache.insert(uri, d1).insert(uri, d2) =~= cache.insert(uri, d2));
}

/// One connection's protocol state: the request-id counter, the
/// diagnostics cache, and the inbound byte buffer with its read cursor.
pub struct ClientCore {
    pub next_id: i64,
    pub cache: DiagnosticsCache,
    pub inbox: Vec<u8>,
    pub consumed: usize,
}

/// What polling the inbound buffer yields.
pub enum PumpStep {
    /// No complete frame is buffered yet; more bytes must be read.
    NeedMore,
    /// The buffered bytes are not a well-formed frame: a protocol failure.
    Corrupt,
    /// One decoded message.
    Msg(Json),
}

impl ClientCore {
    /// The state is consistent: the cursor lies within the buffer.
    pub open spec fn wf(&self) -> bool {
        self.consumed <= self.inbox@.len()
    }

    /// The id the next request will use.
    pub open spec fn spec_next_id(&self) -> int {
        self.next_id as int
    }

    /// The bytes that have not been decoded yet.
    pub open spec fn pending_bytes(&self) -> Seq<u8> {
        self.inbox@.skip(self.consumed as int)
    }

    /// A fresh connection state: ids start at 1, nothing cached or buffered.
    pub fn new() -> (r: ClientCore)
        ensures
            r.wf(),
            r.spec_next_id() == 1,
            r.cache@ == Map::<Seq<char>, Seq<DiagnosticV>>::empty(),
            r.pending_bytes().len() == 0,
    {
        let r = ClientCore { next_id: 1, cache: DiagnosticsCache::new(), inbox: Vec::new(), consumed: 0 };
        proof {
            assert(r.pending_bytes() =~= Seq::<u8>::empty());
        }
        r
    }

    /// Allocates the next request id and the framed bytes of its request.
    pub fn fresh_request(&mut self, method: &str, params: Json) -> (r: (i64, Vec<u8>))
        requires
            old(self).wf(),
        ensures
            final(self).wf(),
            r.0 as int == old(self).spec_next_id(),
            r.1@ == message_bytes(
                spec_request(old(self).spec_next_id(), method@, jview(params)),
            ),
            old(self).spec_next_id() < i64::MAX ==> final(self).spec_next_id() == old(
                self,
            ).spec_next_id() + 1,
            final(self).cache@ == old(self).cache@,
            final(self).pending_bytes() == old(self).pending_bytes(),
    {
        let id = self.next_id;
        if self.next_id < i64::MAX {
            self.next_id = self.next_id + 1;
        }
        let req = make_request(id, method, params);
        let bytes = encode_message(&req);
        (id, bytes)
    }

    /// The framed bytes of a notification.
    pub fn notification_bytes(&self, method: &str, params: Json) -> (r: Vec<u8>)
        ensures
            r@ == message_bytes(spec_notification(method@, jview(params))),
    {
        let note = make_notification(method, params);
        encode_message(&note)
    }

    /// Appends bytes read from the server to the inbound buffer.
    pub fn feed(&mut self, chunk: &Vec<u8>)
        requires
            old(self).wf(),
        ensures
            final(self).wf(),
            final(self).pending_bytes() == old(self).pending_bytes() + chunk@,
            final(self).spec_next_id() == old(self).spec_next_id(),
            final(self).cache@ == old(self).cache@,
    {
        let ghost pre = self.inbox@;
        let mut k: usize = 0;
        while k < chunk.len()
            invariant
                k <= chunk@.len(),
                self.inbox@ == pre + chunk@.subrange(0, k as int),
                self.consumed == old(self).consumed,
                self.next_id == old(self).next_id,
                self.cache == old(self).cache,
                old(self).wf(),
            decreases chunk@.len() - k,
        {
            let b = chunk[k];
            self.inbox.push(b);
            proof {
                assert(self.inbox@ =~= pre + chunk@.subrange(0, k + 1 as int));
            }
            k = k + 1;
        }
        proof {
            assert(chunk@.subrange(0, chunk@.len() as int) =~= chunk@);
            assert(final(self).pending_bytes() =~= old(self).pending_bytes() + chunk@);
        }
    }

    /// Decodes the next buffered message, if a whole frame has arrived.
    pub fn poll_message(&mut self) -> (r: PumpStep)
        requires
            old(self).wf(),
        ensures
            final(self).wf(),
            final(self).spec_next_id() == old(self).spec_next_id(),
            final(self).cache@ == old(self).cache@,
            forall|v: JVal, junk: Seq<u8>|
                (crate::json::wf_jval(v) && old(self).pending_bytes() == #[trigger] (message_bytes(
                    v,
                ) + junk)) ==> (r matches PumpStep::Msg(m) && m@ == v && final(self).pending_bytes()
                    == junk),
    {
        let ghost pre = self.pending_bytes();
        let step = take_message(&self.inbox, self.consumed);
        proof {
            assert forall|v: JVal, junk: Seq<u8>|
                (crate::json::wf_jval(v) && pre == #[trigger] (message_bytes(v) + junk))
                implies message_premise(self.inbox@, self.consumed as int, v, junk) by {
                assert(self.inbox@.subrange(self.consumed as int, self.inbox@.len() as int)
                    == message_bytes(v) + junk);
            }
        }
        match step {
            WireStep::Incomplete => {
                proof {
                    assert forall|v: JVal, junk: Seq<u8>|
                        (crate::json::wf_jval(v) && pre == #[trigger] (message_bytes(v) + junk))
                        implies false by {
                        assert(message_premise(self.inbox@, self.consumed as int, v, junk));
                    }
                }
                PumpStep::NeedMore
            },
            WireStep::Malformed => {
                proof {
                    assert forall|v: JVal, junk: Seq<u8>|
                        (crate::json::wf_jval(v) && pre == #[trigger] (message_bytes(v) + junk))
                        implies false by {
                        assert(message_premise(self.inbox@, self.consumed as int, v, junk));
                    }
                }
                PumpStep::Corrupt
            },
            WireStep::Message(m, c) => {
                let ghost at = self.consumed as int;
                self.consumed = c;
                proof {
                    assert forall|v: JVal, junk: Seq<u8>|
                        (crate::json::wf_jval(v) && pre == #[trigger] (message_bytes(v) + junk))
                        implies m@ == v && final(self).pending_bytes() == junk by {
                        assert(message_premise(self.inbox@, at, v, junk));
                        assert(c == at + message_bytes(v).len());
                        let region = self.inbox@.subrange(at, self.inbox@.len() as int);
                        assert(region == message_bytes(v) + junk);
                        assert(self.inbox@.skip(c as int) =~= region.skip(
                            message_bytes(v).len() as int,
                        ));
                        assert(region.skip(message_bytes(v).len() as int) =~= junk);
                    }
                }
                PumpStep::Msg(m)
            },
        }
    }
}

} // verus!
