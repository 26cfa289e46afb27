//! Output limiting: line-based truncation (head, tail, line and byte
//! caps) for text, and offset/limit pagination for JSON arrays, with the
//! truncation metadata callers report upstream.

use vstd::prelude::*;
use vstd::string::StrSliceExecFns;
use vstd::string::StringSliceAdditionalSpecFns;
use crate::json::Json;
use crate::json::jview;
use crate::json::jview_list;
use crate::json::clone_json;
use crate::json::lemma_jview_list_index;
use crate::json::lemma_jview_list_snoc;
use crate::lsp::spec_join_nl;
use crate::lsp::strings_view;
use crate::strutil::chars_of;
use crate::strutil::string_of;

verus! {

/// Defaults for output limiting, read from the configuration file.
#[derive(Debug)]
pub struct OutputLimitsConfig {
    pub default_max_bytes: Option<usize>,
    pub default_max_lines: Option<usize>,
    pub default_max_items: Option<usize>,
    pub log_tail_default: Option<usize>,
    pub search_limit_default: Option<usize>,
}

impl Default for OutputLimitsConfig {
    fn default() -> (r: Self)
        ensures
            r.default_max_bytes is None,
            r.default_max_lines is None,
            r.default_max_items is None,
            r.log_tail_default is None,
            r.search_limit_default is None,
    {
        OutputLimitsConfig {
            default_max_bytes: None,
            default_max_lines: None,
            default_max_items: None,
            log_tail_default: None,
            search_limit_default: None,
        }
    }
}

impl OutputLimitsConfig {
    pub fn default_max_bytes(&self) -> (r: usize)
        ensures
            r == match self.default_max_bytes {
                Some(v) => v,
                None => 100000,
            },
    {
        match self.default_max_bytes {
            Some(v) => v,
            None => 100000,
        }
    }

    pub fn default_max_lines(&self) -> (r: usize)
        ensures
            r == match self.default_max_lines {
                Some(v) => v,
                None => 2000,
            },
    {
        match self.default_max_lines {
            Some(v) => v,
            None => 2000,
        }
    }

    pub fn default_max_items(&self) -> (r: usize)
        ensures
            r == match self.default_max_items {
                Some(v) => v,
                None => 100,
            },
    {
        match self.default_max_items {
            Some(v) => v,
            None => 100,
        }
    }

    pub fn log_tail_default(&self) -> (r: usize)
        ensures
            r == match self.log_tail_default {
                Some(v) => v,
                None => 500,
            },
    {
        match self.log_tail_default {
            Some(v) => v,
            None => 500,
        }
    }

    pub fn search_limit_default(&self) -> (r: usize)
        ensures
            r == match self.search_limit_default {
                Some(v) => v,
                None => 50,
            },
    {
        match self.search_limit_default {
            Some(v) => v,
            None => 50,
        }
    }
}

/// Caller-chosen limits for text output.
#[derive(Debug)]
pub struct OutputLimits {
    pub head: Option<usize>,
    pub tail: Option<usize>,
    pub max_bytes: Option<usize>,
    pub max_lines: Option<usize>,
}

impl Default for OutputLimits {
    fn default() -> (r: Self)
        ensures
            r.head is None,
            r.tail is None,
            r.max_bytes is None,
            r.max_lines is None,
    {
        OutputLimits { head: None, tail: None, max_bytes: None, max_lines: None }
    }
}

/// Caller-chosen limits for JSON arrays.
#[derive(Debug)]
pub struct ArrayLimits {
    pub limit: Option<usize>,
    pub offset: Option<usize>,
}

impl Default for ArrayLimits {
    fn default() -> (r: Self)
        ensures
            r.limit is None,
            r.offset is None,
    {
        ArrayLimits { limit: None, offset: None }
    }
}

/// What was cut away, and where the kept part stood.
#[derive(Debug)]
pub struct TruncationInfo {
    pub original_bytes: usize,
    pub original_lines: Option<usize>,
    pub original_items: Option<usize>,
    pub kept_bytes: usize,
    pub kept_lines: Option<usize>,
    pub kept_items: Option<usize>,
    pub position: Option<String>,
}

/// Limited text and its truncation metadata.
#[derive(Debug)]
pub struct LimitedOutput {
    pub content: String,
    pub truncated: bool,
    pub truncation_info: Option<TruncationInfo>,
}

/// A limited JSON array and its pagination metadata.
#[derive(Debug)]
pub struct LimitedArray {
    pub items: Vec<Json>,
    pub truncated: bool,
    pub total_count: usize,
    pub pagination: PaginationInfo,
}

/// Where a page stands in the full result list.
#[derive(Debug)]
pub struct PaginationInfo {
    pub offset: usize,
    pub limit: usize,
    pub total: usize,
    pub has_more: bool,
}

/// A line break splits lines; one trailing carriage return per line is
/// dropped, and a trailing line break opens no further line.
pub open spec fn strip_cr(line: Seq<char>) -> Seq<char> {
    if line.len() > 0 && line.last() == '\r' {
        line.drop_last()
    } else {
        line
    }
}

/// The first line break of a text, if any.
pub open spec fn find_nl(s: Seq<char>) -> Option<int>
    decreases s,
{
    if s.len() == 0 {
        None
    } else if s[0] == '\n' {
        Some(0)
    } else {
        match find_nl(s.drop_first()) {
            Some(k) => Some(k + 1),
            None => None,
        }
    }
}

/// The lines of a text.
pub open spec fn spec_lines(s: Seq<char>) -> Seq<Seq<char>>
    decreases s.len(),
{
    if s.len() == 0 {
        Seq::empty()
    } else {
        match find_nl(s) {
            None => seq![strip_cr(s)],
            Some(k) => if 0 <= k < s.len() {
                seq![strip_cr(s.take(k))] + spec_lines(s.skip(k + 1))
            } else {
                Seq::empty()
            },
        }
    }
}

/// Where the first line break stands.
pub proof fn lemma_find_nl(s: Seq<char>)
    ensures
        match find_nl(s) {
            Some(k) => 0 <= k < s.len() && s[k] == '\n' && forall|m: int|
                0 <= m < k ==> s[m] != '\n',
            None => forall|m: int| 0 <= m < s.len() ==> s[m] != '\n',
        },
    decreases s,
{
    if s.len() > 0 && s[0] != '\n' {
        lemma_find_nl(s.drop_first());
        match find_nl(s.drop_first()) {
            Some(k) => {
                assert forall|m: int| 0 <= m < k + 1 implies s[m] != '\n' by {
                    if m > 0 {
                        assert(s.drop_first()[m - 1] == s[m]);
                    }
                }
            },
            None => {
                assert forall|m: int| 0 <= m < s.len() implies s[m] != '\n' by {
                    if m > 0 {
                        assert(s.drop_first()[m - 1] == s[m]);
                    }
                }
            },
        }
    }
}

/// A text with no line break at or after `from` up to `j`, and a break at
/// `j` if it is in range, has its first break from `from` exactly at `j`.
proof fn lemma_find_nl_at(s: Seq<char>, j: int)
    requires
        0 <= j <= s.len(),
        forall|m: int| 0 <= m < j ==> s[m] != '\n',
        j < s.len() ==> s[j] == '\n',
    ensures
        j < s.len() ==> find_nl(s) == Some(j),
        j == s.len() ==> find_nl(s) is None,
{
    lemma_find_nl(s);
    match find_nl(s) {
        Some(k) => {
            if j < s.len() {
                if k < j {
                    assert(s[k] != '\n');
                }
                if k > j {
                    assert(s[j] != '\n');
                }
            } else {
                assert(s[k] != '\n');
            }
        },
        None => {
            if j < s.len() {
                assert(s[j] != '\n');
            }
        },
    }
}

/// Splits a text into its lines.
pub fn split_lines(input: &str) -> (r: Vec<String>)
    ensures
        strings_view(r@) == spec_lines(input@),
{
    let cs = chars_of(input);
    let ghost full = cs@;
    let mut out: Vec<String> = Vec::new();
    let mut pos: usize = 0;
    proof {
        assert(strings_view(out@) =~= Seq::<Seq<char>>::empty());
        assert(full.skip(0) =~= full);
        assert(Seq::<Seq<char>>::empty() + spec_lines(full.skip(0)) =~= spec_lines(full));
    }
    while pos < cs.len()
        invariant
            cs@ == full,
            full == input@,
            pos <= full.len(),
            strings_view(out@) + spec_lines(full.skip(pos as int)) == spec_lines(full),
        decreases full.len() - pos,
    {
        let mut j = pos;
        while j < cs.len() && cs[j] != '\n'
            invariant
                cs@ == full,
                pos <= j <= full.len(),
                forall|m: int| pos <= m < j ==> full[m] != '\n',
            decreases full.len() - j,
        {
            j = j + 1;
        }
        let e = if j > pos && cs[j - 1] == '\r' {
            j - 1
        } else {
            j
        };
        let mut line: Vec<char> = Vec::new();
        let mut m = pos;
        while m < e
            invariant
                cs@ == full,
                pos <= m <= e <= full.len(),
                line@ == full.subrange(pos as int, m as int),
            decreases e - m,
        {
            line.push(cs[m]);
            proof {
                assert(line@ =~= full.subrange(pos as int, m + 1 as int));
            }
            m = m + 1;
        }
        let s = string_of(&line);
        let ghost pre = out@;
        proof {
            assert(pre.push(s).drop_last() =~= pre);
            assert(pre.push(s).last() == s);
        }
        out.push(s);
        proof {
            let rem = full.skip(pos as int);
            assert(rem.len() == full.len() - pos);
            assert forall|m: int| 0 <= m < j - pos implies rem[m] != '\n' by {
                assert(rem[m] == full[pos + m]);
            }
            if j < full.len() {
                assert(rem[j - pos] == full[j as int]);
            }
            lemma_find_nl_at(rem, j - pos);
            assert(s@ == strip_cr(rem.take(j - pos))) by {
                assert(rem.take(j - pos) =~= full.subrange(pos as int, j as int));
                let ln = full.subrange(pos as int, j as int);
                if e < j {
                    assert(ln.len() > 0);
                    assert(ln.last() == full[j - 1]);
                    assert(ln.drop_last() =~= full.subrange(pos as int, e as int));
                } else {
                    assert(ln =~= full.subrange(pos as int, e as int));
                }
            }
            assert(strings_view(out@) == strings_view(pre).push(s@));
            if j < full.len() {
                assert(spec_lines(rem) == seq![strip_cr(rem.take(j - pos))] + spec_lines(
                    rem.skip(j - pos + 1),
                ));
                assert(rem.skip(j - pos + 1) =~= full.skip(j + 1 as int));
                assert(strings_view(pre) + spec_lines(rem) =~= strings_view(pre).push(s@)
                    + spec_lines(full.skip(j + 1 as int)));
                assert(strings_view(out@) + spec_lines(full.skip(j + 1 as int)) == spec_lines(
                    full,
                ));
            } else {
                assert(rem =~= rem.take(j - pos));
                assert(spec_lines(rem) == seq![strip_cr(rem)]);
                assert(strings_view(pre) + spec_lines(rem) =~= strings_view(pre).push(s@));
                assert(strings_view(out@) =~= spec_lines(full));
            }
        }
        if j >= cs.len() {
            proof {
                assert(strings_view(out@) =~= spec_lines(full));
            }
            return out;
        }
        pos = j + 1;
        proof {
            assert(strings_view(out@) + spec_lines(full.skip(pos as int)) =~= spec_lines(full));
        }
    }
    proof {
        assert(full.skip(pos as int) =~= Seq::<char>::empty());
        assert(strings_view(out@) + Seq::<Seq<char>>::empty() =~= strings_view(out@));
    }
    out
}


/// The UTF-8 width of one character.
pub open spec fn char_width(c: char) -> int {
    vstd::utf8::encode_scalar(c as u32).len() as int
}

/// The UTF-8 byte length of a text.
pub open spec fn byte_len(s: Seq<char>) -> int
    decreases s,
{
    if s.len() == 0 {
        0int
    } else {
        char_width(s[0]) + byte_len(s.drop_first())
    }
}

/// The byte length is the length of the UTF-8 encoding.
pub proof fn lemma_byte_len_encode(s: Seq<char>)
    ensures
        byte_len(s) == vstd::utf8::encode_utf8(s).len(),
    decreases s,
{
    if s.len() > 0 {
        lemma_byte_len_encode(s.drop_first());
    }
}

/// How many leading characters fit in `max` bytes.
pub open spec fn take_bytes(s: Seq<char>, max: int) -> int
    decreases s,
{
    if s.len() == 0 {
        0int
    } else if char_width(s[0]) > max {
        0int
    } else {
        1 + take_bytes(s.drop_first(), max - char_width(s[0]))
    }
}

/// The last line break of a text, if any.
pub open spec fn spec_last_nl(s: Seq<char>) -> Option<int>
    decreases s,
{
    if s.len() == 0 {
        None
    } else if s.last() == '\n' {
        Some(s.len() - 1)
    } else {
        spec_last_nl(s.drop_last())
    }
}

/// Head and tail selection: head wins when both are given, and either
/// applies only when it actually cuts.
pub open spec fn spec_head_tail(
    lines: Seq<Seq<char>>,
    head: Option<usize>,
    tail: Option<usize>,
) -> (Seq<Seq<char>>, Option<Seq<char>>) {
    match head {
        Some(h) => if (h as int) < lines.len() {
            (lines.take(h as int), Some("head"@))
        } else {
            (lines, None)
        },
        None => match tail {
            Some(t) => if (t as int) < lines.len() {
                (lines.skip(lines.len() - (t as int)), Some("tail"@))
            } else {
                (lines, None)
            },
            None => (lines, None),
        },
    }
}

/// The line cap, applied after head and tail.
pub open spec fn spec_cap_lines(
    st: (Seq<Seq<char>>, Option<Seq<char>>),
    max_lines: Option<usize>,
) -> (Seq<Seq<char>>, Option<Seq<char>>) {
    match max_lines {
        Some(m) => if (m as int) < st.0.len() {
            (
                st.0.take(m as int),
                match st.1 {
                    Some(p) => Some(p),
                    None => Some("head"@),
                },
            )
        } else {
            st
        },
        None => st,
    }
}

/// The byte cap: when the joined text is over the cap, it is cut at the
/// widest character boundary within the cap, preferring the last line
/// break before it.
pub open spec fn spec_cap_bytes(
    content: Seq<char>,
    pos: Option<Seq<char>>,
    max_bytes: Option<usize>,
) -> (Seq<char>, Option<Seq<char>>) {
    match max_bytes {
        Some(mb) => if (byte_len(content) as usize) > mb {
            let cut = content.take(take_bytes(content, mb as int));
            (
                match spec_last_nl(cut) {
                    Some(k) => cut.take(k),
                    None => cut,
                },
                match pos {
                    Some(p) => Some(p),
                    None => Some("head"@),
                },
            )
        } else {
            (content, pos)
        },
        None => (content, pos),
    }
}

/// The kept text, the position label, and the line count before the byte
/// cap, for the given limits.
pub open spec fn spec_limited(
    input: Seq<char>,
    head: Option<usize>,
    tail: Option<usize>,
    max_lines: Option<usize>,
    max_bytes: Option<usize>,
) -> (Seq<char>, Option<Seq<char>>, int) {
    let st1 = spec_head_tail(spec_lines(input), head, tail);
    let st2 = spec_cap_lines(st1, max_lines);
    let joined = spec_join_nl(st2.0);
    let cb = spec_cap_bytes(joined, st2.1, max_bytes);
    (cb.0, cb.1, st2.0.len() as int)
}

/// The UTF-8 width of one character, computed from its code.
fn width_of(c: char) -> (r: usize)
    ensures
        r as int == char_width(c),
{
    let u = c as u32;
    if u < 0x80 {
        1
    } else if u < 0x800 {
        2
    } else if u < 0x10000 {
        3
    } else {
        4
    }
}

/// The number of leading characters of `cs` that fit in `mb` bytes.
fn scan_take_bytes(cs: &Vec<char>, mb: usize) -> (p: usize)
    ensures
        p as int == take_bytes(cs@, mb as int),
        p <= cs@.len(),
{
    let ghost full = cs@;
    let mut p: usize = 0;
    let mut rem: usize = mb;
    proof {
        assert(full.skip(0) =~= full);
    }
    while p < cs.len()
        invariant
            full == cs@,
            p <= full.len(),
            rem <= mb,
            take_bytes(full, mb as int) == p + take_bytes(full.skip(p as int), rem as int),
        decreases full.len() - p,
    {
        let w = width_of(cs[p]);
        proof {
            assert(full.skip(p as int).len() > 0);
            assert(full.skip(p as int)[0] == full[p as int]);
        }
        if w > rem {
            proof {
                assert(take_bytes(full.skip(p as int), rem as int) == 0);
            }
            return p;
        }
        proof {
            assert(take_bytes(full.skip(p as int), rem as int) == 1 + take_bytes(
                full.skip(p as int).drop_first(),
                rem - char_width(full[p as int]),
            ));
            assert(full.skip(p as int).drop_first() =~= full.skip(p + 1 as int));
        }
        rem = rem - w;
        p = p + 1;
    }
    proof {
        assert(full.skip(p as int).len() == 0);
        assert(take_bytes(full.skip(p as int), rem as int) == 0);
    }
    p
}

/// The position just past the last line break within `cs`, if any.
fn scan_last_nl(cs: &Vec<char>, upto: usize) -> (r: Option<usize>)
    requires
        upto <= cs@.len(),
    ensures
        match r {
            Some(k) => spec_last_nl(cs@.take(upto as int)) == Some(k as int) && k < upto,
            None => spec_last_nl(cs@.take(upto as int)) is None,
        },
{
    let mut i = upto;
    proof {
        assert(cs@.take(upto as int).take(i as int) =~= cs@.take(i as int));
    }
    while i > 0
        invariant
            i <= upto <= cs@.len(),
            spec_last_nl(cs@.take(upto as int)) == spec_last_nl(cs@.take(i as int)),
        decreases i,
    {
        proof {
            assert(cs@.take(i as int).drop_last() =~= cs@.take(i - 1));
            assert(cs@.take(i as int).last() == cs@[i - 1]);
        }
        if cs[i - 1] == '\n' {
            return Some(i - 1);
        }
        i = i - 1;
    }
    proof {
        assert(cs@.take(0) =~= Seq::<char>::empty());
    }
    None
}

/// Keeps the last `n` entries.
fn keep_tail(v: &Vec<String>, n: usize) -> (r: Vec<String>)
    requires
        n <= v@.len(),
    ensures
        strings_view(r@) == strings_view(v@).skip(strings_view(v@).len() - (n as int)),
{
    let ghost sv = strings_view(v@);
    proof {
        crate::lsp::lemma_strings_view_index(v@);
    }
    let start = v.len() - n;
    let mut r: Vec<String> = Vec::new();
    let mut i = start;
    proof {
        assert(strings_view(r@) =~= sv.subrange(start as int, start as int));
    }
    while i < v.len()
        invariant
            sv == strings_view(v@),
            sv.len() == v@.len(),
            forall|m: int| 0 <= m < v@.len() ==> sv[m] == (#[trigger] v@[m])@,
            start <= i <= v@.len(),
            start == v@.len() - n,
            strings_view(r@) == sv.subrange(start as int, i as int),
        decreases v@.len() - i,
    {
        let ghost pre = r@;
        let s = v[i].clone();
        proof {
            assert(pre.push(s).drop_last() =~= pre);
            assert(pre.push(s).last() == s);
        }
        r.push(s);
        proof {
            assert(strings_view(r@) =~= sv.subrange(start as int, i + 1 as int));
        }
        i = i + 1;
    }
    proof {
        assert(sv.subrange(start as int, sv.len() as int) =~= sv.skip(sv.len() - (n as int)));
    }
    r
}


/// Views commute with taking a prefix.
pub proof fn lemma_strings_view_take(s: Seq<String>, k: int)
    requires
        0 <= k <= s.len(),
    ensures
        strings_view(s.take(k)) == strings_view(s).take(k),
{
    crate::lsp::lemma_strings_view_index(s);
    crate::lsp::lemma_strings_view_index(s.take(k));
    assert forall|m: int| 0 <= m < k implies strings_view(s.take(k))[m] == strings_view(s).take(
        k,
    )[m] by {
        assert(s.take(k)[m] == s[m]);
    }
    assert(strings_view(s.take(k)) =~= strings_view(s).take(k));
}

/// The characters in `[from, to)`.
fn char_slice(cs: &Vec<char>, from: usize, to: usize) -> (r: Vec<char>)
    requires
        from <= to <= cs@.len(),
    ensures
        r@ == cs@.subrange(from as int, to as int),
{
    let mut r: Vec<char> = Vec::new();
    let mut m = from;
    while m < to
        invariant
            from <= m <= to <= cs@.len(),
            r@ == cs@.subrange(from as int, m as int),
        decreases to - m,
    {
        r.push(cs[m]);
        proof {
            assert(r@ =~= cs@.subrange(from as int, m + 1 as int));
        }
        m = m + 1;
    }
    r
}

/// Applies limits to text output: head or tail selection, then the line
/// cap, then the byte cap at a character boundary preferring a line break.
pub fn limit_text_output(input: &str, limits: &OutputLimits) -> (r: LimitedOutput)
    ensures
        ({
            let mid = spec_limited(
                input@,
                limits.head,
                limits.tail,
                limits.max_lines,
                limits.max_bytes,
            );
            let orig_bytes = byte_len(input@) as usize;
            let orig_lines = spec_lines(input@).len() as int;
            let kept_bytes = byte_len(mid.0) as usize;
            let truncated = kept_bytes < orig_bytes || mid.2 < orig_lines;
            &&& r.content@ == mid.0
            &&& r.truncated == truncated
            &&& match r.truncation_info {
                Some(info) => {
                    &&& truncated
                    &&& info.original_bytes == orig_bytes
                    &&& info.original_lines matches Some(ol) && ol as int == orig_lines
                    &&& info.original_items is None
                    &&& info.kept_bytes == kept_bytes
                    &&& info.kept_lines matches Some(kl) && kl as int == spec_lines(mid.0).len()
                    &&& info.kept_items is None
                    &&& match (info.position, mid.1) {
                        (Some(p), Some(q)) => p@ == q,
                        (None, None) => true,
                        _ => false,
                    }
                },
                None => !truncated,
            }
        }),
{
    let ghost iv = input@;
    let ghost st1 = spec_head_tail(spec_lines(iv), limits.head, limits.tail);
    let ghost st2 = spec_cap_lines(st1, limits.max_lines);
    let original_bytes = input.len();
    proof {
        lemma_byte_len_encode(iv);
    }
    let lines = split_lines(input);
    let original_lines = lines.len();
    proof {
        crate::lsp::lemma_strings_view_index(lines@);
    }
    let mut result = lines;
    let ghost l0 = result@;
    let mut position: Option<String> = None;
    match limits.head {
        Some(h) => {
            if h < result.len() {
                result.truncate(h);
                position = Some("head".to_owned());
                proof {
                    lemma_strings_view_take(l0, h as int);
                }
            }
        },
        None => {
            match limits.tail {
                Some(t) => {
                    if t < result.len() {
                        result = keep_tail(&result, t);
                        position = Some("tail".to_owned());
                    }
                },
                None => {},
            }
        },
    }
    proof {
        assert(strings_view(result@) == st1.0);
        assert(match (position, st1.1) {
            (Some(p), Some(q)) => p@ == q,
            (None, None) => true,
            _ => false,
        });
    }
    let ghost l1 = result@;
    proof {
        crate::lsp::lemma_strings_view_index(l1);
    }
    match limits.max_lines {
        Some(m) => {
            if m < result.len() {
                result.truncate(m);
                if position.is_none() {
                    position = Some("head".to_owned());
                }
                proof {
                    lemma_strings_view_take(l1, m as int);
                    assert(result@ =~= l1.take(m as int));
                }
            }
        },
        None => {},
    }
    proof {
        crate::lsp::lemma_strings_view_index(result@);
        assert(strings_view(result@) == st2.0);
        assert(match (position, st2.1) {
            (Some(p), Some(q)) => p@ == q,
            (None, None) => true,
            _ => false,
        });
    }
    let kept_lines_precut = result.len();
    let joined = crate::lsp::join_nl(&result);
    proof {
        lemma_byte_len_encode(joined@);
    }
    let ghost capped = spec_cap_bytes(joined@, st2.1, limits.max_bytes);
    let mut content = joined;
    match limits.max_bytes {
        Some(mb) => {
            let over = content.as_str().len() > mb;
            proof {
                assert(over == ((byte_len(content@) as usize) > mb));
            }
            if over {
                let cs = chars_of(content.as_str());
                let p = scan_take_bytes(&cs, mb);
                let cut_end = match scan_last_nl(&cs, p) {
                    Some(k) => k,
                    None => p,
                };
                let kept = char_slice(&cs, 0, cut_end);
                proof {
                    assert(cs@.take(p as int) =~= cs@.subrange(0, p as int));
                    assert(cs@.take(p as int).take(cut_end as int) =~= cs@.subrange(
                        0,
                        cut_end as int,
                    ));
                }
                content = string_of(&kept);
                if position.is_none() {
                    position = Some("head".to_owned());
                }
                proof {
                    assert(content@ =~= capped.0);
                }
            } else {
                proof {
                    assert(content@ == capped.0);
                }
            }
        },
        None => {
            proof {
                assert(content@ == capped.0);
            }
        },
    }
    proof {
        assert(content@ == capped.0);
        assert(match (position, capped.1) {
            (Some(p), Some(q)) => p@ == q,
            (None, None) => true,
            _ => false,
        });
        lemma_byte_len_encode(content@);
    }
    let kept_bytes = content.as_str().len();
    let truncated = kept_bytes < original_bytes || kept_lines_precut < original_lines;
    if truncated {
        let final_lines = split_lines(content.as_str());
        proof {
            crate::lsp::lemma_strings_view_index(final_lines@);
        }
        let kept_lines_final = final_lines.len();
        let info = TruncationInfo {
            original_bytes,
            original_lines: Some(original_lines),
            original_items: None,
            kept_bytes,
            kept_lines: Some(kept_lines_final),
            kept_items: None,
            position,
        };
        LimitedOutput { content, truncated: true, truncation_info: Some(info) }
    } else {
        LimitedOutput { content, truncated: false, truncation_info: None }
    }
}

/// Applies the default byte cap to captured standard error.
pub fn limit_stderr(input: &str) -> (r: LimitedOutput)
    ensures
        ({
            let config_default: Option<usize> = Some(100000);
            let mid = spec_limited(input@, None, None, None, config_default);
            let orig_bytes = byte_len(input@) as usize;
            let orig_lines = spec_lines(input@).len() as int;
            let kept_bytes = byte_len(mid.0) as usize;
            let truncated = kept_bytes < orig_bytes || mid.2 < orig_lines;
            &&& r.content@ == mid.0
            &&& r.truncated == truncated
            &&& (r.truncation_info is Some <==> truncated)
        }),
{
    let config = OutputLimitsConfig::default();
    let limits = OutputLimits {
        head: None,
        tail: None,
        max_bytes: Some(config.default_max_bytes()),
        max_lines: None,
    };
    limit_text_output(input, &limits)
}

/// Applies offset and limit to a JSON array.
pub fn limit_json_array(items: Vec<Json>, limits: &ArrayLimits) -> (r: LimitedArray)
    ensures
        ({
            let total = items@.len() as int;
            let offset = match limits.offset {
                Some(o) => o as int,
                None => 0int,
            };
            let lim = match limits.limit {
                Some(l) => l as int,
                None => total,
            };
            let start = if offset <= total {
                offset
            } else {
                total
            };
            let end = if start + lim <= total {
                start + lim
            } else {
                total
            };
            &&& jview_list(r.items@) == jview_list(items@).subrange(start, end)
            &&& r.total_count as int == total
            &&& r.truncated == (end - start < total || offset > 0)
            &&& r.pagination.offset as int == offset
            &&& r.pagination.limit as int == lim
            &&& r.pagination.total as int == total
            &&& r.pagination.has_more == (offset + (end - start) < total)
        }),
{
    let total = items.len();
    let offset = match limits.offset {
        Some(o) => o,
        None => 0,
    };
    let lim = match limits.limit {
        Some(l) => l,
        None => total,
    };
    let start = if offset <= total {
        offset
    } else {
        total
    };
    let end = if lim <= total - start {
        start + lim
    } else {
        total
    };
    proof {
        lemma_jview_list_index(items@);
    }
    let mut page: Vec<Json> = Vec::new();
    let mut i = start;
    proof {
        assert(jview_list(page@) =~= jview_list(items@).subrange(start as int, start as int));
    }
    while i < end
        invariant
            start <= i <= end <= items@.len(),
            jview_list(items@).len() == items@.len(),
            forall|m: int|
                0 <= m < items@.len() ==> jview_list(items@)[m] == jview(#[trigger] items@[m]),
            jview_list(page@) == jview_list(items@).subrange(start as int, i as int),
        decreases end - i,
    {
        let ghost pre = page@;
        let c = clone_json(&items[i]);
        proof {
            lemma_jview_list_snoc(pre, c);
        }
        page.push(c);
        proof {
            assert(jview_list(page@) =~= jview_list(items@).subrange(start as int, i + 1 as int));
        }
        i = i + 1;
    }
    let kept = page.len();
    proof {
        crate::json::lemma_jview_list_index(page@);
    }
    let has_more = offset + kept < total;
    LimitedArray {
        items: page,
        truncated: kept < total || offset > 0,
        total_count: total,
        pagination: PaginationInfo { offset, limit: lim, total, has_more },
    }
}

/// Merges caller limits with configured defaults: explicit head and tail
/// pass through, and the byte and line caps fall back to the configuration.
pub fn merge_limits_with_config(user_limits: Option<OutputLimits>, config: &OutputLimitsConfig) -> (r:
    OutputLimits)
    ensures
        ({
            let mb = match config.default_max_bytes {
                Some(v) => v,
                None => 100000,
            };
            let ml = match config.default_max_lines {
                Some(v) => v,
                None => 2000,
            };
            match user_limits {
                Some(l) => {
                    &&& r.head == l.head
                    &&& r.tail == l.tail
                    &&& r.max_bytes == (match l.max_bytes {
                        Some(v) => Some(v),
                        None => Some(mb),
                    })
                    &&& r.max_lines == (match l.max_lines {
                        Some(v) => Some(v),
                        None => Some(ml),
                    })
                },
                None => {
                    &&& r.head is None
                    &&& r.tail is None
                    &&& r.max_bytes == Some(mb)
                    &&& r.max_lines == Some(ml)
                },
            }
        }),
{
    match user_limits {
        Some(l) => OutputLimits {
            head: l.head,
            tail: l.tail,
            max_bytes: match l.max_bytes {
                Some(v) => Some(v),
                None => Some(config.default_max_bytes()),
            },
            max_lines: match l.max_lines {
                Some(v) => Some(v),
                None => Some(config.default_max_lines()),
            },
        },
        None => OutputLimits {
            head: None,
            tail: None,
            max_bytes: Some(config.default_max_bytes()),
            max_lines: Some(config.default_max_lines()),
        },
    }
}

/// Merges caller array limits with the configured default page size.
pub fn merge_array_limits_with_config(user_limits: Option<ArrayLimits>, default_limit: usize) -> (r:
    ArrayLimits)
    ensures
        match user_limits {
            Some(l) => {
                &&& r.limit == (match l.limit {
                    Some(v) => Some(v),
                    None => Some(default_limit),
                })
                &&& r.offset == l.offset
            },
            None => {
                &&& r.limit == Some(default_limit)
                &&& r.offset == Some(0usize)
            },
        },
{
    match user_limits {
        Some(l) => ArrayLimits {
            limit: match l.limit {
                Some(v) => Some(v),
                None => Some(default_limit),
            },
            offset: l.offset,
        },
        None => ArrayLimits { limit: Some(default_limit), offset: Some(0) },
    }
}

} // verus!
