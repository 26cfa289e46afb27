//! Resource addressing: the `nix://{type}/{path}?{params}` form, parsed
//! exactly, and the fixed list of resource templates.

use vstd::prelude::*;
use crate::strutil::chars_of;
use crate::strutil::push_chars;
use crate::strutil::string_of;

verus! {

/// One resource template.
#[derive(Debug)]
pub struct ResourceInfo {
    pub uri: String,
    pub name: String,
    pub description: String,
    pub mime_type: String,
}

/// One read resource.
#[derive(Debug)]
pub struct ResourceContent {
    pub uri: String,
    pub mime_type: String,
    pub text: String,
}

/// The parameters of a read request.
#[derive(Debug)]
pub struct ResourceReadParams {
    pub uri: String,
}

/// A parsed resource URI.
#[derive(Debug)]
pub struct ParsedUri {
    pub resource_type: String,
    pub path: String,
    pub params: Vec<(String, String)>,
}

/// The first position of `c`, if any.
pub open spec fn find_char(s: Seq<char>, c: char) -> Option<int>
    decreases s,
{
    if s.len() == 0 {
        None
    } else if s[0] == c {
        Some(0)
    } else {
        match find_char(s.drop_first(), c) {
            Some(k) => Some(k + 1),
            None => None,
        }
    }
}

/// Where the first occurrence stands.
pub proof fn lemma_find_char(s: Seq<char>, c: char)
    ensures
        match find_char(s, c) {
            Some(k) => 0 <= k < s.len() && s[k] == c && forall|m: int| 0 <= m < k ==> s[m] != c,
            None => forall|m: int| 0 <= m < s.len() ==> s[m] != c,
        },
    decreases s,
{
    if s.len() > 0 && s[0] != c {
        lemma_find_char(s.drop_first(), c);
        match find_char(s.drop_first(), c) {
            Some(k) => {
                assert forall|m: int| 0 <= m < k + 1 implies s[m] != c by {
                    if m > 0 {
                        assert(s.drop_first()[m - 1] == s[m]);
                    }
                }
            },
            None => {
                assert forall|m: int| 0 <= m < s.len() implies s[m] != c by {
                    if m > 0 {
                        assert(s.drop_first()[m - 1] == s[m]);
                    }
                }
            },
        }
    }
}

/// A scan that found no occurrence before `j`, and one at `j` when `j` is
/// in range, pins the first occurrence.
pub proof fn lemma_find_char_at(s: Seq<char>, c: char, j: int)
    requires
        0 <= j <= s.len(),
        forall|m: int| 0 <= m < j ==> s[m] != c,
        j < s.len() ==> s[j] == c,
    ensures
        j < s.len() ==> find_char(s, c) == Some(j),
        j == s.len() ==> find_char(s, c) is None,
{
    lemma_find_char(s, c);
    match find_char(s, c) {
        Some(k) => {
            if j < s.len() {
                if k < j {
                    assert(s[k] != c);
                }
                if k > j {
                    assert(s[j] != c);
                }
            } else {
                assert(s[k] != c);
            }
        },
        None => {
            if j < s.len() {
                assert(s[j] != c);
            }
        },
    }
}

/// The URI has the `nix://` scheme.
pub open spec fn spec_scheme_ok(uri: Seq<char>) -> bool {
    uri.len() >= 6 && uri.subrange(0, 6) == "nix://"@
}

/// The key/value pairs of a query string: `&`-separated pieces, each
/// split at its first `=`; pieces without one are dropped.
pub open spec fn spec_query_params(q: Seq<char>) -> Seq<(Seq<char>, Seq<char>)>
    decreases q.len(),
{
    let piece = match find_char(q, '&') {
        Some(i) => q.take(i),
        None => q,
    };
    let entry = match find_char(piece, '=') {
        Some(e) => seq![(piece.take(e), piece.skip(e + 1))],
        None => Seq::empty(),
    };
    match find_char(q, '&') {
        Some(i) => if 0 <= i < q.len() {
            entry + spec_query_params(q.skip(i + 1))
        } else {
            entry
        },
        None => entry,
    }
}

/// The part before the query, and the query itself.
pub open spec fn spec_uri_split(uri: Seq<char>) -> (Seq<char>, Option<Seq<char>>) {
    let rest = uri.skip(6);
    match find_char(rest, '?') {
        Some(i) => (rest.take(i), Some(rest.skip(i + 1))),
        None => (rest, None),
    }
}

/// The views of a parameter list.
pub open spec fn params_view(s: Seq<(String, String)>) -> Seq<(Seq<char>, Seq<char>)>
    decreases s,
{
    if s.len() == 0 {
        Seq::empty()
    } else {
        params_view(s.drop_last()).push((s.last().0@, s.last().1@))
    }
}

impl ParsedUri {
    /// The value of a query parameter; with a repeated key the last value
    /// wins, as in a map built by repeated insertion.
    pub fn get<'a>(&'a self, key: &str) -> (r: Option<&'a String>)
        ensures
            match r {
                Some(v) => plookup(params_view(self.params@), key@) == Some(v@),
                None => plookup(params_view(self.params@), key@) is None,
            },
    {
        let ghost pv = params_view(self.params@);
        proof {
            lemma_params_view_index(self.params@);
            assert(pv.take(pv.len() as int) =~= pv);
        }
        let mut i = self.params.len();
        while i > 0
            invariant
                pv == params_view(self.params@),
                pv.len() == self.params@.len(),
                forall|m: int|
                    0 <= m < self.params@.len() ==> pv[m] == ((#[trigger] self.params@[m]).0@,
                    self.params@[m].1@),
                i <= self.params@.len(),
                plookup(pv, key@) == plookup(pv.take(i as int), key@),
            decreases i,
        {
            let e: &(String, String) = &self.params[i - 1];
            proof {
                assert(pv.take(i as int).last() == pv[i - 1]);
                assert(pv.take(i as int).drop_last() =~= pv.take(i - 1));
            }
            if crate::strutil::str_eq(e.0.as_str(), key) {
                return Some(&e.1);
            }
            i = i - 1;
        }
        proof {
            assert(pv.take(0) =~= Seq::<(Seq<char>, Seq<char>)>::empty());
        }
        None
    }
}

/// Looks a key up from the back.
pub open spec fn plookup(params: Seq<(Seq<char>, Seq<char>)>, key: Seq<char>) -> Option<Seq<char>>
    decreases params,
{
    if params.len() == 0 {
        None
    } else if params.last().0 == key {
        Some(params.last().1)
    } else {
        plookup(params.drop_last(), key)
    }
}

/// Each entry of a parameter list's view is the view of its entry.
pub proof fn lemma_params_view_index(s: Seq<(String, String)>)
    ensures
        params_view(s).len() == s.len(),
        forall|m: int|
            0 <= m < s.len() ==> params_view(s)[m] == ((#[trigger] s[m]).0@, s[m].1@),
    decreases s,
{
    if s.len() > 0 {
        lemma_params_view_index(s.drop_last());
        assert forall|m: int|
            0 <= m < s.len() implies params_view(s)[m] == ((#[trigger] s[m]).0@, s[m].1@) by {
            if m < s.len() - 1 {
                assert(s.drop_last()[m] == s[m]);
            }
        }
    }
}

/// Parses a resource URI of the form `nix://{type}/{path}?{params}`.
pub fn parse_nix_uri(uri: &str) -> (r: Result<ParsedUri, String>)
    ensures
        !spec_scheme_ok(uri@) ==> (r matches Err(m) && m@ == "Invalid URI scheme, expected nix://: "@
            + uri@),
        spec_scheme_ok(uri@) ==> {
            let pq = spec_uri_split(uri@);
            match find_char(pq.0, '/') {
                None => (r matches Err(m) && m@ == "Invalid URI format, expected type/path: "@
                    + uri@),
                Some(j) => (r matches Ok(p) && {
                    &&& p.resource_type@ == pq.0.take(j)
                    &&& p.path@ == pq.0.skip(j + 1)
                    &&& params_view(p.params@) == (match pq.1 {
                        Some(q) => spec_query_params(q),
                        None => Seq::<(Seq<char>, Seq<char>)>::empty(),
                    })
                }),
            }
        },
{
    proof {
        reveal_strlit("nix://");
    }
    if !crate::strutil::str_starts_with(uri, "nix://") {
        let mut m = String::new();
        push_chars(&mut m, "Invalid URI scheme, expected nix://: ");
        push_chars(&mut m, uri);
        proof {
            assert(m@ =~= "Invalid URI scheme, expected nix://: "@ + uri@);
        }
        return Err(m);
    }
    let cs = chars_of(uri);
    let ghost rest = uri@.skip(6);
    // the end of the path part: the first question mark, or the end
    let mut q: usize = 6;
    while q < cs.len() && cs[q] != '?'
        invariant
            cs@ == uri@,
            6 <= q <= cs@.len(),
            forall|m: int| 6 <= m < q ==> cs@[m] != '?',
        decreases cs@.len() - q,
    {
        q = q + 1;
    }
    proof {
        assert forall|m: int| 0 <= m < q - 6 implies rest[m] != '?' by {
            assert(rest[m] == uri@[6 + m]);
        }
        if q < cs@.len() {
            assert(rest[q - 6] == uri@[q as int]);
        }
        lemma_find_char_at(rest, '?', q - 6);
    }
    // the type/path separator within the path part
    let mut j: usize = 6;
    while j < q && cs[j] != '/'
        invariant
            cs@ == uri@,
            6 <= j <= q <= cs@.len(),
            forall|m: int| 6 <= m < j ==> cs@[m] != '/',
        decreases q - j,
    {
        j = j + 1;
    }
    let ghost pp = if q < cs@.len() {
        rest.take(q - 6)
    } else {
        rest
    };
    proof {
        assert(pp =~= uri@.subrange(6, q as int));
        assert forall|m: int| 0 <= m < j - 6 implies pp[m] != '/' by {
            assert(pp[m] == uri@[6 + m]);
        }
        if j < q {
            assert(pp[j - 6] == uri@[j as int]);
        }
        lemma_find_char_at(pp, '/', j - 6);
    }
    if j >= q {
        let mut m = String::new();
        push_chars(&mut m, "Invalid URI format, expected type/path: ");
        push_chars(&mut m, uri);
        proof {
            assert(m@ =~= "Invalid URI format, expected type/path: "@ + uri@);
        }
        return Err(m);
    }
    let rtype = copy_str(&cs, 6, j);
    let path = copy_str(&cs, j + 1, q);
    proof {
        assert(rtype@ =~= pp.take(j - 6));
        assert(path@ =~= pp.skip(j - 6 + 1));
    }
    let mut params: Vec<(String, String)> = Vec::new();
    if q < cs.len() {
        let ghost qv = rest.skip(q - 6 + 1);
        proof {
            assert(qv =~= uri@.subrange(q + 1 as int, uri@.len() as int));
            lemma_params_view_index(params@);
            assert(params_view(params@) =~= Seq::<(Seq<char>, Seq<char>)>::empty());
        }
        let mut p = q + 1;
        while p < cs.len()
            invariant
                cs@ == uri@,
                q + 1 <= p <= cs@.len(),
                qv == uri@.subrange(q + 1 as int, uri@.len() as int),
                q < cs@.len(),
                params_view(params@) + spec_query_params(uri@.subrange(p as int, uri@.len() as int))
                    == spec_query_params(qv),
            decreases cs@.len() - p,
        {
            let ghost piece_start = p as int;
            let mut a = p;
            while a < cs.len() && cs[a] != '&'
                invariant
                    cs@ == uri@,
                    p <= a <= cs@.len(),
                    forall|m: int| p <= m < a ==> cs@[m] != '&',
                decreases cs@.len() - a,
            {
                a = a + 1;
            }
            let mut e = p;
            while e < a && cs[e] != '='
                invariant
                    cs@ == uri@,
                    p <= e <= a <= cs@.len(),
                    forall|m: int| p <= m < e ==> cs@[m] != '=',
                decreases a - e,
            {
                e = e + 1;
            }
            let ghost cur = uri@.subrange(p as int, uri@.len() as int);
            let ghost piece = if a < cs@.len() {
                cur.take(a - p)
            } else {
                cur
            };
            proof {
                assert forall|m: int| 0 <= m < a - p implies cur[m] != '&' by {
                    assert(cur[m] == uri@[p + m]);
                }
                if a < cs@.len() {
                    assert(cur[a - p] == uri@[a as int]);
                }
                lemma_find_char_at(cur, '&', a - p);
                assert(piece =~= uri@.subrange(p as int, a as int));
                assert forall|m: int| 0 <= m < e - p implies piece[m] != '=' by {
                    assert(piece[m] == uri@[p + m]);
                }
                if e < a {
                    assert(piece[e - p] == uri@[e as int]);
                }
                lemma_find_char_at(piece, '=', e - p);
            }
            if e < a {
                let k = copy_str(&cs, p, e);
                let v = copy_str(&cs, e + 1, a);
                let ghost pre = params@;
                proof {
                    assert(k@ =~= piece.take(e - p));
                    assert(v@ =~= piece.skip(e - p + 1));
                    assert(pre.push((k, v)).drop_last() =~= pre);
                }
                params.push((k, v));
            }
            proof {
                if a < cs@.len() {
                    assert(cur.skip(a - p + 1) =~= uri@.subrange(a + 1 as int, uri@.len() as int));
                    assert(params_view(params@) + spec_query_params(
                        uri@.subrange(a + 1 as int, uri@.len() as int),
                    ) =~= spec_query_params(qv));
                } else {
                    assert(uri@.subrange(cs@.len() as int, uri@.len() as int) =~= Seq::<
                        char,
                    >::empty());
                    assert(params_view(params@) + spec_query_params(Seq::<char>::empty())
                        =~= spec_query_params(qv));
                }
            }
            p = if a < cs.len() {
                a + 1
            } else {
                a
            };
        }
        proof {
            assert(uri@.subrange(p as int, uri@.len() as int) =~= Seq::<char>::empty());
            assert(params_view(params@) =~= spec_query_params(qv));
        }
    }
    Ok(ParsedUri { resource_type: rtype, path, params })
}

/// The characters in `[from, to)`, as a string.
fn copy_str(cs: &Vec<char>, from: usize, to: usize) -> (r: String)
    requires
        from <= to <= cs@.len(),
    ensures
        r@ == cs@.subrange(from as int, to as int),
{
    let mut line: Vec<char> = Vec::new();
    let mut m = from;
    while m < to
        invariant
            from <= m <= to <= cs@.len(),
            line@ == cs@.subrange(from as int, m as int),
        decreases to - m,
    {
        line.push(cs[m]);
        proof {
            assert(line@ =~= cs@.subrange(from as int, m + 1 as int));
        }
        m = m + 1;
    }
    string_of(&line)
}

/// The fixed list of resource templates.
pub fn list_resources() -> (r: Vec<ResourceInfo>)
    ensures
        r@.len() == 3,
        r@[0].uri@ == "nix://build-log/{store-path}"@,
        r@[0].name@ == "Build Log"@,
        r@[0].mime_type@ == "text/plain"@,
        r@[1].uri@ == "nix://derivation/{drv-path}"@,
        r@[1].name@ == "Derivation"@,
        r@[1].mime_type@ == "application/json"@,
        r@[2].uri@ == "nix://closure/{store-path}"@,
        r@[2].name@ == "Store Closure"@,
        r@[2].mime_type@ == "application/json"@,
{
    let mut r: Vec<ResourceInfo> = Vec::new();
    r.push(
        ResourceInfo {
            uri: "nix://build-log/{store-path}".to_owned(),
            name: "Build Log".to_owned(),
            description:
                "Access build logs for a store path with pagination. Query params: offset, limit".to_owned(),
            mime_type: "text/plain".to_owned(),
        },
    );
    r.push(
        ResourceInfo {
            uri: "nix://derivation/{drv-path}".to_owned(),
            name: "Derivation".to_owned(),
            description:
                "Access derivation data with optional summary mode. Query params: summary (true/false), offset, limit".to_owned(),
            mime_type: "application/json".to_owned(),
        },
    );
    r.push(
        ResourceInfo {
            uri: "nix://closure/{store-path}".to_owned(),
            name: "Store Closure".to_owned(),
            description:
                "Access closure information for a store path. Query params: offset, limit".to_owned(),
            mime_type: "application/json".to_owned(),
        },
    );
    r
}

} // verus!
