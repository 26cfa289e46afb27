//! Sorting object entries by key, for consistent ordering of results that
//! arrive as JSON objects: the output is a permutation of the input with
//! the keys in lexicographic order.

use vstd::prelude::*;
use vstd::multiset::Multiset;
use vstd::seq_lib::group_to_multiset_ensures;
use crate::json::Json;
use crate::strutil::chars_of;

verus! {

/// Lexicographic order on character sequences, by code point.
pub open spec fn lex_le(a: Seq<char>, b: Seq<char>) -> bool
    decreases a.len(),
{
    if a.len() == 0 {
        true
    } else if b.len() == 0 {
        false
    } else if a[0] != b[0] {
        (a[0] as u32) < (b[0] as u32)
    } else {
        lex_le(a.drop_first(), b.drop_first())
    }
}

/// Any two texts are ordered one way or the other.
pub proof fn lemma_lex_total(a: Seq<char>, b: Seq<char>)
    ensures
        lex_le(a, b) || lex_le(b, a),
    decreases a.len(),
{
    if a.len() > 0 && b.len() > 0 && a[0] == b[0] {
        lemma_lex_total(a.drop_first(), b.drop_first());
    } else if a.len() > 0 && b.len() > 0 && a[0] != b[0] {
        vstd::utf8::char_u32_cast(a[0], a[0] as u32);
        vstd::utf8::char_u32_cast(b[0], b[0] as u32);
        assert(a[0] as u32 != b[0] as u32) by {
            if a[0] as u32 == b[0] as u32 {
                assert(((a[0] as u32) as char) == a[0]);
                assert(((b[0] as u32) as char) == b[0]);
            }
        }
    }
}

/// The order is transitive.
pub proof fn lemma_lex_trans(a: Seq<char>, b: Seq<char>, c: Seq<char>)
    requires
        lex_le(a, b),
        lex_le(b, c),
    ensures
        lex_le(a, c),
    decreases a.len(),
{
    if a.len() == 0 {
    } else {
        assert(b.len() > 0);
        assert(c.len() > 0);
        if a[0] == b[0] {
            if b[0] == c[0] {
                lemma_lex_trans(a.drop_first(), b.drop_first(), c.drop_first());
            } else {
            }
        } else {
            if b[0] == c[0] {
            } else {
            }
        }
    }
}

/// Whether the entries' keys are in order.
pub open spec fn keys_sorted(s: Seq<(String, Json)>) -> bool {
    forall|i: int, j: int| 0 <= i < j < s.len() ==> lex_le((#[trigger] s[i]).0@, (#[trigger] s[j]).0@)
}

/// Compares two keys.
fn key_le(a: &str, b: &str) -> (r: bool)
    ensures
        r == lex_le(a@, b@),
{
    let ca = chars_of(a);
    let cb = chars_of(b);
    let mut i: usize = 0;
    proof {
        assert(a@.skip(0) =~= a@);
        assert(b@.skip(0) =~= b@);
    }
    while i < ca.len() && i < cb.len()
        invariant
            ca@ == a@,
            cb@ == b@,
            i <= a@.len(),
            i <= b@.len(),
            lex_le(a@, b@) == lex_le(a@.skip(i as int), b@.skip(i as int)),
        decreases a@.len() - i,
    {
        let x = ca[i];
        let y = cb[i];
        proof {
            assert(a@.skip(i as int)[0] == a@[i as int]);
            assert(b@.skip(i as int)[0] == b@[i as int]);
            assert(a@.skip(i as int).drop_first() =~= a@.skip(i + 1 as int));
            assert(b@.skip(i as int).drop_first() =~= b@.skip(i + 1 as int));
        }
        if x != y {
            return (x as u32) < (y as u32);
        }
        i = i + 1;
    }
    proof {
        if i == ca@.len() {
            assert(a@.skip(i as int).len() == 0);
        } else {
            assert(b@.skip(i as int).len() == 0);
            assert(a@.skip(i as int).len() > 0);
        }
    }
    i == ca.len()
}

/// Inserting an element anywhere adds exactly it to the contents.
proof fn lemma_insert_multiset(s: Seq<(String, Json)>, pos: int, x: (String, Json))
    requires
        0 <= pos <= s.len(),
    ensures
        s.insert(pos, x).to_multiset() == s.to_multiset().insert(x),
{
    broadcast use group_to_multiset_ensures;

    let t = s.insert(pos, x);
    t.to_multiset_ensures();
    assert(t.remove(pos) =~= s);
    assert(t[pos] == x);
    assert(t.remove(pos).to_multiset() =~= t.to_multiset().remove(x));
    assert(t.contains(x));
    assert(t.to_multiset().count(x) > 0);
    assert(t.to_multiset() =~= s.to_multiset().insert(x)) by {
        assert(s.to_multiset() == t.to_multiset().remove(x));
    }
}

/// Sorts entries by key: the result holds exactly the given entries, keys
/// in lexicographic order; entries with equal keys stay together in some
/// order.
pub fn sort_entries_by_key(entries: Vec<(String, Json)>) -> (r: Vec<(String, Json)>)
    ensures
        keys_sorted(r@),
        r@.to_multiset() == entries@.to_multiset(),
        r@.len() == entries@.len(),
{
    broadcast use group_to_multiset_ensures;

    let ghost full = entries@;
    let mut rest = entries;
    let mut out: Vec<(String, Json)> = Vec::new();
    proof {
        assert(out@.to_multiset().add(rest@.to_multiset()) =~= full.to_multiset());
        assert(keys_sorted(out@));
    }
    while rest.len() > 0
        invariant
            out@.to_multiset().add(rest@.to_multiset()) == full.to_multiset(),
            out@.len() + rest@.len() == full.len(),
            keys_sorted(out@),
        decreases rest@.len(),
    {
        let ghost rest0 = rest@;
        let x = rest.remove(0);
        proof {
            rest0.to_multiset_ensures();
            assert(rest0.remove(0).to_multiset() =~= rest0.to_multiset().remove(rest0[0]));
            assert(rest@.to_multiset() == rest0.to_multiset().remove(x));
            assert(rest0.contains(x)) by {
                assert(rest0[0] == x);
            }
            assert(rest0.to_multiset().count(x) > 0);
        }
        let mut pos: usize = 0;
        while pos < out.len() && key_le(out[pos].0.as_str(), x.0.as_str())
            invariant
                pos <= out@.len(),
                forall|m: int| 0 <= m < pos ==> lex_le((#[trigger] out@[m]).0@, x.0@),
            decreases out@.len() - pos,
        {
            pos = pos + 1;
        }
        proof {
            if pos < out@.len() {
                lemma_lex_total(out@[pos as int].0@, x.0@);
            }
        }
        let ghost out0 = out@;
        let ghost xg = x;
        out.insert(pos, x);
        proof {
            lemma_insert_multiset(out0, pos as int, xg);
            assert(out@ == out0.insert(pos as int, xg));
            assert forall|i: int, j: int|
                0 <= i < j < out@.len() implies lex_le(
                (#[trigger] out@[i]).0@,
                (#[trigger] out@[j]).0@,
            ) by {
                if j < pos {
                } else if j == pos {
                    assert(out@[j] == xg);
                    assert(out@[i] == out0[i]);
                } else {
                    if i < pos {
                        assert(out@[i] == out0[i]);
                        assert(out@[j] == out0[j - 1]);
                        if j - 1 >= pos {
                            if i < pos {
                                if pos < out0.len() {
                                } else {
                                }
                            }
                        }
                    } else if i == pos {
                        assert(out@[i] == xg);
                        assert(out@[j] == out0[j - 1]);
                        assert(lex_le(xg.0@, out0[pos as int].0@));
                        if j - 1 > pos {
                            lemma_lex_trans(xg.0@, out0[pos as int].0@, out0[j - 1].0@);
                        }
                    } else {
                        assert(out@[i] == out0[i - 1]);
                        assert(out@[j] == out0[j - 1]);
                    }
                }
            }
            assert(out@.to_multiset().add(rest@.to_multiset()) =~= full.to_multiset()) by {
                assert(out@.to_multiset() == out0.to_multiset().insert(xg));
                assert(rest@.to_multiset() == rest0.to_multiset().remove(xg));
                assert(out0.to_multiset().add(rest0.to_multiset()) == full.to_multiset());
            }
        }
    }
    proof {
        assert(rest@.to_multiset() =~= Multiset::<(String, Json)>::empty()) by {
            assert(rest@.len() == 0);
            assert(rest@ =~= Seq::<(String, Json)>::empty());
        }
        assert(out@.to_multiset() =~= full.to_multiset());
    }
    out
}

} // verus!
