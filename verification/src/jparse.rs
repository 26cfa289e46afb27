//! The JSON parser. Besides returning a well-typed tree for malformed-input
//! detection, every parse function carries a completeness contract: whenever
//! the text at the cursor is the serialization of a value, exactly that value
//! is returned. Together with the serializer's contract this yields the
//! round-trip property for all values.

use vstd::prelude::*;
use crate::json::JVal;
use crate::json::Json;
use crate::json::dec_digits;
use crate::json::digit_char;
use crate::json::esc_char;
use crate::json::hex_char;
use crate::json::is_dec_digit;
use crate::json::is_ws_char;
use crate::json::jview;
use crate::json::jview_fields;
use crate::json::jview_list;
use crate::json::lemma_jview_fields_snoc;
use crate::json::lemma_jview_list_snoc;
use crate::json::ser_elems;
use crate::json::ser_elems_rest;
use crate::json::ser_members;
use crate::json::ser_members_rest;
use crate::json::wf_jval_fields;
use crate::json::wf_jval_list;
use crate::json::lemma_ser_str_snoc;
use crate::json::ser_int;
use crate::json::ser_jval;
use crate::json::ser_str_chars;
use crate::json::wf_int;
use crate::json::wf_jval;

verus! {

/// The text from `i` on is the serialization of `jv` followed by `rest`.
pub open spec fn region_matches(t: Seq<char>, i: int, jv: JVal, rest: Seq<char>) -> bool {
    t.subrange(i, t.len() as int) == ser_jval(jv) + rest
}

/// After an integer, the following text must not begin with a digit, or the
/// greedy digit scan would take more than the integer's own characters.
pub open spec fn int_boundary(jv: JVal, rest: Seq<char>) -> bool {
    jv is Int ==> (rest.len() == 0 || !is_dec_digit(rest[0]))
}

/// The completeness claim of the value parser at position `i`.
pub open spec fn value_claim(
    t: Seq<char>,
    i: int,
    r: Option<(Json, usize)>,
    jv: JVal,
    rest: Seq<char>,
) -> bool {
    (wf_jval(jv) && region_matches(t, i, jv, rest) && int_boundary(jv, rest)) ==> match r {
        Some(p) => p.0@ == jv && p.1 == i + ser_jval(jv).len(),
        None => false,
    }
}

/// The text from `i` on is a string body (after the opening quote):
/// the escaped characters of `s`, the closing quote, then `rest`.
pub open spec fn str_region_matches(t: Seq<char>, i: int, s: Seq<char>, rest: Seq<char>) -> bool {
    t.subrange(i, t.len() as int) == ser_str_chars(s) + seq!['"'] + rest
}

/// The completeness claim of the string-body parser at position `i`.
pub open spec fn str_claim(
    t: Seq<char>,
    i: int,
    r: Option<(Vec<char>, usize)>,
    s: Seq<char>,
    rest: Seq<char>,
) -> bool {
    str_region_matches(t, i, s, rest) ==> match r {
        Some(p) => p.0@ == s && p.1 == i + ser_str_chars(s).len() + 1,
        None => false,
    }
}

/// The invariant of the string-body scan: `accs` characters have been
/// decoded and the cursor stands at `pos`.
pub open spec fn str_scan_inv(t: Seq<char>, i: int, pos: int, accs: Seq<char>) -> bool {
    forall|s: Seq<char>, rest: Seq<char>|
        #[trigger] str_region_matches(t, i, s, rest) ==> {
            &&& accs.len() <= s.len()
            &&& accs == s.take(accs.len() as int)
            &&& str_region_matches(t, pos, s.skip(accs.len() as int), rest)
            &&& pos == i + ser_str_chars(s.take(accs.len() as int)).len()
        }
}

/// The decimal digits of `n`: at least one character, all decimal digits.
pub proof fn lemma_dec_digits(n: nat)
    ensures
        dec_digits(n).len() > 0,
        forall|k: int| 0 <= k < dec_digits(n).len() ==> is_dec_digit(#[trigger] dec_digits(n)[k]),
    decreases n,
{
    lemma_digit_char_val(n % 10);
    if n < 10 {
        lemma_digit_char_val(n);
    } else {
        lemma_dec_digits(n / 10);
    }
}

/// The character of a single decimal digit and its code.
pub proof fn lemma_digit_char_val(d: nat)
    requires
        d < 10,
    ensures
        digit_char(d) as u32 == 48 + d,
        is_dec_digit(digit_char(d)),
{
    assert(vstd::utf8::is_scalar((48 + d) as u32));
}

/// The character of a hexadecimal digit and its code.
pub proof fn lemma_hex_char_val(d: nat)
    requires
        d < 16,
    ensures
        d < 10 ==> hex_char(d) as u32 == 48 + d,
        d >= 10 ==> hex_char(d) as u32 == 87 + d,
        hex_char(d) != '"',
        hex_char(d) != '\\',
{
    if d < 10 {
        assert(vstd::utf8::is_scalar((48 + d) as u32));
    } else {
        assert(vstd::utf8::is_scalar((87 + d) as u32));
    }
}

/// Every serialization is non-empty, and its first character identifies
/// the kind of the value.
pub proof fn lemma_ser_head(jv: JVal)
    ensures
        ser_jval(jv).len() > 0,
        jv is Null ==> ser_jval(jv)[0] == 'n',
        jv matches JVal::Bool(b) ==> ser_jval(jv)[0] == (if b {
            't'
        } else {
            'f'
        }),
        jv is Int ==> (ser_jval(jv)[0] == '-' || is_dec_digit(ser_jval(jv)[0])),
        jv is Str ==> ser_jval(jv)[0] == '"',
        jv is Arr ==> ser_jval(jv)[0] == '[',
        jv is Obj ==> ser_jval(jv)[0] == '{',
{
    match jv {
        JVal::Int(n) => {
            if n < 0 {
                lemma_dec_digits((-n) as nat);
            } else {
                lemma_dec_digits(n as nat);
            }
        },
        _ => {},
    }
}

/// The first character of an escaped character: a backslash for the escaped
/// forms, the character itself otherwise; never the closing quote.
pub proof fn lemma_esc_shape(c: char)
    ensures
        esc_char(c).len() == 1 || esc_char(c).len() == 2 || esc_char(c).len() == 6,
        esc_char(c)[0] != '"',
        (c == '"' || c == '\\' || (c as u32) < 32) <==> esc_char(c)[0] == '\\',
        esc_char(c).len() == 1 ==> esc_char(c)[0] == c,
        c == '"' ==> esc_char(c) == seq!['\\', '"'],
        c == '\\' ==> esc_char(c) == seq!['\\', '\\'],
        (c != '"' && c != '\\' && (c as u32) < 32) ==> esc_char(c) == seq!['\\', 'u', '0', '0',
            hex_char((c as u32 / 16) as nat), hex_char((c as u32 % 16) as nat)],
{
    if c == '"' {
    } else if c == '\\' {
    } else if (c as u32) < 32 {
        lemma_hex_char_val((c as u32 / 16) as nat);
        lemma_hex_char_val((c as u32 % 16) as nat);
        assert((c as u32) != ('\\' as u32));
        assert(c as u32 >= 32 ==> false);
    } else {
        assert(c as u32 != '"' as u32 ==> c != '"');
    }
}

/// Advances the string-scan facts across one escaped source character.
proof fn lemma_str_one(t: Seq<char>, pos: int, k: int, s: Seq<char>, rest: Seq<char>)
    requires
        0 <= pos <= t.len(),
        0 <= k < s.len(),
        str_region_matches(t, pos, s.skip(k), rest),
    ensures
        pos + esc_char(s[k]).len() + 1 <= t.len(),
        forall|m: int|
            0 <= m < esc_char(s[k]).len() ==> t[pos + m] == #[trigger] esc_char(s[k])[m],
        str_region_matches(t, pos + esc_char(s[k]).len(), s.skip(k + 1), rest),
        ser_str_chars(s.skip(k)).len() == esc_char(s[k]).len() + ser_str_chars(s.skip(k + 1)).len(),
{
    let w = esc_char(s[k]).len() as int;
    assert(s.skip(k).len() > 0);
    assert(s.skip(k)[0] == s[k]);
    assert(ser_str_chars(s.skip(k)) == esc_char(s[k]) + ser_str_chars(s.skip(k).drop_first()));
    assert(s.skip(k).drop_first() =~= s.skip(k + 1));
    let region = t.subrange(pos, t.len() as int);
    assert(region == (esc_char(s[k]) + ser_str_chars(s.skip(k + 1))) + seq!['"'] + rest);
    assert(region.len() == w + ser_str_chars(s.skip(k + 1)).len() + 1 + rest.len());
    assert(t.len() - pos == region.len());
    assert forall|m: int| 0 <= m < w implies t[pos + m] == #[trigger] esc_char(s[k])[m] by {
        assert(region[m] == t[pos + m]);
        assert(region[m] == esc_char(s[k])[m]);
    }
    assert(t.subrange(pos + w, t.len() as int) =~= region.skip(w));
    assert(region.skip(w) =~= ser_str_chars(s.skip(k + 1)) + seq!['"'] + rest);
}

/// Extends the scan state by one decoded character.
proof fn lemma_str_push(t: Seq<char>, pos: int, k: int, s: Seq<char>)
    requires
        0 <= k < s.len(),
    ensures
        s.take(k).push(s[k]) == s.take(k + 1),
        ser_str_chars(s.take(k + 1)).len() == ser_str_chars(s.take(k)).len() + esc_char(
            s[k],
        ).len(),
{
    assert(s.take(k).push(s[k]) =~= s.take(k + 1));
    lemma_ser_str_snoc(s.take(k), s[k]);
}

/// Parses the body of a string literal: `i` points just past the opening
/// quote; on success the contents and the position just past the closing
/// quote are returned.
#[verifier::rlimit(80)]
pub fn parse_str_body(t: &Vec<char>, i: usize) -> (r: Option<(Vec<char>, usize)>)
    requires
        i <= t@.len(),
    ensures
        r matches Some(p) ==> i < p.1 <= t@.len(),
        forall|s: Seq<char>, rest: Seq<char>| #[trigger] str_claim(t@, i as int, r, s, rest),
{
    let ghost tv = t@;
    let mut acc: Vec<char> = Vec::new();
    let mut pos = i;
    proof {
        assert forall|s: Seq<char>, rest: Seq<char>|
            #[trigger] str_region_matches(tv, i as int, s, rest) implies {
            &&& acc@.len() <= s.len()
            &&& acc@ == s.take(acc@.len() as int)
            &&& str_region_matches(tv, pos as int, s.skip(acc@.len() as int), rest)
            &&& pos == i + ser_str_chars(s.take(acc@.len() as int)).len()
        } by {
            assert(acc@ =~= s.take(0));
            assert(s.skip(0) =~= s);
            assert(s.take(0) =~= Seq::<char>::empty());
        }
    }
    loop
        invariant
            i <= pos <= tv.len(),
            tv == t@,
            str_scan_inv(tv, i as int, pos as int, acc@),
        decreases tv.len() - pos,
    {
        let ghost k = acc@.len() as int;
        if pos >= t.len() {
            proof {
                assert forall|s: Seq<char>, rest: Seq<char>|
                    #[trigger] str_claim(tv, i as int, None::<(Vec<char>, usize)>, s, rest) by {
                    if str_region_matches(tv, i as int, s, rest) {
                        assert(str_region_matches(tv, pos as int, s.skip(k), rest));
                        assert(tv.subrange(pos as int, tv.len() as int).len() == 0);
                        assert((ser_str_chars(s.skip(k)) + seq!['"'] + rest).len() > 0);
                    }
                }
            }
            return None;
        }
        let c = t[pos];
        if c == '"' {
            proof {
                assert forall|s: Seq<char>, rest: Seq<char>|
                    #[trigger] str_region_matches(tv, i as int, s, rest) implies acc@ == s && pos
                    + 1 == i + ser_str_chars(s).len() + 1 by {
                    assert(str_region_matches(tv, pos as int, s.skip(k), rest));
                    if k < s.len() {
                        lemma_str_one(tv, pos as int, k, s, rest);
                        lemma_esc_shape(s[k as int]);
                        assert(tv[pos as int] == esc_char(s[k as int])[0]);
                        assert(false);
                    }
                    assert(s.take(k) =~= s);
                }
            }
            return Some((acc, pos + 1));
        } else if c == '\\' {
            proof {
                assert forall|s: Seq<char>, rest: Seq<char>|
                    #[trigger] str_region_matches(tv, i as int, s, rest) implies k < s.len()
                    && esc_char(s[k as int])[0] == '\\' by {
                    assert(str_region_matches(tv, pos as int, s.skip(k), rest));
                    if k < s.len() {
                        lemma_str_one(tv, pos as int, k, s, rest);
                    } else {
                        assert(s.skip(k).len() == 0);
                        let region = tv.subrange(pos as int, tv.len() as int);
                        assert(region[0] == (ser_str_chars(s.skip(k)) + seq!['"'] + rest)[0]);
                        assert(region[0] == '"');
                        assert(false);
                    }
                }
            }
            if pos + 1 >= t.len() {
                proof {
                    assert forall|s: Seq<char>, rest: Seq<char>|
                        #[trigger] str_claim(tv, i as int, None::<(Vec<char>, usize)>, s, rest) by {
                        if str_region_matches(tv, i as int, s, rest) {
                            lemma_str_one(tv, pos as int, k, s, rest);
                            lemma_esc_shape(s[k as int]);
                        }
                    }
                }
                return None;
            }
            let e = t[pos + 1];
            if e == '"' || e == '\\' {
                proof {
                    assert forall|s: Seq<char>, rest: Seq<char>|
                        #[trigger] str_region_matches(tv, i as int, s, rest) implies s[k as int]
                        == e && str_scan_inv_step(tv, i as int, pos as int, acc@, s, rest, e, 2) by {
                        lemma_str_one(tv, pos as int, k, s, rest);
                        lemma_esc_shape(s[k as int]);
                        assert(tv[pos as int + 1] == esc_char(s[k as int])[1]);
                        lemma_str_push(tv, pos as int, k, s);
                    }
                }
                acc.push(e);
                pos = pos + 2;
            } else if e == 'u' {
                proof {
                    assert forall|s: Seq<char>, rest: Seq<char>|
                        #[trigger] str_region_matches(tv, i as int, s, rest) implies (s[k as int]
                        as u32) < 32 && s[k as int] != '"' && s[k as int] != '\\' by {
                        lemma_str_one(tv, pos as int, k, s, rest);
                        lemma_esc_shape(s[k as int]);
                        assert(tv[pos as int + 1] == esc_char(s[k as int])[1]);
                    }
                }
                if t.len() - pos < 6 {
                    proof {
                        assert forall|s: Seq<char>, rest: Seq<char>|
                            #[trigger] str_claim(tv, i as int, None::<(Vec<char>, usize)>, s, rest) by {
                            if str_region_matches(tv, i as int, s, rest) {
                                lemma_str_one(tv, pos as int, k, s, rest);
                                lemma_esc_shape(s[k as int]);
                            }
                        }
                    }
                    return None;
                }
                let h = match hex4(t, pos + 2) {
                    Some(h) => h,
                    None => {
                        proof {
                            assert forall|s: Seq<char>, rest: Seq<char>|
                                #[trigger] str_claim(
                                    tv,
                                    i as int,
                                    None::<(Vec<char>, usize)>,
                                    s,
                                    rest,
                                ) by {
                                if str_region_matches(tv, i as int, s, rest) {
                                    lemma_escape_code(tv, pos as int, k, s, rest);
                                    assert(valid_hex4_at(tv, pos as int + 2, s[k] as u32 as int));
                                }
                            }
                        }
                        return None;
                    },
                };
                proof {
                    assert forall|s: Seq<char>, rest: Seq<char>|
                        #[trigger] str_region_matches(tv, i as int, s, rest) implies h == s[k as int]
                        as u32 && h < 32 by {
                        lemma_escape_code(tv, pos as int, k, s, rest);
                        assert(valid_hex4_at(tv, pos as int + 2, s[k as int] as u32 as int));
                    }
                }
                if h >= 32 {
                    // not written by the serializer; decode leniently
                    if 0xD800 <= h && h < 0xDC00 {
                        if t.len() - pos >= 12 && t[pos + 6] == '\\' && t[pos + 7] == 'u' {
                            let lo = match hex4(t, pos + 8) {
                                Some(lo) => lo,
                                None => {
                                    return None;
                                },
                            };
                            if 0xDC00 <= lo && lo < 0xE000 {
                                let code: u32 = 0x10000 + (h - 0xD800) * 0x400 + (lo - 0xDC00);
                                match char::from_u32(code) {
                                    Some(c2) => {
                                        acc.push(c2);
                                        pos = pos + 12;
                                    },
                                    None => {
                                        return None;
                                    },
                                }
                            } else {
                                return None;
                            }
                        } else {
                            return None;
                        }
                    } else if 0xDC00 <= h && h < 0xE000 {
                        return None;
                    } else {
                        match char::from_u32(h) {
                            Some(c2) => {
                                acc.push(c2);
                                pos = pos + 6;
                            },
                            None => {
                                return None;
                            },
                        }
                    }
                } else {
                    let decoded = match char::from_u32(h) {
                        Some(c2) => c2,
                        None => {
                            proof {
                                assert(vstd::utf8::is_scalar(h));
                                assert(false);
                            }
                            return None;
                        },
                    };
                    proof {
                        broadcast use vstd::utf8::char_u32_cast;

                        assert forall|s: Seq<char>, rest: Seq<char>|
                            #[trigger] str_region_matches(tv, i as int, s, rest) implies s[k as int]
                            == decoded && str_scan_inv_step(
                            tv,
                            i as int,
                            pos as int,
                            acc@,
                            s,
                            rest,
                            decoded,
                            6,
                        ) by {
                            lemma_escape_code(tv, pos as int, k, s, rest);
                            assert(valid_hex4_at(tv, pos as int + 2, s[k as int] as u32 as int));
                            assert(decoded as u32 == s[k as int] as u32);
                            vstd::utf8::char_u32_cast(decoded, h);
                            vstd::utf8::char_u32_cast(s[k as int], h);
                            assert((h as char) == s[k as int]);
                            lemma_str_one(tv, pos as int, k, s, rest);
                            lemma_esc_shape(s[k as int]);
                            lemma_str_push(tv, pos as int, k, s);
                        }
                    }
                    acc.push(decoded);
                    pos = pos + 6;
                }
            } else {
                // a short escape the serializer never writes: \n \t \r \b \f \/
                proof {
                    assert forall|s: Seq<char>, rest: Seq<char>|
                        #[trigger] str_region_matches(tv, i as int, s, rest) implies false by {
                        lemma_str_one(tv, pos as int, k, s, rest);
                        lemma_esc_shape(s[k as int]);
                        assert(tv[pos as int + 1] == esc_char(s[k as int])[1]);
                        lemma_hex_char_val((s[k as int] as u32 / 16) as nat);
                        lemma_hex_char_val((s[k as int] as u32 % 16) as nat);
                    }
                }
                let decoded = if e == 'n' {
                    '\n'
                } else if e == 't' {
                    '\t'
                } else if e == 'r' {
                    '\r'
                } else if e == 'b' {
                    match char::from_u32(8) {
                        Some(c2) => c2,
                        None => {
                            return None;
                        },
                    }
                } else if e == 'f' {
                    match char::from_u32(12) {
                        Some(c2) => c2,
                        None => {
                            return None;
                        },
                    }
                } else if e == '/' {
                    '/'
                } else {
                    return None;
                };
                acc.push(decoded);
                pos = pos + 2;
            }
        } else if (c as u32) < 32 {
            // raw control characters are not valid inside a string literal
            proof {
                assert forall|s: Seq<char>, rest: Seq<char>|
                    #[trigger] str_claim(tv, i as int, None::<(Vec<char>, usize)>, s, rest) by {
                    if str_region_matches(tv, i as int, s, rest) {
                        assert(str_region_matches(tv, pos as int, s.skip(k), rest));
                        if k < s.len() {
                            lemma_str_one(tv, pos as int, k, s, rest);
                            lemma_esc_shape(s[k as int]);
                            assert(tv[pos as int] == esc_char(s[k as int])[0]);
                        } else {
                            let region = tv.subrange(pos as int, tv.len() as int);
                            assert(region[0] == (ser_str_chars(s.skip(k)) + seq!['"'] + rest)[0]);
                        }
                    }
                }
            }
            return None;
        } else {
            proof {
                assert forall|s: Seq<char>, rest: Seq<char>|
                    #[trigger] str_region_matches(tv, i as int, s, rest) implies s[k as int] == c
                    && str_scan_inv_step(tv, i as int, pos as int, acc@, s, rest, c, 1) by {
                    assert(str_region_matches(tv, pos as int, s.skip(k), rest));
                    if k < s.len() {
                        lemma_str_one(tv, pos as int, k, s, rest);
                        lemma_esc_shape(s[k as int]);
                        assert(tv[pos as int] == esc_char(s[k as int])[0]);
                        assert(esc_char(s[k as int])[0] != '\\');
                        assert(esc_char(s[k as int]).len() == 1);
                        lemma_str_push(tv, pos as int, k, s);
                    } else {
                        let region = tv.subrange(pos as int, tv.len() as int);
                        assert(region[0] == (ser_str_chars(s.skip(k)) + seq!['"'] + rest)[0]);
                        assert(false);
                    }
                }
            }
            acc.push(c);
            pos = pos + 1;
        }
    }
}

/// One scan step is justified: the decoded character is the next source
/// character and the cursor lands after its escape.
pub open spec fn str_scan_inv_step(
    t: Seq<char>,
    i: int,
    pos: int,
    accs: Seq<char>,
    s: Seq<char>,
    rest: Seq<char>,
    decoded: char,
    width: int,
) -> bool {
    let k = accs.len() as int;
    &&& k < s.len()
    &&& s[k] == decoded
    &&& accs.push(decoded) == s.take(k + 1)
    &&& str_region_matches(t, pos + width, s.skip(k + 1), rest)
    &&& pos + width == i + ser_str_chars(s.take(k + 1)).len()
    &&& esc_char(s[k]).len() == width
}

/// Under the scan invariant at a backslash-u escape, the region pins the
/// four hexadecimal characters and the code they denote.
proof fn lemma_escape_code(t: Seq<char>, pos: int, k: int, s: Seq<char>, rest: Seq<char>)
    requires
        0 <= pos <= t.len(),
        0 <= k,
        k <= s.len(),
        str_region_matches(t, pos, s.skip(k), rest),
        pos + 1 < t.len(),
        t[pos] == '\\',
        t[pos + 1] == 'u',
    ensures
        k < s.len(),
        (s[k] as u32) < 32,
        s[k] != '"' && s[k] != '\\',
        pos + 6 <= t.len(),
        t[pos + 2] == spec_hex4(s[k] as u32 as int)[0],
        t[pos + 3] == spec_hex4(s[k] as u32 as int)[1],
        t[pos + 4] == spec_hex4(s[k] as u32 as int)[2],
        t[pos + 5] == spec_hex4(s[k] as u32 as int)[3],
{
    if k == s.len() {
        let region = t.subrange(pos, t.len() as int);
        assert(region[0] == (ser_str_chars(s.skip(k)) + seq!['"'] + rest)[0]);
        assert(false);
    }
    lemma_str_one(t, pos, k, s, rest);
    lemma_esc_shape(s[k]);
    assert(t[pos + 1] == esc_char(s[k])[1]);
    if s[k] == '"' || s[k] == '\\' {
        assert(false);
    }
    let c = s[k] as u32;
    assert(esc_char(s[k]) == seq!['\\', 'u', '0', '0', hex_char((c / 16) as nat), hex_char(
        (c % 16) as nat,
    )]);
    lemma_hex_char_val(0);
    assert(c / 4096 % 16 == 0);
    assert(c / 256 % 16 == 0);
    assert(c / 16 % 16 == c / 16);
    assert(t[pos + 2] == esc_char(s[k])[2]);
    assert(t[pos + 3] == esc_char(s[k])[3]);
    assert(t[pos + 4] == esc_char(s[k])[4]);
    assert(t[pos + 5] == esc_char(s[k])[5]);
}

/// The four hexadecimal digits of a code unit below 0x10000.
pub open spec fn spec_hex4(d: int) -> Seq<char> {
    seq![
        hex_char((d / 4096 % 16) as nat),
        hex_char((d / 256 % 16) as nat),
        hex_char((d / 16 % 16) as nat),
        hex_char((d % 16) as nat),
    ]
}

/// Reads four hexadecimal digits starting at `i`.
fn hex4(t: &Vec<char>, i: usize) -> (r: Option<u32>)
    requires
        i + 4 <= t@.len(),
    ensures
        r matches Some(h) ==> h < 0x10000,
        forall|d: int| valid_hex4_at(t@, i as int, d) ==> r == Some(d as u32),
{
    let n = t.len();
    let h0 = match hex_val(t[i]) {
        Some(v) => v,
        None => {
            proof {
                assert forall|d: int| valid_hex4_at(t@, i as int, d) implies false by {
                    hex_digits_of(d);
                    assert(hex_char((d / 4096 % 16) as nat) != t@[i as int]);
                }
            }
            return None;
        },
    };
    let h1 = match hex_val(t[i + 1]) {
        Some(v) => v,
        None => {
            proof {
                assert forall|d: int| valid_hex4_at(t@, i as int, d) implies false by {
                    hex_digits_of(d);
                    assert(hex_char((d / 256 % 16) as nat) != t@[i + 1]);
                }
            }
            return None;
        },
    };
    let h2 = match hex_val(t[i + 2]) {
        Some(v) => v,
        None => {
            proof {
                assert forall|d: int| valid_hex4_at(t@, i as int, d) implies false by {
                    hex_digits_of(d);
                    assert(hex_char((d / 16 % 16) as nat) != t@[i + 2]);
                }
            }
            return None;
        },
    };
    let h3 = match hex_val(t[i + 3]) {
        Some(v) => v,
        None => {
            proof {
                assert forall|d: int| valid_hex4_at(t@, i as int, d) implies false by {
                    hex_digits_of(d);
                    assert(hex_char((d % 16) as nat) != t@[i + 3]);
                }
            }
            return None;
        },
    };
    let r = ((h0 * 16 + h1) * 16 + h2) * 16 + h3;
    proof {
        assert forall|d: int| valid_hex4_at(t@, i as int, d) implies Some(r) == Some(d as u32) by {
            hex_digits_of(d);
            assert(h0 == d / 4096 % 16);
            assert(h1 == d / 256 % 16);
            assert(h2 == d / 16 % 16);
            assert(h3 == d % 16);
            assert(((d / 4096 % 16) * 16 + (d / 256 % 16)) * 16 * 16 + (d / 16 % 16) * 16 + (d % 16)
                == d) by (nonlinear_arith)
                requires
                    0 <= d < 0x10000,
            ;
        }
    }
    Some(r)
}

/// The four characters at `i` spell the hexadecimal digits of `d`.
pub open spec fn valid_hex4_at(t: Seq<char>, i: int, d: int) -> bool {
    &&& 0 <= d < 0x10000
    &&& t[i] == spec_hex4(d)[0]
    &&& t[i + 1] == spec_hex4(d)[1]
    &&& t[i + 2] == spec_hex4(d)[2]
    &&& t[i + 3] == spec_hex4(d)[3]
}

proof fn hex_digits_of(d: int)
    requires
        0 <= d < 0x10000,
    ensures
        0 <= d / 4096 % 16 < 16,
        0 <= d / 256 % 16 < 16,
        0 <= d / 16 % 16 < 16,
        0 <= d % 16 < 16,
{
}

/// The numeric value of one hexadecimal digit character.
fn hex_val(c: char) -> (r: Option<u32>)
    ensures
        forall|d: nat| d < 16 && c == hex_char(d) ==> r == Some(d as u32),
        r matches Some(v) ==> v < 16,
        r is None ==> forall|d: nat| d < 16 ==> #[trigger] hex_char(d) != c,
{
    let u = c as u32;
    let r = if 48 <= u && u <= 57 {
        Some(u - 48)
    } else if 97 <= u && u <= 102 {
        Some(u - 87)
    } else if 65 <= u && u <= 70 {
        Some(u - 55)
    } else {
        None
    };
    proof {
        assert forall|d: nat| d < 16 implies (c == hex_char(d) ==> r == Some(d as u32)) && (r
            is None ==> hex_char(d) != c) by {
            lemma_hex_char_val(d);
            if c == hex_char(d) {
                assert(u == hex_char(d) as u32);
            }
        }
    }
    r
}

/// The numeric value of one decimal digit character.
pub open spec fn dv(c: char) -> int {
    c as u32 - 48
}

/// The value of a digit string, most significant first.
pub open spec fn digits_val(s: Seq<char>) -> int
    decreases s,
{
    if s.len() == 0 {
        0
    } else {
        digits_val(s.drop_last()) * 10 + dv(s.last())
    }
}

/// The digit string of `n` evaluates back to `n`.
pub proof fn lemma_digits_val_dec(n: nat)
    ensures
        digits_val(dec_digits(n)) == n,
    decreases n,
{
    lemma_digit_char_val(n % 10);
    if n < 10 {
        lemma_digit_char_val(n);
        let d = dec_digits(n);
        assert(d.drop_last() =~= Seq::<char>::empty());
        assert(digits_val(d) == digits_val(Seq::<char>::empty()) * 10 + dv(d.last()));
    } else {
        lemma_digits_val_dec(n / 10);
        let d = dec_digits(n);
        assert(d == dec_digits(n / 10).push(digit_char(n % 10)));
        assert(d.drop_last() =~= dec_digits(n / 10));
        assert(d.last() == digit_char(n % 10));
        assert(n / 10 * 10 + n % 10 == n) by {
            vstd::arithmetic::div_mod::lemma_fundamental_div_mod(n as int, 10);
        }
    }
}

/// Every strict prefix of a digit string is worth no more than the whole.
pub proof fn lemma_digits_val_prefix(s: Seq<char>, j: int)
    requires
        0 <= j <= s.len(),
        forall|k: int| 0 <= k < s.len() ==> is_dec_digit(#[trigger] s[k]),
    ensures
        0 <= digits_val(s.take(j)),
        digits_val(s.take(j)) <= digits_val(s),
    decreases s.len() - j,
{
    if j == s.len() {
        assert(s.take(j) =~= s);
        lemma_digits_val_nonneg(s);
    } else {
        lemma_digits_val_prefix(s, j + 1);
        assert(s.take(j + 1).drop_last() =~= s.take(j));
        assert(s.take(j + 1).last() == s[j]);
        assert(digits_val(s.take(j + 1)) == digits_val(s.take(j)) * 10 + dv(s[j]));
        assert(0 <= dv(s[j]) <= 9);
        lemma_digits_val_nonneg(s.take(j));
    }
}

/// A digit string has a non-negative value.
pub proof fn lemma_digits_val_nonneg(s: Seq<char>)
    requires
        forall|k: int| 0 <= k < s.len() ==> is_dec_digit(#[trigger] s[k]),
    ensures
        digits_val(s) >= 0,
    decreases s,
{
    if s.len() > 0 {
        assert(s.drop_last() =~= s.take(s.len() - 1));
        assert(forall|k: int|
            0 <= k < s.drop_last().len() ==> is_dec_digit(#[trigger] s.drop_last()[k]));
        lemma_digits_val_nonneg(s.drop_last());
        assert(0 <= dv(s.last()));
    }
}

/// The magnitude of a well-formed integer.
pub open spec fn abs_of(n: int) -> nat {
    if n < 0 {
        (-n) as nat
    } else {
        n as nat
    }
}

/// Where the digits of a serialized integer stand in the text, and what
/// follows them.
pub proof fn lemma_num_layout(t: Seq<char>, i: int, n: int, rest: Seq<char>)
    requires
        0 <= i <= t.len(),
        wf_int(n),
        region_matches(t, i, JVal::Int(n), rest),
        int_boundary(JVal::Int(n), rest),
    ensures
        ({
            let digs = dec_digits(abs_of(n));
            let base = if n < 0 { i + 1 } else { i };
            &&& (n < 0 ==> i < t.len() && t[i] == '-')
            &&& base + digs.len() <= t.len()
            &&& forall|j: int| 0 <= j < digs.len() ==> t[base + j] == #[trigger] digs[j]
            &&& forall|j: int| 0 <= j < digs.len() ==> is_dec_digit(#[trigger] t[base + j])
            &&& (base + digs.len() == t.len() || !is_dec_digit(t[base + digs.len()]))
            &&& i + ser_jval(JVal::Int(n)).len() == base + digs.len()
        }),
{
    let digs = dec_digits(abs_of(n));
    let base: int = if n < 0 { i + 1 } else { i };
    let region = t.subrange(i, t.len() as int);
    lemma_dec_digits(abs_of(n));
    assert(ser_jval(JVal::Int(n)) == ser_int(n));
    assert(region.len() == ser_int(n).len() + rest.len());
    if n < 0 {
        assert(ser_int(n) == seq!['-'] + digs);
        assert(ser_int(n).len() == 1 + digs.len());
        assert(i < t.len());
        assert(region[0] == (ser_int(n) + rest)[0]);
        assert((ser_int(n) + rest)[0] == ser_int(n)[0]);
        assert(ser_int(n)[0] == '-');
        assert(t[i] == region[0]);
    } else {
        assert(ser_int(n) == digs);
    }
    assert forall|j: int| 0 <= j < digs.len() implies t[base + j] == #[trigger] digs[j] by {
        assert(region[base - i + j] == (ser_int(n) + rest)[base - i + j]);
        assert((ser_int(n) + rest)[base - i + j] == ser_int(n)[base - i + j]);
        assert(ser_int(n)[base - i + j] == digs[j]);
        assert(t[base + j] == region[base - i + j]);
    }
    assert forall|j: int| 0 <= j < digs.len() implies is_dec_digit(#[trigger] t[base + j]) by {
        assert(t[base + j] == digs[j]);
        assert(is_dec_digit(digs[j]));
    }
    if rest.len() > 0 {
        assert(base + digs.len() < t.len());
        assert(region[base - i + digs.len()] == (ser_int(n) + rest)[base - i + digs.len()]);
        assert((ser_int(n) + rest)[base - i + digs.len()] == rest[0]);
        assert(t[base + digs.len()] == region[base - i + digs.len()]);
        assert(!is_dec_digit(t[base + digs.len()]));
    } else {
        assert(region.len() == base - i + digs.len());
        assert(base + digs.len() == t.len());
    }
}

/// Parses an integer at `i`; the first character is a minus sign or digit.
fn parse_number(t: &Vec<char>, i: usize) -> (r: Option<(Json, usize)>)
    requires
        i < t@.len(),
        t@[i as int] == '-' || is_dec_digit(t@[i as int]),
    ensures
        r matches Some(p) ==> i < p.1 <= t@.len(),
        forall|jv: JVal, rest: Seq<char>| #[trigger] value_claim(t@, i as int, r, jv, rest),
{
    let ghost tv = t@;
    let tlen = t.len();
    let neg = t[i] == '-';
    let start = if neg {
        i + 1
    } else {
        i
    };
    proof {
        assert forall|jv: JVal, rest: Seq<char>|
            (wf_jval(jv) && region_matches(tv, i as int, jv, rest) && int_boundary(jv, rest))
            implies jv is Int && num_shape(tv, i as int, neg, jv) by {
            lemma_ser_head(jv);
            let region = tv.subrange(i as int, tv.len() as int);
            assert(tv[i as int] == region[0]);
            assert(region[0] == ser_jval(jv)[0]);
            match jv {
                JVal::Int(n) => {
                    lemma_num_layout(tv, i as int, n, rest);
                    if n < 0 {
                    } else {
                        lemma_dec_digits(n as nat);
                        assert(ser_jval(jv)[0] == dec_digits(n as nat)[0]);
                        assert(tv[i as int] != '-');
                    }
                },
                _ => {
                    assert(false);
                },
            }
        }
    }
    if start >= t.len() {
        proof {
            assert forall|jv: JVal, rest: Seq<char>|
                #[trigger] value_claim(tv, i as int, None::<(Json, usize)>, jv, rest) by {
                if wf_jval(jv) && region_matches(tv, i as int, jv, rest) && int_boundary(jv, rest) {
                    let n = jv->Int_0;
                    lemma_num_layout(tv, i as int, n, rest);
                    lemma_dec_digits(abs_of(n));
                }
            }
        }
        return None;
    }
    let c0 = t[start];
    if !('0' <= c0 && c0 <= '9') {
        proof {
            assert forall|jv: JVal, rest: Seq<char>|
                #[trigger] value_claim(tv, i as int, None::<(Json, usize)>, jv, rest) by {
                if wf_jval(jv) && region_matches(tv, i as int, jv, rest) && int_boundary(jv, rest) {
                    let n = jv->Int_0;
                    lemma_num_layout(tv, i as int, n, rest);
                    lemma_dec_digits(abs_of(n));
                    assert(tv[start as int] == dec_digits(abs_of(n))[0]);
                }
            }
        }
        return None;
    }
    let mut pos = start;
    let mut acc: u64 = 0;
    while pos < t.len() && '0' <= t[pos] && t[pos] <= '9'
        invariant
            tv == t@,
            i <= start <= pos <= tv.len(),
            start < tv.len(),
            neg ==> i + 1 == start,
            !neg ==> i == start,
            forall|jv: JVal, rest: Seq<char>|
                (wf_jval(jv) && region_matches(tv, i as int, jv, rest) && int_boundary(jv, rest))
                    ==> jv is Int && num_shape(tv, i as int, neg, jv),
            forall|jv: JVal, rest: Seq<char>|
                (wf_jval(jv) && region_matches(tv, i as int, jv, rest) && int_boundary(jv, rest))
                    ==> {
                    let digs = dec_digits(abs_of(jv->Int_0));
                    &&& pos - start <= digs.len()
                    &&& acc == digits_val(digs.take(pos - start))
                },
        decreases tv.len() - pos,
    {
        let c = t[pos];
        let d: u64 = (c as u32 - 48) as u64;
        if acc > (0xffff_ffff_ffff_ffffu64 - d) / 10 {
            proof {
                assert forall|jv: JVal, rest: Seq<char>|
                    #[trigger] value_claim(tv, i as int, None::<(Json, usize)>, jv, rest) by {
                    if wf_jval(jv) && region_matches(tv, i as int, jv, rest) && int_boundary(
                        jv,
                        rest,
                    ) {
                        let n = jv->Int_0;
                        let digs = dec_digits(abs_of(n));
                        lemma_num_layout(tv, i as int, n, rest);
                        let j = pos - start;
                        assert(j < digs.len()) by {
                            if j == digs.len() {
                                assert(is_dec_digit(tv[pos as int]) ==> false);
                            }
                        }
                        assert(tv[start + j] == digs[j]);
                        assert(digs.take(j + 1).drop_last() =~= digs.take(j));
                        assert(digs.take(j + 1).last() == digs[j]);
                        lemma_dec_digits(abs_of(n));
                        lemma_digits_val_prefix(digs, j + 1);
                        lemma_digits_val_dec(abs_of(n));
                        assert(digits_val(digs.take(j + 1)) == acc * 10 + dv(digs[j]));
                        assert(acc * 10 + d <= abs_of(n));
                        assert(abs_of(n) <= 0x8000_0000_0000_0000);
                        assert(acc <= (0xffff_ffff_ffff_ffffu64 - d) / 10) by (nonlinear_arith)
                            requires
                                acc * 10 + d <= 0x8000_0000_0000_0000,
                                d <= 0xffff_ffff_ffff_ffffu64,
                        ;
                    }
                }
            }
            return None;
        }
        proof {
            assert(acc <= (0xffff_ffff_ffff_ffffu64 - d) / 10);
            assert(acc * 10 + d <= 0xffff_ffff_ffff_ffffu64) by (nonlinear_arith)
                requires
                    acc <= (0xffff_ffff_ffff_ffffu64 - d) / 10,
                    d <= 0xffff_ffff_ffff_ffffu64,
            ;
            assert forall|jv: JVal, rest: Seq<char>|
                (wf_jval(jv) && region_matches(tv, i as int, jv, rest) && int_boundary(jv, rest))
                implies {
                let digs = dec_digits(abs_of(jv->Int_0));
                &&& pos + 1 - start <= digs.len()
                &&& acc * 10 + d == digits_val(digs.take(pos + 1 - start))
            } by {
                let n = jv->Int_0;
                let digs = dec_digits(abs_of(n));
                lemma_num_layout(tv, i as int, n, rest);
                let j = pos - start;
                assert(j < digs.len()) by {
                    if j == digs.len() {
                        assert(is_dec_digit(tv[pos as int]) ==> false);
                    }
                }
                assert(tv[start + j] == digs[j]);
                assert(digs.take(j + 1).drop_last() =~= digs.take(j));
                assert(digs.take(j + 1).last() == digs[j]);
                assert(digits_val(digs.take(j + 1)) == digits_val(digs.take(j)) * 10 + dv(
                    digs[j],
                ));
                assert(d == dv(digs[j]));
            }
        }
        acc = acc * 10 + d;
        pos = pos + 1;
    }
    proof {
        assert forall|jv: JVal, rest: Seq<char>|
            (wf_jval(jv) && region_matches(tv, i as int, jv, rest) && int_boundary(jv, rest))
            implies {
            &&& acc == abs_of(jv->Int_0)
            &&& pos == i + ser_jval(jv).len()
            &&& (neg <==> jv->Int_0 < 0)
        } by {
            let n = jv->Int_0;
            let digs = dec_digits(abs_of(n));
            lemma_num_layout(tv, i as int, n, rest);
            let j = pos - start;
            assert(j == digs.len()) by {
                if j < digs.len() {
                    assert(tv[start + j] == digs[j]);
                    lemma_dec_digits(abs_of(n));
                    assert(is_dec_digit(tv[pos as int]));
                    assert(pos < tv.len());
                    assert('0' <= tv[pos as int] && tv[pos as int] <= '9');
                }
            }
            assert(digs.take(j) =~= digs);
            lemma_digits_val_dec(abs_of(n));
        }
    }
    if neg {
        if acc > 0x8000_0000_0000_0000u64 {
            return None;
        }
        let n: i64 = if acc == 0x8000_0000_0000_0000u64 {
            i64::MIN
        } else {
            -(acc as i64)
        };
        return Some((Json::Int(n), pos));
    }
    if acc > 0x7fff_ffff_ffff_ffffu64 {
        return None;
    }
    Some((Json::Int(acc as i64), pos))
}

/// The sign character read by the scanner agrees with the sign of the value.
pub open spec fn num_shape(t: Seq<char>, i: int, neg: bool, jv: JVal) -> bool {
    jv matches JVal::Int(n) ==> (neg <==> n < 0)
}


/// Where each serialized character of `jv` stands in the text.
pub proof fn lemma_region_chars(t: Seq<char>, i: int, jv: JVal, rest: Seq<char>)
    requires
        0 <= i <= t.len(),
        region_matches(t, i, jv, rest),
    ensures
        i + ser_jval(jv).len() + rest.len() == t.len(),
        forall|m: int| 0 <= m < ser_jval(jv).len() ==> t[i + m] == #[trigger] ser_jval(jv)[m],
        rest.len() > 0 ==> t[i + ser_jval(jv).len()] == rest[0],
{
    let region = t.subrange(i, t.len() as int);
    assert(region.len() == ser_jval(jv).len() + rest.len());
    assert forall|m: int| 0 <= m < ser_jval(jv).len() implies t[i + m] == #[trigger] ser_jval(
        jv,
    )[m] by {
        assert(region[m] == (ser_jval(jv) + rest)[m]);
        assert(t[i + m] == region[m]);
    }
    if rest.len() > 0 {
        let m = ser_jval(jv).len() as int;
        assert(region[m] == (ser_jval(jv) + rest)[m]);
        assert(t[i + m] == region[m]);
    }
}

/// The serialization of no value starts with whitespace.
pub proof fn lemma_head_not_ws(jv: JVal)
    ensures
        ser_jval(jv).len() > 0,
        !is_ws_char(ser_jval(jv)[0]),
{
    lemma_ser_head(jv);
    match jv {
        JVal::Int(_) => {
            let h = ser_jval(jv)[0];
            if is_dec_digit(h) {
                assert(h as u32 >= 48);
                assert(!is_ws_char(h));
            }
        },
        _ => {},
    }
}

/// A well-formed list is well formed at every index.
pub proof fn lemma_wf_list_index(items: Seq<JVal>, n: int)
    requires
        wf_jval_list(items),
        0 <= n < items.len(),
    ensures
        wf_jval(items[n]),
    decreases n,
{
    if n == 0 {
    } else {
        lemma_wf_list_index(items.drop_first(), n - 1);
        assert(items.drop_first()[n - 1] == items[n]);
    }
}

/// A well-formed field list is well formed at every index.
pub proof fn lemma_wf_fields_index(fields: Seq<(Seq<char>, JVal)>, n: int)
    requires
        wf_jval_fields(fields),
        0 <= n < fields.len(),
    ensures
        wf_jval(fields[n].1),
    decreases n,
{
    if n == 0 {
    } else {
        lemma_wf_fields_index(fields.drop_first(), n - 1);
        assert(fields.drop_first()[n - 1] == fields[n]);
    }
}

/// What remains of a serialized element list after `n` elements (and the
/// comma before element `n`, when `n > 0`) have been consumed.
pub open spec fn ser_after(elems: Seq<JVal>, n: int) -> Seq<char> {
    if n == 0 {
        ser_elems(elems)
    } else {
        ser_elems_rest(elems.skip(n))
    }
}

/// What remains of a serialized member list after `n` members.
pub open spec fn ser_fields_after(fields: Seq<(Seq<char>, JVal)>, n: int) -> Seq<char> {
    if n == 0 {
        ser_members(fields)
    } else {
        ser_members_rest(fields.skip(n))
    }
}

/// Unfolds the remaining element list at element `n`.
pub proof fn lemma_elems_split(elems: Seq<JVal>, n: int)
    requires
        0 <= n < elems.len(),
    ensures
        ser_after(elems, n) == (if n == 0 {
            Seq::<char>::empty()
        } else {
            seq![',']
        }) + ser_jval(elems[n]) + ser_after(elems, n + 1),
        ser_after(elems, n + 1) == ser_elems_rest(elems.skip(n + 1)),
{
    if n == 0 {
        assert(elems.drop_first() =~= elems.skip(1));
        assert(ser_elems(elems) == ser_jval(elems[0]) + ser_elems_rest(elems.skip(1)));
        assert(Seq::<char>::empty() + ser_jval(elems[0]) + ser_elems_rest(elems.skip(1)) =~=
            ser_jval(elems[0]) + ser_elems_rest(elems.skip(1)));
    } else {
        assert(elems.skip(n).len() > 0);
        assert(elems.skip(n)[0] == elems[n]);
        assert(elems.skip(n).drop_first() =~= elems.skip(n + 1));
        assert(ser_elems_rest(elems.skip(n)) == seq![','] + ser_jval(elems.skip(n)[0])
            + ser_elems_rest(elems.skip(n).drop_first()));
    }
}

/// Unfolds the remaining member list at member `n`.
pub proof fn lemma_members_split(fields: Seq<(Seq<char>, JVal)>, n: int)
    requires
        0 <= n < fields.len(),
    ensures
        ser_fields_after(fields, n) == (if n == 0 {
            Seq::<char>::empty()
        } else {
            seq![',']
        }) + seq!['"'] + ser_str_chars(fields[n].0) + seq!['"', ':'] + ser_jval(fields[n].1)
            + ser_fields_after(fields, n + 1),
        ser_fields_after(fields, n + 1) == ser_members_rest(fields.skip(n + 1)),
{
    if n == 0 {
        assert(fields.drop_first() =~= fields.skip(1));
        assert(ser_members(fields) == seq!['"'] + ser_str_chars(fields[0].0) + seq!['"', ':']
            + ser_jval(fields[0].1) + ser_members_rest(fields.skip(1)));
        assert(Seq::<char>::empty() + seq!['"'] + ser_str_chars(fields[0].0) + seq!['"', ':']
            + ser_jval(fields[0].1) + ser_members_rest(fields.skip(1)) =~= seq!['"']
            + ser_str_chars(fields[0].0) + seq!['"', ':'] + ser_jval(fields[0].1)
            + ser_members_rest(fields.skip(1)));
    } else {
        assert(fields.skip(n).len() > 0);
        assert(fields.skip(n)[0] == fields[n]);
        assert(fields.skip(n).drop_first() =~= fields.skip(n + 1));
        assert(ser_members_rest(fields.skip(n)) == seq![','] + seq!['"'] + ser_str_chars(
            fields.skip(n)[0].0,
        ) + seq!['"', ':'] + ser_jval(fields.skip(n)[0].1) + ser_members_rest(
            fields.skip(n).drop_first(),
        ));
    }
}

/// The remaining element list is empty exactly when `n` elements were
/// consumed; otherwise its text starts with a comma or the next element.
pub proof fn lemma_ser_after_head(elems: Seq<JVal>, n: int)
    requires
        0 <= n <= elems.len(),
    ensures
        n == elems.len() ==> ser_after(elems, n).len() == 0,
        n < elems.len() && n == 0 ==> ser_after(elems, n)[0] == ser_jval(elems[0])[0]
            && ser_after(elems, n).len() > 0,
        n < elems.len() && n > 0 ==> ser_after(elems, n)[0] == ',' && ser_after(elems, n).len()
            > 0,
{
    if n == elems.len() {
        if n > 0 {
            assert(elems.skip(n).len() == 0);
        }
    } else {
        lemma_elems_split(elems, n);
        lemma_ser_head(elems[n]);
        if n == 0 {
            assert(ser_after(elems, 0)[0] == ser_jval(elems[0])[0]);
        }
    }
}

/// The remaining member list is empty exactly when `n` members were
/// consumed; otherwise its text starts with a comma or a quote.
pub proof fn lemma_ser_fields_after_head(fields: Seq<(Seq<char>, JVal)>, n: int)
    requires
        0 <= n <= fields.len(),
    ensures
        n == fields.len() ==> ser_fields_after(fields, n).len() == 0,
        n < fields.len() && n == 0 ==> ser_fields_after(fields, n)[0] == '"' && ser_fields_after(
            fields,
            n,
        ).len() > 0,
        n < fields.len() && n > 0 ==> ser_fields_after(fields, n)[0] == ',' && ser_fields_after(
            fields,
            n,
        ).len() > 0,
{
    if n == fields.len() {
        if n > 0 {
            assert(fields.skip(n).len() == 0);
        }
    } else {
        lemma_members_split(fields, n);
    }
}

/// The matching premise for an array being scanned.
pub open spec fn arr_match(t: Seq<char>, i: int, elems: Seq<JVal>, rest: Seq<char>) -> bool {
    wf_jval(JVal::Arr(elems)) && region_matches(t, i, JVal::Arr(elems), rest)
}

/// The matching premise for an object being scanned.
pub open spec fn obj_match(
    t: Seq<char>,
    i: int,
    fields: Seq<(Seq<char>, JVal)>,
    rest: Seq<char>,
) -> bool {
    wf_jval(JVal::Obj(fields)) && region_matches(t, i, JVal::Obj(fields), rest)
}

/// The first position at or after `i` holding a non-whitespace character.
pub fn skip_ws(t: &Vec<char>, i: usize) -> (k: usize)
    requires
        i <= t@.len(),
    ensures
        i <= k <= t@.len(),
        forall|m: int| i <= m < k ==> is_ws_char(#[trigger] t@[m]),
        k < t@.len() ==> !is_ws_char(t@[k as int]),
{
    let mut k = i;
    while k < t.len()
        invariant
            i <= k <= t@.len(),
            forall|m: int| i <= m < k ==> is_ws_char(#[trigger] t@[m]),
        decreases t@.len() - k,
    {
        let c = t[k];
        if !(c == ' ' || c == '\t' || c == '\n' || c == '\r') {
            return k;
        }
        k = k + 1;
    }
    k
}

/// Parses one JSON value at `i` (no leading whitespace).
pub fn parse_value(t: &Vec<char>, i: usize) -> (r: Option<(Json, usize)>)
    requires
        i <= t@.len(),
    ensures
        r matches Some(p) ==> i < p.1 <= t@.len(),
        forall|jv: JVal, rest: Seq<char>| #[trigger] value_claim(t@, i as int, r, jv, rest),
    decreases t@.len() - i, 1int,
{
    let ghost tv = t@;
    let tlen = t.len();
    if i >= tlen {
        proof {
            assert forall|jv: JVal, rest: Seq<char>|
                #[trigger] value_claim(tv, i as int, None::<(Json, usize)>, jv, rest) by {
                if wf_jval(jv) && region_matches(tv, i as int, jv, rest) {
                    lemma_ser_head(jv);
                    lemma_region_chars(tv, i as int, jv, rest);
                }
            }
        }
        return None;
    }
    let c = t[i];
    if c == 'n' {
        let ok = tlen - i >= 4 && t[i + 1] == 'u' && t[i + 2] == 'l' && t[i + 3] == 'l';
        proof {
            assert forall|jv: JVal, rest: Seq<char>|
                (wf_jval(jv) && region_matches(tv, i as int, jv, rest) && int_boundary(jv, rest))
                implies jv == JVal::Null && ok && 4 == ser_jval(jv).len() by {
                lemma_ser_head(jv);
                lemma_region_chars(tv, i as int, jv, rest);
                assert(tv[i as int] == ser_jval(jv)[0]);
                match jv {
                    JVal::Null => {
                        assert(ser_jval(jv) == seq!['n', 'u', 'l', 'l']);
                        assert(tv[i + 1] == ser_jval(jv)[1]);
                        assert(tv[i + 2] == ser_jval(jv)[2]);
                        assert(tv[i + 3] == ser_jval(jv)[3]);
                    },
                    JVal::Int(n) => {
                        assert(!is_dec_digit('n'));
                        assert(false);
                    },
                    _ => {
                        assert(false);
                    },
                }
            }
        }
        if ok {
            return Some((Json::Null, i + 4));
        }
        return None;
    }
    if c == 't' {
        let ok = tlen - i >= 4 && t[i + 1] == 'r' && t[i + 2] == 'u' && t[i + 3] == 'e';
        proof {
            assert forall|jv: JVal, rest: Seq<char>|
                (wf_jval(jv) && region_matches(tv, i as int, jv, rest) && int_boundary(jv, rest))
                implies jv == JVal::Bool(true) && ok && 4 == ser_jval(jv).len() by {
                lemma_ser_head(jv);
                lemma_region_chars(tv, i as int, jv, rest);
                match jv {
                    JVal::Bool(b) => {
                        if b {
                            assert(ser_jval(jv) == seq!['t', 'r', 'u', 'e']);
                            assert(tv[i + 1] == ser_jval(jv)[1]);
                            assert(tv[i + 2] == ser_jval(jv)[2]);
                            assert(tv[i + 3] == ser_jval(jv)[3]);
                        } else {
                            assert(false);
                        }
                    },
                    JVal::Int(n) => {
                        assert(!is_dec_digit('t'));
                        assert(false);
                    },
                    _ => {
                        assert(false);
                    },
                }
            }
        }
        if ok {
            return Some((Json::Bool(true), i + 4));
        }
        return None;
    }
    if c == 'f' {
        let ok = tlen - i >= 5 && t[i + 1] == 'a' && t[i + 2] == 'l' && t[i + 3] == 's' && t[i + 4]
            == 'e';
        proof {
            assert forall|jv: JVal, rest: Seq<char>|
                (wf_jval(jv) && region_matches(tv, i as int, jv, rest) && int_boundary(jv, rest))
                implies jv == JVal::Bool(false) && ok && 5 == ser_jval(jv).len() by {
                lemma_ser_head(jv);
                lemma_region_chars(tv, i as int, jv, rest);
                match jv {
                    JVal::Bool(b) => {
                        if !b {
                            assert(ser_jval(jv) == seq!['f', 'a', 'l', 's', 'e']);
                            assert(tv[i + 1] == ser_jval(jv)[1]);
                            assert(tv[i + 2] == ser_jval(jv)[2]);
                            assert(tv[i + 3] == ser_jval(jv)[3]);
                            assert(tv[i + 4] == ser_jval(jv)[4]);
                        } else {
                            assert(false);
                        }
                    },
                    JVal::Int(n) => {
                        assert(!is_dec_digit('f'));
                        assert(false);
                    },
                    _ => {
                        assert(false);
                    },
                }
            }
        }
        if ok {
            return Some((Json::Bool(false), i + 5));
        }
        return None;
    }
    if c == '"' {
        proof {
            assert forall|jv: JVal, rest: Seq<char>|
                (wf_jval(jv) && region_matches(tv, i as int, jv, rest) && int_boundary(jv, rest))
                implies jv is Str && str_region_matches(tv, i + 1, jv->Str_0, rest) by {
                lemma_ser_head(jv);
                lemma_region_chars(tv, i as int, jv, rest);
                match jv {
                    JVal::Str(sc) => {
                        let region = tv.subrange(i as int, tv.len() as int);
                        assert(region == ((seq!['"'] + ser_str_chars(sc)) + seq!['"']) + rest);
                        assert(tv.subrange(i + 1, tv.len() as int) =~= region.skip(1));
                        assert(region.skip(1) =~= ser_str_chars(sc) + seq!['"'] + rest);
                    },
                    JVal::Int(n) => {
                        assert(!is_dec_digit('"'));
                        assert(false);
                    },
                    _ => {
                        assert(false);
                    },
                }
            }
        }
        match parse_str_body(t, i + 1) {
            Some(p) => {
                let (cs, j) = p;
                let v = Json::Str(crate::strutil::string_of(&cs));
                proof {
                    assert forall|jv: JVal, rest: Seq<char>|
                        #[trigger] value_claim(tv, i as int, Some((v, j)), jv, rest) by {
                        if wf_jval(jv) && region_matches(tv, i as int, jv, rest) && int_boundary(
                            jv,
                            rest,
                        ) {
                            assert(str_claim(tv, i + 1, Some((cs, j)), jv->Str_0, rest));
                            assert(v@ == JVal::Str(cs@));
                            assert(ser_jval(jv).len() == 2 + ser_str_chars(jv->Str_0).len());
                        }
                    }
                }
                return Some((v, j));
            },
            None => {
                proof {
                    assert forall|jv: JVal, rest: Seq<char>|
                        #[trigger] value_claim(tv, i as int, None::<(Json, usize)>, jv, rest) by {
                        if wf_jval(jv) && region_matches(tv, i as int, jv, rest) && int_boundary(
                            jv,
                            rest,
                        ) {
                            assert(str_claim(
                                tv,
                                i + 1,
                                None::<(Vec<char>, usize)>,
                                jv->Str_0,
                                rest,
                            ));
                        }
                    }
                }
                return None;
            },
        }
    }
    if c == '[' {
        return parse_arr(t, i);
    }
    if c == '{' {
        return parse_obj(t, i);
    }
    if c == '-' || ('0' <= c && c <= '9') {
        return parse_number(t, i);
    }
    proof {
        assert forall|jv: JVal, rest: Seq<char>|
            #[trigger] value_claim(tv, i as int, None::<(Json, usize)>, jv, rest) by {
            if wf_jval(jv) && region_matches(tv, i as int, jv, rest) {
                lemma_ser_head(jv);
                lemma_region_chars(tv, i as int, jv, rest);
                assert(tv[i as int] == ser_jval(jv)[0]);
            }
        }
    }
    None
}

/// The scan state of an array: `accs` elements parsed, cursor at `pos`
/// where the rest of the element list begins.
pub open spec fn arr_scan_inv(t: Seq<char>, i: int, pos: int, accs: Seq<Json>) -> bool {
    forall|elems: Seq<JVal>, rest: Seq<char>|
        #[trigger] arr_match(t, i, elems, rest) ==> {
            &&& accs.len() <= elems.len()
            &&& jview_list(accs) == elems.take(accs.len() as int)
            &&& t.subrange(pos, t.len() as int) == ser_after(elems, accs.len() as int) + seq![']']
                + rest
        }
}

/// Parses an array at `i` (the opening bracket).
#[verifier::rlimit(100)]
fn parse_arr(t: &Vec<char>, i: usize) -> (r: Option<(Json, usize)>)
    requires
        i < t@.len(),
        t@[i as int] == '[',
    ensures
        r matches Some(p) ==> i < p.1 <= t@.len(),
        forall|jv: JVal, rest: Seq<char>| #[trigger] value_claim(t@, i as int, r, jv, rest),
    decreases t@.len() - i, 0int,
{
    let ghost tv = t@;
    let tlen = t.len();
    proof {
        assert forall|jv: JVal, rest: Seq<char>|
            (wf_jval(jv) && region_matches(tv, i as int, jv, rest) && int_boundary(jv, rest))
            implies jv is Arr && arr_match(tv, i as int, jv->Arr_0, rest) by {
            lemma_ser_head(jv);
            lemma_region_chars(tv, i as int, jv, rest);
            match jv {
                JVal::Int(n) => {
                    assert(!is_dec_digit('['));
                    assert(false);
                },
                JVal::Arr(_) => {},
                _ => {
                    assert(false);
                },
            }
        }
        assert forall|elems: Seq<JVal>, rest: Seq<char>|
            #[trigger] arr_match(tv, i as int, elems, rest) implies tv.subrange(
            i + 1,
            tv.len() as int,
        ) == ser_after(elems, 0) + seq![']'] + rest by {
            let region = tv.subrange(i as int, tv.len() as int);
            assert(region == ((seq!['['] + ser_elems(elems)) + seq![']']) + rest);
            assert(tv.subrange(i + 1, tv.len() as int) =~= region.skip(1));
            assert(region.skip(1) =~= ser_elems(elems) + seq![']'] + rest);
        }
    }
    let mut acc: Vec<Json> = Vec::new();
    let mut pos = skip_ws(t, i + 1);
    proof {
        lemma_arr_skip(tv, i as int, i + 1, pos as int, acc@);
    }
    loop
        invariant
            tv == t@,
            tlen == tv.len(),
            i < pos <= tlen,
            forall|jv: JVal, rest: Seq<char>|
                (wf_jval(jv) && region_matches(tv, i as int, jv, rest) && int_boundary(jv, rest))
                    ==> jv is Arr && arr_match(tv, i as int, jv->Arr_0, rest),
            arr_scan_inv(tv, i as int, pos as int, acc@),
        decreases tv.len() - pos,
    {
        let ghost n = acc@.len() as int;
        if pos >= tlen {
            proof {
                assert forall|jv: JVal, rest: Seq<char>|
                    #[trigger] value_claim(tv, i as int, None::<(Json, usize)>, jv, rest) by {
                    if wf_jval(jv) && region_matches(tv, i as int, jv, rest) && int_boundary(
                        jv,
                        rest,
                    ) {
                        let elems = jv->Arr_0;
                        assert(arr_match(tv, i as int, elems, rest));
                        assert((ser_after(elems, n) + seq![']'] + rest).len() > 0);
                        assert(tv.subrange(pos as int, tv.len() as int).len() == 0);
                    }
                }
            }
            return None;
        }
        let c = t[pos];
        if c == ']' {
            let out = (Json::Arr(acc), pos + 1);
            proof {
                assert forall|jv: JVal, rest: Seq<char>|
                    #[trigger] value_claim(tv, i as int, Some(out), jv, rest) by {
                    if wf_jval(jv) && region_matches(tv, i as int, jv, rest) && int_boundary(
                        jv,
                        rest,
                    ) {
                        let elems = jv->Arr_0;
                        assert(arr_match(tv, i as int, elems, rest));
                        let region = tv.subrange(pos as int, tv.len() as int);
                        assert(region[0] == tv[pos as int]);
                        lemma_ser_after_head(elems, n);
                        if n < elems.len() {
                            if n == 0 {
                                lemma_ser_head(elems[0]);
                                assert(region[0] == (ser_after(elems, n) + seq![']'] + rest)[0]);
                                assert(false);
                            } else {
                                assert(region[0] == (ser_after(elems, n) + seq![']'] + rest)[0]);
                                assert(false);
                            }
                        }
                        assert(n == elems.len());
                        assert(jview_list(acc@) == elems.take(n));
                        assert(elems.take(n) =~= elems);
                        assert(out.0@ == JVal::Arr(elems));
                        assert(region.len() == ser_after(elems, n).len() + 1 + rest.len());
                        lemma_region_chars(tv, i as int, jv, rest);
                        assert(out.1 == i + ser_jval(jv).len());
                    }
                }
            }
            return Some(out);
        }
        let mut at = pos;
        if acc.len() > 0 {
            if c != ',' {
                proof {
                    assert forall|jv: JVal, rest: Seq<char>|
                        #[trigger] value_claim(tv, i as int, None::<(Json, usize)>, jv, rest) by {
                        if wf_jval(jv) && region_matches(tv, i as int, jv, rest) && int_boundary(
                            jv,
                            rest,
                        ) {
                            let elems = jv->Arr_0;
                            assert(arr_match(tv, i as int, elems, rest));
                            let region = tv.subrange(pos as int, tv.len() as int);
                            assert(region[0] == tv[pos as int]);
                            lemma_ser_after_head(elems, n);
                            assert(region[0] == (ser_after(elems, n) + seq![']'] + rest)[0]);
                            if n == elems.len() {
                                assert(region[0] == ']');
                            }
                        }
                    }
                }
                return None;
            }
            at = skip_ws(t, pos + 1);
        }
        proof {
            assert forall|elems: Seq<JVal>, rest: Seq<char>|
                #[trigger] arr_match(tv, i as int, elems, rest) implies {
                &&& n < elems.len()
                &&& tv.subrange(at as int, tv.len() as int) == ser_jval(elems[n]) + (ser_after(
                    elems,
                    n + 1,
                ) + seq![']'] + rest)
            } by {
                let region = tv.subrange(pos as int, tv.len() as int);
                assert(region[0] == tv[pos as int]);
                lemma_ser_after_head(elems, n);
                assert(region[0] == (ser_after(elems, n) + seq![']'] + rest)[0]);
                if n == elems.len() {
                    assert(region[0] == ']');
                    assert(false);
                }
                lemma_elems_split(elems, n);
                lemma_head_not_ws(elems[n]);
                if n == 0 {
                    assert(region =~= (Seq::<char>::empty() + ser_jval(elems[0]) + ser_after(
                        elems,
                        1,
                    )) + seq![']'] + rest);
                    assert(region =~= ser_jval(elems[0]) + (ser_after(elems, 1) + seq![']']
                        + rest));
                    assert(at == pos) by {
                        if at > pos {
                            assert(is_ws_char(tv[pos as int]));
                            assert(tv[pos as int] == region[0]);
                            assert(region[0] == ser_jval(elems[0])[0]);
                        }
                    }
                } else {
                    assert(region =~= (seq![','] + ser_jval(elems[n]) + ser_after(elems, n + 1))
                        + seq![']'] + rest);
                    assert(tv.subrange(pos + 1, tv.len() as int) =~= region.skip(1));
                    assert(region.skip(1) =~= ser_jval(elems[n]) + (ser_after(elems, n + 1)
                        + seq![']'] + rest));
                    assert(tv[pos + 1] == region.skip(1)[0]);
                    assert(region.skip(1)[0] == ser_jval(elems[n])[0]);
                    assert(!is_ws_char(tv[pos + 1]));
                    assert(at == pos + 1) by {
                        if at > pos + 1 {
                            assert(is_ws_char(tv[pos + 1]));
                        }
                    }
                }
            }
        }
        match parse_value(t, at) {
            Some(p) => {
                let (w, j) = p;
                proof {
                    lemma_arr_elem(tv, i as int, at as int, acc@, w, j);
                }
                acc.push(w);
                let j2 = skip_ws(t, j);
                proof {
                    assert forall|elems: Seq<JVal>, rest: Seq<char>|
                        #[trigger] arr_match(tv, i as int, elems, rest) implies {
                        &&& acc@.len() <= elems.len()
                        &&& jview_list(acc@) == elems.take(acc@.len() as int)
                        &&& tv.subrange(j2 as int, tv.len() as int) == ser_after(
                            elems,
                            acc@.len() as int,
                        ) + seq![']'] + rest
                    } by {
                        let n2 = acc@.len() as int;
                        lemma_ser_after_head(elems, n2);
                        let region = tv.subrange(j as int, tv.len() as int);
                        assert(region == ser_after(elems, n2) + seq![']'] + rest);
                        assert(region[0] == tv[j as int]);
                        assert(!is_ws_char(tv[j as int])) by {
                            if n2 == elems.len() {
                                assert(region[0] == ']');
                            } else {
                                assert(region[0] == ',');
                            }
                        }
                        assert(j2 == j) by {
                            if j2 > j {
                                assert(is_ws_char(tv[j as int]));
                            }
                        }
                    }
                }
                pos = j2;
            },
            None => {
                proof {
                    assert forall|jv: JVal, rest: Seq<char>|
                        #[trigger] value_claim(tv, i as int, None::<(Json, usize)>, jv, rest) by {
                        if wf_jval(jv) && region_matches(tv, i as int, jv, rest) && int_boundary(
                            jv,
                            rest,
                        ) {
                            let elems = jv->Arr_0;
                            assert(arr_match(tv, i as int, elems, rest));
                            lemma_arr_elem_ctx(tv, i as int, at as int, acc@, elems, rest);
                            let n2 = acc@.len() as int;
                            assert(value_claim(
                                tv,
                                at as int,
                                None::<(Json, usize)>,
                                elems[n2],
                                ser_after(elems, n2 + 1) + seq![']'] + rest,
                            ));
                        }
                    }
                }
                return None;
            },
        }
    }
}

/// After leading whitespace, the array scan state holds at the new cursor.
proof fn lemma_arr_skip(tv: Seq<char>, i: int, from: int, to: int, accs: Seq<Json>)
    requires
        0 <= i < from <= to <= tv.len(),
        accs.len() == 0,
        forall|m: int| from <= m < to ==> is_ws_char(#[trigger] tv[m]),
        forall|elems: Seq<JVal>, rest: Seq<char>|
            #[trigger] arr_match(tv, i, elems, rest) ==> tv.subrange(from, tv.len() as int)
                == ser_after(elems, 0) + seq![']'] + rest,
    ensures
        arr_scan_inv(tv, i, to, accs),
{
    assert forall|elems: Seq<JVal>, rest: Seq<char>|
        #[trigger] arr_match(tv, i, elems, rest) implies {
        &&& accs.len() <= elems.len()
        &&& jview_list(accs) == elems.take(accs.len() as int)
        &&& tv.subrange(to, tv.len() as int) == ser_after(elems, accs.len() as int) + seq![']']
            + rest
    } by {
        assert(jview_list(accs) =~= elems.take(0));
        assert(to == from) by {
            if to > from {
                lemma_ser_after_head(elems, 0);
                let region = tv.subrange(from, tv.len() as int);
                assert(region[0] == tv[from]);
                assert(region[0] == (ser_after(elems, 0) + seq![']'] + rest)[0]);
                if elems.len() == 0 {
                    assert(region[0] == ']');
                    assert(!is_ws_char(']'));
                } else {
                    lemma_head_not_ws(elems[0]);
                }
                assert(is_ws_char(tv[from]));
                assert(false);
            }
        }
    }
}

/// A parsed element extends the array scan state by one slot.
proof fn lemma_arr_elem(tv: Seq<char>, i: int, at: int, accs: Seq<Json>, w: Json, j: usize)
    requires
        0 <= i < at <= tv.len(),
        forall|elems: Seq<JVal>, rest: Seq<char>|
            #[trigger] arr_match(tv, i, elems, rest) ==> {
                &&& (accs.len() as int) < elems.len()
                &&& jview_list(accs) == elems.take(accs.len() as int)
                &&& tv.subrange(at, tv.len() as int) == ser_jval(elems[accs.len() as int]) + (
                ser_after(elems, accs.len() as int + 1) + seq![']'] + rest)
            },
        forall|jv: JVal, rest2: Seq<char>|
            #[trigger] value_claim(tv, at, Some((w, j)), jv, rest2),
    ensures
        arr_scan_inv(tv, i, j as int, accs.push(w)),
{
    assert forall|elems: Seq<JVal>, rest: Seq<char>|
        #[trigger] arr_match(tv, i, elems, rest) implies {
        &&& accs.push(w).len() <= elems.len()
        &&& jview_list(accs.push(w)) == elems.take(accs.push(w).len() as int)
        &&& tv.subrange(j as int, tv.len() as int) == ser_after(elems, accs.push(w).len() as int)
            + seq![']'] + rest
    } by {
        let n = accs.len() as int;
        let rest2 = ser_after(elems, n + 1) + seq![']'] + rest;
        assert(wf_jval(JVal::Arr(elems)));
        lemma_wf_list_index(elems, n);
        assert(region_matches(tv, at, elems[n], rest2));
        assert(int_boundary(elems[n], rest2)) by {
            lemma_ser_after_head(elems, n + 1);
            if n + 1 == elems.len() {
                assert(rest2[0] == ']');
            } else {
                assert(rest2[0] == ',');
            }
            assert(!is_dec_digit(rest2[0]));
        }
        assert(value_claim(tv, at, Some((w, j)), elems[n], rest2));
        assert(w@ == elems[n]);
        assert(j == at + ser_jval(elems[n]).len());
        lemma_jview_list_snoc(accs, w);
        assert(elems.take(n).push(elems[n]) =~= elems.take(n + 1));
        let old_region = tv.subrange(at, tv.len() as int);
        assert(tv.subrange(j as int, tv.len() as int) =~= old_region.skip(
            ser_jval(elems[n]).len() as int,
        ));
        assert(old_region.skip(ser_jval(elems[n]).len() as int) =~= rest2);
        assert(ser_after(elems, n + 1) + seq![']'] + rest =~= (ser_after(elems, n + 1) + seq![']'])
            + rest);
    }
}

/// The next element of a matching array stands at `at`.
proof fn lemma_arr_elem_ctx(
    tv: Seq<char>,
    i: int,
    at: int,
    accs: Seq<Json>,
    elems: Seq<JVal>,
    rest: Seq<char>,
)
    requires
        0 <= i < at <= tv.len(),
        arr_match(tv, i, elems, rest),
        forall|elems2: Seq<JVal>, rest2: Seq<char>|
            #[trigger] arr_match(tv, i, elems2, rest2) ==> {
                &&& (accs.len() as int) < elems2.len()
                &&& tv.subrange(at, tv.len() as int) == ser_jval(elems2[accs.len() as int]) + (
                ser_after(elems2, accs.len() as int + 1) + seq![']'] + rest2)
            },
    ensures
        (accs.len() as int) < elems.len(),
        wf_jval(elems[accs.len() as int]),
        region_matches(tv, at, elems[accs.len() as int], ser_after(elems, accs.len() as int + 1)
            + seq![']'] + rest),
        int_boundary(elems[accs.len() as int], ser_after(elems, accs.len() as int + 1) + seq![']']
            + rest),
{
    let n = accs.len() as int;
    let rest2 = ser_after(elems, n + 1) + seq![']'] + rest;
    lemma_wf_list_index(elems, n);
    assert(region_matches(tv, at, elems[n], rest2));
    assert(int_boundary(elems[n], rest2)) by {
        lemma_ser_after_head(elems, n + 1);
        if n + 1 == elems.len() {
            assert(rest2[0] == ']');
        } else {
            assert(rest2[0] == ',');
        }
        assert(!is_dec_digit(rest2[0]));
    }
}

/// The scan state of an object: `accs` members parsed, cursor at `pos`
/// where the rest of the member list begins.
pub open spec fn obj_scan_inv(t: Seq<char>, i: int, pos: int, accs: Seq<(String, Json)>) -> bool {
    forall|fields: Seq<(Seq<char>, JVal)>, rest: Seq<char>|
        #[trigger] obj_match(t, i, fields, rest) ==> {
            &&& accs.len() <= fields.len()
            &&& jview_fields(accs) == fields.take(accs.len() as int)
            &&& t.subrange(pos, t.len() as int) == ser_fields_after(fields, accs.len() as int)
                + seq!['}'] + rest
        }
}

/// Parses an object at `i` (the opening brace).
#[verifier::rlimit(100)]
fn parse_obj(t: &Vec<char>, i: usize) -> (r: Option<(Json, usize)>)
    requires
        i < t@.len(),
        t@[i as int] == '{',
    ensures
        r matches Some(p) ==> i < p.1 <= t@.len(),
        forall|jv: JVal, rest: Seq<char>| #[trigger] value_claim(t@, i as int, r, jv, rest),
    decreases t@.len() - i, 0int,
{
    let ghost tv = t@;
    let tlen = t.len();
    proof {
        assert forall|jv: JVal, rest: Seq<char>|
            (wf_jval(jv) && region_matches(tv, i as int, jv, rest) && int_boundary(jv, rest))
            implies jv is Obj && obj_match(tv, i as int, jv->Obj_0, rest) by {
            lemma_ser_head(jv);
            lemma_region_chars(tv, i as int, jv, rest);
            match jv {
                JVal::Int(n) => {
                    assert(!is_dec_digit('{'));
                    assert(false);
                },
                JVal::Obj(_) => {},
                _ => {
                    assert(false);
                },
            }
        }
        assert forall|fields: Seq<(Seq<char>, JVal)>, rest: Seq<char>|
            #[trigger] obj_match(tv, i as int, fields, rest) implies tv.subrange(
            i + 1,
            tv.len() as int,
        ) == ser_fields_after(fields, 0) + seq!['}'] + rest by {
            let region = tv.subrange(i as int, tv.len() as int);
            assert(region == ((seq!['{'] + ser_members(fields)) + seq!['}']) + rest);
            assert(tv.subrange(i + 1, tv.len() as int) =~= region.skip(1));
            assert(region.skip(1) =~= ser_members(fields) + seq!['}'] + rest);
        }
    }
    let mut acc: Vec<(String, Json)> = Vec::new();
    let mut pos = skip_ws(t, i + 1);
    proof {
        lemma_obj_skip(tv, i as int, i + 1, pos as int, acc@);
    }
    loop
        invariant
            tv == t@,
            tlen == tv.len(),
            i < pos <= tlen,
            forall|jv: JVal, rest: Seq<char>|
                (wf_jval(jv) && region_matches(tv, i as int, jv, rest) && int_boundary(jv, rest))
                    ==> jv is Obj && obj_match(tv, i as int, jv->Obj_0, rest),
            obj_scan_inv(tv, i as int, pos as int, acc@),
        decreases tv.len() - pos,
    {
        let ghost n = acc@.len() as int;
        if pos >= tlen {
            proof {
                assert forall|jv: JVal, rest: Seq<char>|
                    #[trigger] value_claim(tv, i as int, None::<(Json, usize)>, jv, rest) by {
                    if wf_jval(jv) && region_matches(tv, i as int, jv, rest) && int_boundary(
                        jv,
                        rest,
                    ) {
                        let fields = jv->Obj_0;
                        assert(obj_match(tv, i as int, fields, rest));
                        assert((ser_fields_after(fields, n) + seq!['}'] + rest).len() > 0);
                        assert(tv.subrange(pos as int, tv.len() as int).len() == 0);
                    }
                }
            }
            return None;
        }
        let c = t[pos];
        if c == '}' {
            let out = (Json::Obj(acc), pos + 1);
            proof {
                assert forall|jv: JVal, rest: Seq<char>|
                    #[trigger] value_claim(tv, i as int, Some(out), jv, rest) by {
                    if wf_jval(jv) && region_matches(tv, i as int, jv, rest) && int_boundary(
                        jv,
                        rest,
                    ) {
                        let fields = jv->Obj_0;
                        assert(obj_match(tv, i as int, fields, rest));
                        let region = tv.subrange(pos as int, tv.len() as int);
                        assert(region[0] == tv[pos as int]);
                        lemma_ser_fields_after_head(fields, n);
                        if n < fields.len() {
                            assert(region[0] == (ser_fields_after(fields, n) + seq!['}']
                                + rest)[0]);
                            assert(false);
                        }
                        assert(n == fields.len());
                        assert(jview_fields(acc@) == fields.take(n));
                        assert(fields.take(n) =~= fields);
                        assert(out.0@ == JVal::Obj(fields));
                        assert(region.len() == ser_fields_after(fields, n).len() + 1 + rest.len());
                        lemma_region_chars(tv, i as int, jv, rest);
                        assert(out.1 == i + ser_jval(jv).len());
                    }
                }
            }
            return Some(out);
        }
        let mut at = pos;
        if acc.len() > 0 {
            if c != ',' {
                proof {
                    assert forall|jv: JVal, rest: Seq<char>|
                        #[trigger] value_claim(tv, i as int, None::<(Json, usize)>, jv, rest) by {
                        if wf_jval(jv) && region_matches(tv, i as int, jv, rest) && int_boundary(
                            jv,
                            rest,
                        ) {
                            let fields = jv->Obj_0;
                            assert(obj_match(tv, i as int, fields, rest));
                            let region = tv.subrange(pos as int, tv.len() as int);
                            assert(region[0] == tv[pos as int]);
                            lemma_ser_fields_after_head(fields, n);
                            assert(region[0] == (ser_fields_after(fields, n) + seq!['}']
                                + rest)[0]);
                            if n == fields.len() {
                                assert(region[0] == '}');
                            }
                        }
                    }
                }
                return None;
            }
            at = skip_ws(t, pos + 1);
        }
        proof {
            assert forall|fields: Seq<(Seq<char>, JVal)>, rest: Seq<char>|
                #[trigger] obj_match(tv, i as int, fields, rest) implies {
                &&& n < fields.len()
                &&& tv.subrange(at as int, tv.len() as int) == seq!['"'] + (ser_str_chars(
                    fields[n].0,
                ) + seq!['"'] + (seq![':'] + ser_jval(fields[n].1) + (ser_fields_after(
                    fields,
                    n + 1,
                ) + seq!['}'] + rest)))
            } by {
                let region = tv.subrange(pos as int, tv.len() as int);
                assert(region[0] == tv[pos as int]);
                lemma_ser_fields_after_head(fields, n);
                assert(region[0] == (ser_fields_after(fields, n) + seq!['}'] + rest)[0]);
                if n == fields.len() {
                    assert(region[0] == '}');
                    assert(false);
                }
                lemma_members_split(fields, n);
                let member = seq!['"'] + (ser_str_chars(fields[n].0) + seq!['"'] + (seq![':']
                    + ser_jval(fields[n].1) + (ser_fields_after(fields, n + 1) + seq!['}']
                    + rest)));
                if n == 0 {
                    assert(region =~= (Seq::<char>::empty() + seq!['"'] + ser_str_chars(
                        fields[0].0,
                    ) + seq!['"', ':'] + ser_jval(fields[0].1) + ser_fields_after(fields, 1))
                        + seq!['}'] + rest);
                    assert(region =~= member);
                    assert(at == pos) by {
                        if at > pos {
                            assert(is_ws_char(tv[pos as int]));
                            assert(tv[pos as int] == region[0]);
                            assert(region[0] == '"');
                        }
                    }
                } else {
                    assert(region =~= (seq![','] + seq!['"'] + ser_str_chars(fields[n].0) + seq![
                        '"',
                        ':',
                    ] + ser_jval(fields[n].1) + ser_fields_after(fields, n + 1)) + seq!['}']
                        + rest);
                    assert(tv.subrange(pos + 1, tv.len() as int) =~= region.skip(1));
                    assert(region.skip(1) =~= member);
                    assert(tv[pos + 1] == region.skip(1)[0]);
                    assert(region.skip(1)[0] == '"');
                    assert(!is_ws_char('"'));
                    assert(at == pos + 1) by {
                        if at > pos + 1 {
                            assert(is_ws_char(tv[pos + 1]));
                        }
                    }
                }
            }
        }
        if at >= tlen || !(t[at] == '"') {
            proof {
                assert forall|jv: JVal, rest: Seq<char>|
                    #[trigger] value_claim(tv, i as int, None::<(Json, usize)>, jv, rest) by {
                    if wf_jval(jv) && region_matches(tv, i as int, jv, rest) && int_boundary(
                        jv,
                        rest,
                    ) {
                        let fields = jv->Obj_0;
                        assert(obj_match(tv, i as int, fields, rest));
                        let region = tv.subrange(at as int, tv.len() as int);
                        assert(region.len() > 0);
                        assert(region[0] == '"');
                        assert(tv[at as int] == region[0]);
                    }
                }
            }
            return None;
        }
        proof {
            assert forall|fields: Seq<(Seq<char>, JVal)>, rest: Seq<char>|
                #[trigger] obj_match(tv, i as int, fields, rest) implies str_region_matches(
                tv,
                at + 1,
                fields[n].0,
                seq![':'] + ser_jval(fields[n].1) + (ser_fields_after(fields, n + 1) + seq!['}']
                    + rest),
            ) && n < fields.len() by {
                let region = tv.subrange(at as int, tv.len() as int);
                assert(tv.subrange(at + 1, tv.len() as int) =~= region.skip(1));
                assert(region.skip(1) =~= ser_str_chars(fields[n].0) + seq!['"'] + (seq![':']
                    + ser_jval(fields[n].1) + (ser_fields_after(fields, n + 1) + seq!['}']
                    + rest)));
            }
        }
        let key = match parse_str_body(t, at + 1) {
            Some(kp) => kp,
            None => {
                proof {
                    assert forall|jv: JVal, rest: Seq<char>|
                        #[trigger] value_claim(tv, i as int, None::<(Json, usize)>, jv, rest) by {
                        if wf_jval(jv) && region_matches(tv, i as int, jv, rest) && int_boundary(
                            jv,
                            rest,
                        ) {
                            let fields = jv->Obj_0;
                            assert(obj_match(tv, i as int, fields, rest));
                            assert(str_claim(
                                tv,
                                at + 1,
                                None::<(Vec<char>, usize)>,
                                fields[n].0,
                                seq![':'] + ser_jval(fields[n].1) + (ser_fields_after(fields, n + 1)
                                    + seq!['}'] + rest),
                            ));
                        }
                    }
                }
                return None;
            },
        };
        let (kcs, kend) = key;
        let ghost krest = |fields: Seq<(Seq<char>, JVal)>, rest: Seq<char>|
            seq![':'] + ser_jval(fields[n].1) + (ser_fields_after(fields, n + 1) + seq!['}']
                + rest);
        proof {
            assert forall|fields: Seq<(Seq<char>, JVal)>, rest: Seq<char>|
                #[trigger] obj_match(tv, i as int, fields, rest) implies {
                &&& kcs@ == fields[n].0
                &&& tv.subrange(kend as int, tv.len() as int) == krest(fields, rest)
            } by {
                assert(str_claim(tv, at + 1, Some((kcs, kend)), fields[n].0, krest(fields, rest)));
                let sr = tv.subrange(at + 1, tv.len() as int);
                assert(sr == ser_str_chars(fields[n].0) + seq!['"'] + krest(fields, rest));
                assert(tv.subrange(kend as int, tv.len() as int) =~= sr.skip(
                    ser_str_chars(fields[n].0).len() as int + 1,
                ));
                assert(sr.skip(ser_str_chars(fields[n].0).len() as int + 1) =~= krest(fields, rest));
            }
        }
        let colon = skip_ws(t, kend);
        if colon >= tlen || !(t[colon] == ':') {
            proof {
                assert forall|jv: JVal, rest: Seq<char>|
                    #[trigger] value_claim(tv, i as int, None::<(Json, usize)>, jv, rest) by {
                    if wf_jval(jv) && region_matches(tv, i as int, jv, rest) && int_boundary(
                        jv,
                        rest,
                    ) {
                        let fields = jv->Obj_0;
                        assert(obj_match(tv, i as int, fields, rest));
                        let kr = tv.subrange(kend as int, tv.len() as int);
                        assert(kr == krest(fields, rest));
                        assert(kr[0] == ':');
                        assert(tv[kend as int] == kr[0]);
                        assert(colon == kend) by {
                            if colon > kend {
                                assert(is_ws_char(tv[kend as int]));
                            }
                        }
                    }
                }
            }
            return None;
        }
        let vat = skip_ws(t, colon + 1);
        proof {
            assert forall|fields: Seq<(Seq<char>, JVal)>, rest: Seq<char>|
                #[trigger] obj_match(tv, i as int, fields, rest) implies {
                &&& tv.subrange(vat as int, tv.len() as int) == ser_jval(fields[n].1) + (
                ser_fields_after(fields, n + 1) + seq!['}'] + rest)
                &&& colon == kend
            } by {
                let kr = tv.subrange(kend as int, tv.len() as int);
                assert(kr == krest(fields, rest));
                assert(kr[0] == ':');
                assert(tv[kend as int] == kr[0]);
                assert(colon == kend) by {
                    if colon > kend {
                        assert(is_ws_char(tv[kend as int]));
                    }
                }
                assert(tv.subrange(colon + 1, tv.len() as int) =~= kr.skip(1));
                assert(kr.skip(1) =~= ser_jval(fields[n].1) + (ser_fields_after(fields, n + 1)
                    + seq!['}'] + rest));
                lemma_head_not_ws(fields[n].1);
                assert(tv[colon + 1] == kr.skip(1)[0]);
                assert(kr.skip(1)[0] == ser_jval(fields[n].1)[0]);
                assert(vat == colon + 1) by {
                    if vat > colon + 1 {
                        assert(is_ws_char(tv[colon + 1]));
                    }
                }
            }
        }
        match parse_value(t, vat) {
            Some(p) => {
                let (w, j) = p;
                let ks = crate::strutil::string_of(&kcs);
                proof {
                    lemma_obj_member(tv, i as int, vat as int, acc@, (ks, w), kcs@, j);
                }
                acc.push((ks, w));
                let j2 = skip_ws(t, j);
                proof {
                    assert forall|fields: Seq<(Seq<char>, JVal)>, rest: Seq<char>|
                        #[trigger] obj_match(tv, i as int, fields, rest) implies {
                        &&& acc@.len() <= fields.len()
                        &&& jview_fields(acc@) == fields.take(acc@.len() as int)
                        &&& tv.subrange(j2 as int, tv.len() as int) == ser_fields_after(
                            fields,
                            acc@.len() as int,
                        ) + seq!['}'] + rest
                    } by {
                        let n2 = acc@.len() as int;
                        lemma_ser_fields_after_head(fields, n2);
                        let region = tv.subrange(j as int, tv.len() as int);
                        assert(region == ser_fields_after(fields, n2) + seq!['}'] + rest);
                        assert(region[0] == tv[j as int]);
                        assert(!is_ws_char(tv[j as int])) by {
                            if n2 == fields.len() {
                                assert(region[0] == '}');
                            } else {
                                assert(region[0] == ',');
                            }
                        }
                        assert(j2 == j) by {
                            if j2 > j {
                                assert(is_ws_char(tv[j as int]));
                            }
                        }
                    }
                }
                pos = j2;
            },
            None => {
                proof {
                    assert forall|jv: JVal, rest: Seq<char>|
                        #[trigger] value_claim(tv, i as int, None::<(Json, usize)>, jv, rest) by {
                        if wf_jval(jv) && region_matches(tv, i as int, jv, rest) && int_boundary(
                            jv,
                            rest,
                        ) {
                            let fields = jv->Obj_0;
                            assert(obj_match(tv, i as int, fields, rest));
                            lemma_obj_member_ctx(tv, i as int, vat as int, acc@, fields, rest);
                            let n2 = acc@.len() as int;
                            assert(value_claim(
                                tv,
                                vat as int,
                                None::<(Json, usize)>,
                                fields[n2].1,
                                ser_fields_after(fields, n2 + 1) + seq!['}'] + rest,
                            ));
                        }
                    }
                }
                return None;
            },
        }
    }
}

/// After leading whitespace, the object scan state holds at the new cursor.
proof fn lemma_obj_skip(tv: Seq<char>, i: int, from: int, to: int, accs: Seq<(String, Json)>)
    requires
        0 <= i < from <= to <= tv.len(),
        accs.len() == 0,
        forall|m: int| from <= m < to ==> is_ws_char(#[trigger] tv[m]),
        forall|fields: Seq<(Seq<char>, JVal)>, rest: Seq<char>|
            #[trigger] obj_match(tv, i, fields, rest) ==> tv.subrange(from, tv.len() as int)
                == ser_fields_after(fields, 0) + seq!['}'] + rest,
    ensures
        obj_scan_inv(tv, i, to, accs),
{
    assert forall|fields: Seq<(Seq<char>, JVal)>, rest: Seq<char>|
        #[trigger] obj_match(tv, i, fields, rest) implies {
        &&& accs.len() <= fields.len()
        &&& jview_fields(accs) == fields.take(accs.len() as int)
        &&& tv.subrange(to, tv.len() as int) == ser_fields_after(fields, accs.len() as int)
            + seq!['}'] + rest
    } by {
        assert(jview_fields(accs) =~= fields.take(0));
        assert(to == from) by {
            if to > from {
                lemma_ser_fields_after_head(fields, 0);
                let region = tv.subrange(from, tv.len() as int);
                assert(region[0] == tv[from]);
                assert(region[0] == (ser_fields_after(fields, 0) + seq!['}'] + rest)[0]);
                if fields.len() == 0 {
                    assert(region[0] == '}');
                    assert(!is_ws_char('}'));
                } else {
                    assert(region[0] == '"');
                    assert(!is_ws_char('"'));
                }
                assert(is_ws_char(tv[from]));
                assert(false);
            }
        }
    }
}

/// A parsed member extends the object scan state by one slot.
proof fn lemma_obj_member(
    tv: Seq<char>,
    i: int,
    at: int,
    accs: Seq<(String, Json)>,
    m: (String, Json),
    kview: Seq<char>,
    j: usize,
)
    requires
        0 <= i < at <= tv.len(),
        m.0@ == kview,
        forall|fields: Seq<(Seq<char>, JVal)>, rest: Seq<char>|
            #[trigger] obj_match(tv, i, fields, rest) ==> {
                &&& (accs.len() as int) < fields.len()
                &&& jview_fields(accs) == fields.take(accs.len() as int)
                &&& kview == fields[accs.len() as int].0
                &&& tv.subrange(at, tv.len() as int) == ser_jval(fields[accs.len() as int].1) + (
                ser_fields_after(fields, accs.len() as int + 1) + seq!['}'] + rest)
            },
        forall|jv: JVal, rest2: Seq<char>|
            #[trigger] value_claim(tv, at, Some((m.1, j)), jv, rest2),
    ensures
        obj_scan_inv(tv, i, j as int, accs.push(m)),
{
    assert forall|fields: Seq<(Seq<char>, JVal)>, rest: Seq<char>|
        #[trigger] obj_match(tv, i, fields, rest) implies {
        &&& accs.push(m).len() <= fields.len()
        &&& jview_fields(accs.push(m)) == fields.take(accs.push(m).len() as int)
        &&& tv.subrange(j as int, tv.len() as int) == ser_fields_after(
            fields,
            accs.push(m).len() as int,
        ) + seq!['}'] + rest
    } by {
        let n = accs.len() as int;
        let rest2 = ser_fields_after(fields, n + 1) + seq!['}'] + rest;
        assert(wf_jval(JVal::Obj(fields)));
        lemma_wf_fields_index(fields, n);
        assert(region_matches(tv, at, fields[n].1, rest2));
        assert(int_boundary(fields[n].1, rest2)) by {
            lemma_ser_fields_after_head(fields, n + 1);
            if n + 1 == fields.len() {
                assert(rest2[0] == '}');
            } else {
                assert(rest2[0] == ',');
            }
            assert(!is_dec_digit(rest2[0]));
        }
        assert(value_claim(tv, at, Some((m.1, j)), fields[n].1, rest2));
        assert(m.1@ == fields[n].1);
        assert(j == at + ser_jval(fields[n].1).len());
        lemma_jview_fields_snoc(accs, m);
        assert((m.0@, jview(m.1)) == fields[n]);
        assert(fields.take(n).push(fields[n]) =~= fields.take(n + 1));
        let old_region = tv.subrange(at, tv.len() as int);
        assert(tv.subrange(j as int, tv.len() as int) =~= old_region.skip(
            ser_jval(fields[n].1).len() as int,
        ));
        assert(old_region.skip(ser_jval(fields[n].1).len() as int) =~= rest2);
        assert(ser_fields_after(fields, n + 1) + seq!['}'] + rest =~= (ser_fields_after(
            fields,
            n + 1,
        ) + seq!['}']) + rest);
    }
}

/// The next member value of a matching object stands at `at`.
proof fn lemma_obj_member_ctx(
    tv: Seq<char>,
    i: int,
    at: int,
    accs: Seq<(String, Json)>,
    fields: Seq<(Seq<char>, JVal)>,
    rest: Seq<char>,
)
    requires
        0 <= i < at <= tv.len(),
        obj_match(tv, i, fields, rest),
        forall|fields2: Seq<(Seq<char>, JVal)>, rest2: Seq<char>|
            #[trigger] obj_match(tv, i, fields2, rest2) ==> {
                &&& (accs.len() as int) < fields2.len()
                &&& tv.subrange(at, tv.len() as int) == ser_jval(fields2[accs.len() as int].1) + (
                ser_fields_after(fields2, accs.len() as int + 1) + seq!['}'] + rest2)
            },
    ensures
        (accs.len() as int) < fields.len(),
        wf_jval(fields[accs.len() as int].1),
        region_matches(tv, at, fields[accs.len() as int].1, ser_fields_after(fields, accs.len() as int + 1) + seq!['}'] + rest),
        int_boundary(fields[accs.len() as int].1, ser_fields_after(fields, accs.len() as int + 1)
            + seq!['}'] + rest),
{
    let n = accs.len() as int;
    let rest2 = ser_fields_after(fields, n + 1) + seq!['}'] + rest;
    lemma_wf_fields_index(fields, n);
    assert(region_matches(tv, at, fields[n].1, rest2));
    assert(int_boundary(fields[n].1, rest2)) by {
        lemma_ser_fields_after_head(fields, n + 1);
        if n + 1 == fields.len() {
            assert(rest2[0] == '}');
        } else {
            assert(rest2[0] == ',');
        }
        assert(!is_dec_digit(rest2[0]));
    }
}

/// Parses a complete JSON document: one value, possibly surrounded by
/// whitespace, spanning the whole text.
pub fn parse_json_text(s: &str) -> (r: Option<Json>)
    ensures
        forall|jv: JVal|
            (wf_jval(jv) && s@ == #[trigger] ser_jval(jv)) ==> (r matches Some(v) && v@ == jv),
{
    let t = crate::strutil::chars_of(s);
    let ghost tv = t@;
    let k = skip_ws(&t, 0);
    proof {
        assert forall|jv: JVal| (wf_jval(jv) && tv == #[trigger] ser_jval(jv)) implies {
            &&& k == 0
            &&& region_matches(tv, 0, jv, Seq::<char>::empty())
            &&& int_boundary(jv, Seq::<char>::empty())
        } by {
            lemma_head_not_ws(jv);
            assert(k == 0) by {
                if k > 0 {
                    assert(is_ws_char(tv[0]));
                    assert(tv[0] == ser_jval(jv)[0]);
                }
            }
            assert(tv.subrange(0, tv.len() as int) =~= ser_jval(jv) + Seq::<char>::empty());
        }
    }
    match parse_value(&t, k) {
        Some(p) => {
            let (v, j) = p;
            let j2 = skip_ws(&t, j);
            if j2 == t.len() {
                proof {
                    assert forall|jv: JVal| (wf_jval(jv) && tv == #[trigger] ser_jval(jv)) implies
                        v@ == jv by {
                        assert(value_claim(tv, 0, Some((v, j)), jv, Seq::<char>::empty()));
                    }
                }
                Some(v)
            } else {
                proof {
                    assert forall|jv: JVal| (wf_jval(jv) && tv == #[trigger] ser_jval(jv)) implies
                        false by {
                        assert(value_claim(tv, 0, Some((v, j)), jv, Seq::<char>::empty()));
                        assert(j == ser_jval(jv).len());
                        assert(j == tv.len());
                    }
                }
                None
            }
        },
        None => {
            proof {
                assert forall|jv: JVal| (wf_jval(jv) && tv == #[trigger] ser_jval(jv)) implies
                    false by {
                    assert(value_claim(tv, 0, None::<(Json, usize)>, jv, Seq::<char>::empty()));
                }
            }
            None
        },
    }
}

} // verus!
