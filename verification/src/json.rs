//! The JSON data model of the wire protocol: a tree of plain values with
//! a mathematical view, and a serializer producing the exact character
//! sequence given by the `ser_*` specification functions.

use vstd::prelude::*;
use crate::strutil::chars_of;
use crate::strutil::string_of;

verus! {

/// A JSON value. Numbers are restricted to signed 64-bit integers, which
/// covers every numeric field of the protocol (ids, positions, severities,
/// completion kinds); a fractional or out-of-range number on the wire is
/// rejected as malformed.
#[derive(Debug, PartialEq)]
pub enum Json {
    Null,
    Bool(bool),
    Int(i64),
    Str(String),
    Arr(Vec<Json>),
    Obj(Vec<(String, Json)>),
}

/// The mathematical value of a [`Json`] tree.
#[verifier::ext_equal]
pub enum JVal {
    Null,
    Bool(bool),
    Int(int),
    Str(Seq<char>),
    Arr(Seq<JVal>),
    Obj(Seq<(Seq<char>, JVal)>),
}

pub open spec fn jview(v: Json) -> JVal
    decreases v,
{
    match v {
        Json::Null => JVal::Null,
        Json::Bool(b) => JVal::Bool(b),
        Json::Int(n) => JVal::Int(n as int),
        Json::Str(s) => JVal::Str(s@),
        Json::Arr(items) => JVal::Arr(jview_list(items@)),
        Json::Obj(fields) => JVal::Obj(jview_fields(fields@)),
    }
}

pub open spec fn jview_list(items: Seq<Json>) -> Seq<JVal>
    decreases items,
{
    if items.len() == 0 {
        Seq::empty()
    } else {
        seq![jview(items[0])] + jview_list(items.drop_first())
    }
}

pub open spec fn jview_fields(fields: Seq<(String, Json)>) -> Seq<(Seq<char>, JVal)>
    decreases fields,
{
    if fields.len() == 0 {
        Seq::empty()
    } else {
        seq![(fields[0].0@, jview(fields[0].1))] + jview_fields(fields.drop_first())
    }
}

impl View for Json {
    type V = JVal;

    open spec fn view(&self) -> JVal {
        jview(*self)
    }
}

/// Integer values representable on the wire: the signed 64-bit range.
pub open spec fn wf_int(n: int) -> bool {
    -0x8000_0000_0000_0000 <= n <= 0x7fff_ffff_ffff_ffff
}

pub open spec fn wf_jval(v: JVal) -> bool
    decreases v,
{
    match v {
        JVal::Null => true,
        JVal::Bool(_) => true,
        JVal::Int(n) => wf_int(n),
        JVal::Str(_) => true,
        JVal::Arr(items) => wf_jval_list(items),
        JVal::Obj(fields) => wf_jval_fields(fields),
    }
}

pub open spec fn wf_jval_list(items: Seq<JVal>) -> bool
    decreases items,
{
    if items.len() == 0 {
        true
    } else {
        wf_jval(items[0]) && wf_jval_list(items.drop_first())
    }
}

pub open spec fn wf_jval_fields(fields: Seq<(Seq<char>, JVal)>) -> bool
    decreases fields,
{
    if fields.len() == 0 {
        true
    } else {
        wf_jval(fields[0].1) && wf_jval_fields(fields.drop_first())
    }
}

pub open spec fn is_ws_char(c: char) -> bool {
    c == ' ' || c == '\t' || c == '\n' || c == '\r'
}

pub open spec fn is_dec_digit(c: char) -> bool {
    '0' <= c && c <= '9'
}

pub open spec fn digit_char(n: nat) -> char {
    ((48 + n) as u32) as char
}

pub open spec fn hex_char(n: nat) -> char {
    if n < 10 {
        ((48 + n) as u32) as char
    } else {
        ((87 + n) as u32) as char
    }
}

/// How one character is written inside a JSON string literal.
pub open spec fn esc_char(c: char) -> Seq<char> {
    if c == '"' {
        seq!['\\', '"']
    } else if c == '\\' {
        seq!['\\', '\\']
    } else if (c as u32) < 32 {
        seq!['\\', 'u', '0', '0', hex_char((c as u32 / 16) as nat), hex_char(
            (c as u32 % 16) as nat,
        )]
    } else {
        seq![c]
    }
}

pub open spec fn ser_str_chars(s: Seq<char>) -> Seq<char>
    decreases s,
{
    if s.len() == 0 {
        Seq::empty()
    } else {
        esc_char(s[0]) + ser_str_chars(s.drop_first())
    }
}

pub open spec fn dec_digits(n: nat) -> Seq<char>
    decreases n,
{
    if n < 10 {
        seq![digit_char(n)]
    } else {
        dec_digits(n / 10).push(digit_char(n % 10))
    }
}

pub open spec fn ser_int(n: int) -> Seq<char> {
    if n < 0 {
        seq!['-'] + dec_digits((-n) as nat)
    } else {
        dec_digits(n as nat)
    }
}

/// The exact character sequence a value is serialized to.
pub open spec fn ser_jval(v: JVal) -> Seq<char>
    decreases v,
{
    match v {
        JVal::Null => seq!['n', 'u', 'l', 'l'],
        JVal::Bool(b) => if b {
            seq!['t', 'r', 'u', 'e']
        } else {
            seq!['f', 'a', 'l', 's', 'e']
        },
        JVal::Int(n) => ser_int(n),
        JVal::Str(s) => seq!['"'] + ser_str_chars(s) + seq!['"'],
        JVal::Arr(items) => seq!['['] + ser_elems(items) + seq![']'],
        JVal::Obj(fields) => seq!['{'] + ser_members(fields) + seq!['}'],
    }
}

pub open spec fn ser_elems(items: Seq<JVal>) -> Seq<char>
    decreases items, 1int,
{
    if items.len() == 0 {
        Seq::empty()
    } else {
        ser_jval(items[0]) + ser_elems_rest(items.drop_first())
    }
}

pub open spec fn ser_elems_rest(items: Seq<JVal>) -> Seq<char>
    decreases items, 0int,
{
    if items.len() == 0 {
        Seq::empty()
    } else {
        seq![','] + ser_jval(items[0]) + ser_elems_rest(items.drop_first())
    }
}

pub open spec fn ser_members(fields: Seq<(Seq<char>, JVal)>) -> Seq<char>
    decreases fields, 1int,
{
    if fields.len() == 0 {
        Seq::empty()
    } else {
        seq!['"'] + ser_str_chars(fields[0].0) + seq!['"', ':'] + ser_jval(fields[0].1)
            + ser_members_rest(fields.drop_first())
    }
}

pub open spec fn ser_members_rest(fields: Seq<(Seq<char>, JVal)>) -> Seq<char>
    decreases fields, 0int,
{
    if fields.len() == 0 {
        Seq::empty()
    } else {
        seq![','] + seq!['"'] + ser_str_chars(fields[0].0) + seq!['"', ':'] + ser_jval(
            fields[0].1,
        ) + ser_members_rest(fields.drop_first())
    }
}

pub proof fn lemma_jview_list_index(items: Seq<Json>)
    ensures
        jview_list(items).len() == items.len(),
        forall|i: int| 0 <= i < items.len() ==> jview_list(items)[i] == jview(#[trigger] items[i]),
    decreases items,
{
    if items.len() > 0 {
        lemma_jview_list_index(items.drop_first());
        assert forall|i: int| 0 <= i < items.len() implies jview_list(items)[i] == jview(
            #[trigger] items[i],
        ) by {
            if i > 0 {
                assert(items.drop_first()[i - 1] == items[i]);
            }
        }
    }
}

pub proof fn lemma_jview_fields_index(fields: Seq<(String, Json)>)
    ensures
        jview_fields(fields).len() == fields.len(),
        forall|i: int|
            0 <= i < fields.len() ==> jview_fields(fields)[i] == ((#[trigger] fields[i]).0@,
            jview(fields[i].1)),
    decreases fields,
{
    if fields.len() > 0 {
        lemma_jview_fields_index(fields.drop_first());
        assert forall|i: int|
            0 <= i < fields.len() implies jview_fields(fields)[i] == ((#[trigger] fields[i]).0@,
        jview(fields[i].1)) by {
            if i > 0 {
                assert(fields.drop_first()[i - 1] == fields[i]);
            }
        }
    }
}

pub proof fn lemma_ser_str_snoc(s: Seq<char>, c: char)
    ensures
        ser_str_chars(s.push(c)) == ser_str_chars(s) + esc_char(c),
    decreases s,
{
    if s.len() == 0 {
        assert(s.push(c)[0] == c);
        assert(s.push(c).drop_first() =~= Seq::<char>::empty());
        assert(ser_str_chars(s.push(c)) == esc_char(c) + ser_str_chars(Seq::<char>::empty()));
        assert(esc_char(c) + Seq::<char>::empty() =~= esc_char(c));
        assert(ser_str_chars(s) + esc_char(c) =~= esc_char(c));
    } else {
        let s2 = s.drop_first();
        lemma_ser_str_snoc(s2, c);
        assert(s.push(c)[0] == s[0]);
        assert(s.push(c).drop_first() =~= s2.push(c));
        assert(ser_str_chars(s.push(c)) == esc_char(s[0]) + ser_str_chars(s2.push(c)));
        assert(esc_char(s[0]) + (ser_str_chars(s2) + esc_char(c)) =~= (esc_char(s[0])
            + ser_str_chars(s2)) + esc_char(c));
    }
}

pub proof fn lemma_ser_elems_rest_snoc(items: Seq<JVal>, x: JVal)
    ensures
        ser_elems_rest(items.push(x)) == ser_elems_rest(items) + seq![','] + ser_jval(x),
    decreases items,
{
    if items.len() == 0 {
        assert(items.push(x)[0] == x);
        assert(items.push(x).drop_first() =~= Seq::<JVal>::empty());
        assert(ser_elems_rest(items.push(x)) == seq![','] + ser_jval(x) + ser_elems_rest(
            Seq::<JVal>::empty(),
        ));
        assert(seq![','] + ser_jval(x) + Seq::<char>::empty() =~= seq![','] + ser_jval(x));
        assert(ser_elems_rest(items) + seq![','] + ser_jval(x) =~= seq![','] + ser_jval(x));
    } else {
        let s2 = items.drop_first();
        lemma_ser_elems_rest_snoc(s2, x);
        assert(items.push(x)[0] == items[0]);
        assert(items.push(x).drop_first() =~= s2.push(x));
        assert(ser_elems_rest(items.push(x)) == seq![','] + ser_jval(items[0]) + ser_elems_rest(
            s2.push(x),
        ));
        assert(seq![','] + ser_jval(items[0]) + (ser_elems_rest(s2) + seq![','] + ser_jval(x))
            =~= (seq![','] + ser_jval(items[0]) + ser_elems_rest(s2)) + seq![','] + ser_jval(x));
    }
}

pub proof fn lemma_ser_elems_snoc(items: Seq<JVal>, x: JVal)
    ensures
        ser_elems(items.push(x)) == if items.len() == 0 {
            ser_jval(x)
        } else {
            ser_elems(items) + seq![','] + ser_jval(x)
        },
    decreases items,
{
    if items.len() == 0 {
        assert(items.push(x).drop_first() =~= Seq::<JVal>::empty());
        assert(ser_elems(items.push(x)) =~= ser_jval(x));
    } else {
        assert(items.push(x).drop_first() =~= items.drop_first().push(x));
        lemma_ser_elems_rest_snoc(items.drop_first(), x);
        assert(ser_elems(items.push(x)) =~= ser_elems(items) + seq![','] + ser_jval(x));
    }
}

pub proof fn lemma_ser_members_rest_snoc(fields: Seq<(Seq<char>, JVal)>, x: (Seq<char>, JVal))
    ensures
        ser_members_rest(fields.push(x)) == ser_members_rest(fields) + seq![','] + seq!['"']
            + ser_str_chars(x.0) + seq!['"', ':'] + ser_jval(x.1),
    decreases fields,
{
    let m = |f: (Seq<char>, JVal)| seq![','] + seq!['"'] + ser_str_chars(f.0) + seq!['"', ':']
        + ser_jval(f.1);
    if fields.len() == 0 {
        assert(fields.push(x)[0] == x);
        assert(fields.push(x).drop_first() =~= Seq::<(Seq<char>, JVal)>::empty());
        assert(ser_members_rest(fields.push(x)) == m(x) + ser_members_rest(
            Seq::<(Seq<char>, JVal)>::empty(),
        ));
        assert(m(x) + Seq::<char>::empty() =~= m(x));
        assert(ser_members_rest(fields) + seq![','] + seq!['"'] + ser_str_chars(x.0) + seq![
            '"',
            ':',
        ] + ser_jval(x.1) =~= m(x));
    } else {
        let s2 = fields.drop_first();
        lemma_ser_members_rest_snoc(s2, x);
        assert(fields.push(x)[0] == fields[0]);
        assert(fields.push(x).drop_first() =~= s2.push(x));
        assert(ser_members_rest(fields.push(x)) == m(fields[0]) + ser_members_rest(s2.push(x)));
        assert(ser_members_rest(fields) == m(fields[0]) + ser_members_rest(s2));
        assert(m(fields[0]) + (ser_members_rest(s2) + seq![','] + seq!['"'] + ser_str_chars(x.0)
            + seq!['"', ':'] + ser_jval(x.1)) =~= (m(fields[0]) + ser_members_rest(s2)) + seq![',']
            + seq!['"'] + ser_str_chars(x.0) + seq!['"', ':'] + ser_jval(x.1));
    }
}

pub proof fn lemma_ser_members_snoc(fields: Seq<(Seq<char>, JVal)>, x: (Seq<char>, JVal))
    ensures
        ser_members(fields.push(x)) == if fields.len() == 0 {
            seq!['"'] + ser_str_chars(x.0) + seq!['"', ':'] + ser_jval(x.1)
        } else {
            ser_members(fields) + seq![','] + seq!['"'] + ser_str_chars(x.0) + seq!['"', ':']
                + ser_jval(x.1)
        },
    decreases fields,
{
    if fields.len() == 0 {
        assert(fields.push(x).drop_first() =~= Seq::<(Seq<char>, JVal)>::empty());
        assert(ser_members(fields.push(x)) =~= seq!['"'] + ser_str_chars(x.0) + seq!['"', ':']
            + ser_jval(x.1));
    } else {
        assert(fields.push(x).drop_first() =~= fields.drop_first().push(x));
        lemma_ser_members_rest_snoc(fields.drop_first(), x);
        assert(ser_members(fields.push(x)) =~= ser_members(fields) + seq![','] + seq!['"']
            + ser_str_chars(x.0) + seq!['"', ':'] + ser_jval(x.1));
    }
}

/// Every value held in a [`Json`] tree is well formed.
pub proof fn lemma_jview_wf(v: Json)
    ensures
        wf_jval(v@),
    decreases v,
{
    match v {
        Json::Arr(items) => {
            lemma_jview_list_wf(items@);
        },
        Json::Obj(fields) => {
            lemma_jview_fields_wf(fields@);
        },
        _ => {},
    }
}

pub proof fn lemma_jview_list_wf(items: Seq<Json>)
    ensures
        wf_jval_list(jview_list(items)),
    decreases items,
{
    if items.len() > 0 {
        lemma_jview_wf(items[0]);
        lemma_jview_list_wf(items.drop_first());
        assert(jview_list(items).drop_first() =~= jview_list(items.drop_first()));
    }
}

pub proof fn lemma_jview_fields_wf(fields: Seq<(String, Json)>)
    ensures
        wf_jval_fields(jview_fields(fields)),
    decreases fields,
{
    if fields.len() > 0 {
        lemma_jview_wf(fields[0].1);
        lemma_jview_fields_wf(fields.drop_first());
        assert(jview_fields(fields).drop_first() =~= jview_fields(fields.drop_first()));
    }
}

fn char_from_code(u: u32) -> (c: char)
    requires
        vstd::utf8::is_scalar(u),
    ensures
        c as u32 == u,
{
    broadcast use vstd::utf8::char_u32_cast;

    match char::from_u32(u) {
        Some(c) => c,
        None => {
            proof {
                assert(false);
            }
            ' '
        },
    }
}

fn write_escaped_char(c: char, out: &mut Vec<char>)
    ensures
        final(out)@ == old(out)@ + esc_char(c),
{
    if c == '"' {
        out.push('\\');
        out.push('"');
        proof {
            assert(final(out)@ =~= old(out)@ + esc_char(c));
        }
    } else if c == '\\' {
        out.push('\\');
        out.push('\\');
        proof {
            assert(final(out)@ =~= old(out)@ + esc_char(c));
        }
    } else if (c as u32) < 32 {
        let u = c as u32;
        out.push('\\');
        out.push('u');
        out.push('0');
        out.push('0');
        let hi = u / 16;
        let lo = u % 16;
        out.push(char_from_code(48 + hi));
        out.push(char_from_code(48 + lo + (if lo < 10 { 0 } else { 39 })));
        proof {
            broadcast use vstd::utf8::char_u32_cast;

            assert(final(out)@ =~= old(out)@ + esc_char(c));
        }
    } else {
        out.push(c);
        proof {
            assert(final(out)@ =~= old(out)@ + esc_char(c));
        }
    }
}

fn write_str_chars(s: &str, out: &mut Vec<char>)
    ensures
        final(out)@ == old(out)@ + ser_str_chars(s@),
{
    let cs = chars_of(s);
    let mut i: usize = 0;
    while i < cs.len()
        invariant
            cs@ == s@,
            i <= cs@.len(),
            out@ == old(out)@ + ser_str_chars(s@.subrange(0, i as int)),
        decreases cs@.len() - i,
    {
        write_escaped_char(cs[i], out);
        proof {
            lemma_ser_str_snoc(s@.subrange(0, i as int), s@[i as int]);
            assert(s@.subrange(0, i + 1 as int) =~= s@.subrange(0, i as int).push(s@[i as int]));
        }
        i = i + 1;
    }
    proof {
        assert(s@.subrange(0, s@.len() as int) =~= s@);
    }
}

fn write_nat(m: u64, out: &mut Vec<char>)
    ensures
        final(out)@ == old(out)@ + dec_digits(m as nat),
    decreases m,
{
    broadcast use vstd::utf8::char_u32_cast;

    if m < 10 {
        out.push(char_from_code(48 + (m as u32)));
        proof {
            assert(final(out)@ =~= old(out)@ + dec_digits(m as nat));
        }
    } else {
        write_nat(m / 10, out);
        out.push(char_from_code(48 + ((m % 10) as u32)));
        proof {
            assert((m as nat) / 10 == (m / 10) as nat);
            assert((m as nat) % 10 == (m % 10) as nat);
            assert(final(out)@ =~= old(out)@ + dec_digits(m as nat));
        }
    }
}

fn write_int(n: i64, out: &mut Vec<char>)
    ensures
        final(out)@ == old(out)@ + ser_int(n as int),
{
    if n < 0 {
        out.push('-');
        let mag: u64 = ((-(n + 1)) as u64) + 1;
        proof {
            assert(mag == -(n as int));
        }
        write_nat(mag, out);
        proof {
            assert(final(out)@ =~= old(out)@ + ser_int(n as int));
        }
    } else {
        write_nat(n as u64, out);
    }
}

/// Writes the serialization of `v` after the current contents of `out`.
pub fn write_json(v: &Json, out: &mut Vec<char>)
    ensures
        final(out)@ == old(out)@ + ser_jval(v@),
    decreases *v,
{
    match v {
        Json::Null => {
            out.push('n');
            out.push('u');
            out.push('l');
            out.push('l');
            proof {
                assert(final(out)@ =~= old(out)@ + ser_jval(v@));
            }
        },
        Json::Bool(b) => {
            if *b {
                out.push('t');
                out.push('r');
                out.push('u');
                out.push('e');
            } else {
                out.push('f');
                out.push('a');
                out.push('l');
                out.push('s');
                out.push('e');
            }
            proof {
                assert(final(out)@ =~= old(out)@ + ser_jval(v@));
            }
        },
        Json::Int(n) => {
            write_int(*n, out);
        },
        Json::Str(s) => {
            out.push('"');
            write_str_chars(s.as_str(), out);
            out.push('"');
            proof {
                assert(final(out)@ =~= old(out)@ + ser_jval(v@));
            }
        },
        Json::Arr(items) => {
            out.push('[');
            let ghost start = out@;
            let mut i: usize = 0;
            while i < items.len()
                invariant
                    *v == Json::Arr(*items),
                    start == old(out)@ + seq!['['],
                    i <= items@.len(),
                    out@ == start + ser_elems(jview_list(items@.subrange(0, i as int))),
                decreases items@.len() - i,
            {
                if i > 0 {
                    out.push(',');
                }
                proof {
                    broadcast use vstd::std_specs::vec::axiom_vec_index_decreases;

                    assert(v->Arr_0 == *items);
                    assert(decreases_to!(*v => v->Arr_0));
                    assert(decreases_to!(v->Arr_0 => v->Arr_0@));
                    assert(decreases_to!(v->Arr_0@ => v->Arr_0@[i as int]));
                    assert(decreases_to!(*v => items@[i as int]));
                }
                write_json(&items[i], out);
                proof {
                    let pfx = items@.subrange(0, i as int);
                    lemma_jview_list_index(pfx);
                    lemma_jview_list_index(items@.subrange(0, i + 1 as int));
                    lemma_jview_list_index(items@);
                    lemma_ser_elems_snoc(jview_list(pfx), jview(items@[i as int]));
                    assert(items@.subrange(0, i + 1 as int) =~= pfx.push(items@[i as int]));
                    lemma_jview_list_snoc(pfx, items@[i as int]);
                    assert(out@ =~= start + ser_elems(jview_list(items@.subrange(0, i + 1 as int))));
                }
                i = i + 1;
            }
            out.push(']');
            proof {
                assert(items@.subrange(0, items@.len() as int) =~= items@);
                assert(final(out)@ =~= old(out)@ + ser_jval(v@));
            }
        },
        Json::Obj(fields) => {
            out.push('{');
            let ghost start = out@;
            let mut i: usize = 0;
            while i < fields.len()
                invariant
                    *v == Json::Obj(*fields),
                    start == old(out)@ + seq!['{'],
                    i <= fields@.len(),
                    out@ == start + ser_members(jview_fields(fields@.subrange(0, i as int))),
                decreases fields@.len() - i,
            {
                if i > 0 {
                    out.push(',');
                }
                out.push('"');
                let f: &(String, Json) = &fields[i];
                write_str_chars(f.0.as_str(), out);
                out.push('"');
                out.push(':');
                proof {
                    broadcast use vstd::std_specs::vec::axiom_vec_index_decreases;

                    assert(v->Obj_0 == *fields);
                    assert(decreases_to!(*v => v->Obj_0));
                    assert(decreases_to!(v->Obj_0 => v->Obj_0@));
                    assert(decreases_to!(v->Obj_0@ => v->Obj_0@[i as int]));
                    assert(decreases_to!(v->Obj_0@[i as int] => v->Obj_0@[i as int].1));
                    assert(decreases_to!(*v => fields@[i as int].1));
                }
                write_json(&f.1, out);
                proof {
                    let pfx = fields@.subrange(0, i as int);
                    lemma_jview_fields_index(pfx);
                    lemma_jview_fields_index(fields@.subrange(0, i + 1 as int));
                    lemma_jview_fields_index(fields@);
                    lemma_ser_members_snoc(
                        jview_fields(pfx),
                        (fields@[i as int].0@, jview(fields@[i as int].1)),
                    );
                    assert(fields@.subrange(0, i + 1 as int) =~= pfx.push(fields@[i as int]));
                    lemma_jview_fields_snoc(pfx, fields@[i as int]);
                    assert(out@ =~= start + ser_members(
                        jview_fields(fields@.subrange(0, i + 1 as int)),
                    ));
                }
                i = i + 1;
            }
            out.push('}');
            proof {
                assert(fields@.subrange(0, fields@.len() as int) =~= fields@);
                assert(final(out)@ =~= old(out)@ + ser_jval(v@));
            }
        },
    }
}

pub proof fn lemma_jview_list_snoc(items: Seq<Json>, x: Json)
    ensures
        jview_list(items.push(x)) == jview_list(items).push(jview(x)),
    decreases items,
{
    if items.len() == 0 {
        assert(items.push(x)[0] == x);
        assert(items.push(x).drop_first() =~= Seq::<Json>::empty());
        assert(jview_list(items.push(x)) == seq![jview(x)] + jview_list(Seq::<Json>::empty()));
        assert(seq![jview(x)] + Seq::<JVal>::empty() =~= jview_list(items).push(jview(x)));
    } else {
        let s2 = items.drop_first();
        lemma_jview_list_snoc(s2, x);
        assert(items.push(x)[0] == items[0]);
        assert(items.push(x).drop_first() =~= s2.push(x));
        assert(jview_list(items.push(x)) == seq![jview(items[0])] + jview_list(s2.push(x)));
        assert(seq![jview(items[0])] + jview_list(s2).push(jview(x)) =~= (seq![jview(items[0])]
            + jview_list(s2)).push(jview(x)));
    }
}

pub proof fn lemma_jview_fields_snoc(fields: Seq<(String, Json)>, x: (String, Json))
    ensures
        jview_fields(fields.push(x)) == jview_fields(fields).push((x.0@, jview(x.1))),
    decreases fields,
{
    if fields.len() == 0 {
        assert(fields.push(x)[0] == x);
        assert(fields.push(x).drop_first() =~= Seq::<(String, Json)>::empty());
        assert(jview_fields(fields.push(x)) == seq![(x.0@, jview(x.1))] + jview_fields(
            Seq::<(String, Json)>::empty(),
        ));
        assert(seq![(x.0@, jview(x.1))] + Seq::<(Seq<char>, JVal)>::empty() =~= jview_fields(
            fields,
        ).push((x.0@, jview(x.1))));
    } else {
        let s2 = fields.drop_first();
        lemma_jview_fields_snoc(s2, x);
        assert(fields.push(x)[0] == fields[0]);
        assert(fields.push(x).drop_first() =~= s2.push(x));
        assert(jview_fields(fields.push(x)) == seq![(fields[0].0@, jview(fields[0].1))]
            + jview_fields(s2.push(x)));
        assert(seq![(fields[0].0@, jview(fields[0].1))] + jview_fields(s2).push((x.0@, jview(x.1)))
            =~= (seq![(fields[0].0@, jview(fields[0].1))] + jview_fields(s2)).push(
            (x.0@, jview(x.1)),
        ));
    }
}

/// The serialized text of `v`.
pub fn json_to_text(v: &Json) -> (r: String)
    ensures
        r@ == ser_jval(v@),
{
    let mut out: Vec<char> = Vec::new();
    write_json(v, &mut out);
    string_of(&out)
}


/// Looks a key up in a field list; the last binding wins, as it does in a
/// map built by repeated insertion.
pub open spec fn jget_fields(fields: Seq<(Seq<char>, JVal)>, key: Seq<char>) -> Option<JVal>
    decreases fields,
{
    if fields.len() == 0 {
        None
    } else if fields.last().0 == key {
        Some(fields.last().1)
    } else {
        jget_fields(fields.drop_last(), key)
    }
}

/// Looks a key up in a value; `None` unless the value is an object with
/// that key.
pub open spec fn jget(v: JVal, key: Seq<char>) -> Option<JVal> {
    match v {
        JVal::Obj(fields) => jget_fields(fields, key),
        _ => None,
    }
}

impl Json {
    /// The field of an object, if any.
    pub fn get<'a>(&'a self, key: &str) -> (r: Option<&'a Json>)
        ensures
            match r {
                Some(f) => jget(self@, key@) == Some(f@),
                None => jget(self@, key@) is None,
            },
    {
        match self {
            Json::Obj(fields) => {
                let ghost fv = jview_fields(fields@);
                proof {
                    lemma_jview_fields_index(fields@);
                    assert(fv.take(fv.len() as int) =~= fv);
                }
                let mut i = fields.len();
                while i > 0
                    invariant
                        self@ == JVal::Obj(fv),
                        fv == jview_fields(fields@),
                        fv.len() == fields@.len(),
                        forall|m: int|
                            0 <= m < fields@.len() ==> fv[m] == ((#[trigger] fields@[m]).0@,
                            jview(fields@[m].1)),
                        i <= fields@.len(),
                        jget_fields(fv, key@) == jget_fields(fv.take(i as int), key@),
                    decreases i,
                {
                    let f: &(String, Json) = &fields[i - 1];
                    if crate::strutil::str_eq(f.0.as_str(), key) {
                        proof {
                            assert(fv.take(i as int).last() == fv[i - 1]);
                            assert(jget_fields(fv.take(i as int), key@) == Some(fv[i - 1].1));
                        }
                        return Some(&f.1);
                    }
                    proof {
                        assert(fv.take(i as int).last() == fv[i - 1]);
                        assert(fv.take(i as int).drop_last() =~= fv.take(i - 1));
                    }
                    i = i - 1;
                }
                proof {
                    assert(fv.take(0) =~= Seq::<(Seq<char>, JVal)>::empty());
                }
                None
            },
            _ => None,
        }
    }

    /// The integer held by the value, if it is a number.
    pub fn as_i64(&self) -> (r: Option<i64>)
        ensures
            match r {
                Some(n) => self@ == JVal::Int(n as int),
                None => !(self@ is Int),
            },
    {
        match self {
            Json::Int(n) => Some(*n),
            _ => None,
        }
    }

    /// The text held by the value, if it is a string.
    pub fn as_text<'a>(&'a self) -> (r: Option<&'a String>)
        ensures
            match r {
                Some(s) => self@ == JVal::Str(s@),
                None => !(self@ is Str),
            },
    {
        match self {
            Json::Str(s) => Some(s),
            _ => None,
        }
    }

    /// The elements held by the value, if it is an array.
    pub fn as_items<'a>(&'a self) -> (r: Option<&'a Vec<Json>>)
        ensures
            match r {
                Some(items) => self@ == JVal::Arr(jview_list(items@)),
                None => !(self@ is Arr),
            },
    {
        match self {
            Json::Arr(items) => Some(items),
            _ => None,
        }
    }

    /// Whether the value is `null`.
    pub fn is_null(&self) -> (r: bool)
        ensures
            r == (self@ is Null),
    {
        match self {
            Json::Null => true,
            _ => false,
        }
    }
}


/// A deep copy of a JSON value.
pub fn clone_json(v: &Json) -> (r: Json)
    ensures
        r@ == v@,
    decreases *v,
{
    match v {
        Json::Null => Json::Null,
        Json::Bool(b) => Json::Bool(*b),
        Json::Int(n) => Json::Int(*n),
        Json::Str(s) => Json::Str(s.clone()),
        Json::Arr(items) => {
            let mut out: Vec<Json> = Vec::new();
            let mut i: usize = 0;
            while i < items.len()
                invariant
                    *v == Json::Arr(*items),
                    i <= items@.len(),
                    jview_list(out@) == jview_list(items@.subrange(0, i as int)),
                decreases items@.len() - i,
            {
                proof {
                    broadcast use vstd::std_specs::vec::axiom_vec_index_decreases;

                    assert(v->Arr_0 == *items);
                    assert(decreases_to!(*v => v->Arr_0));
                    assert(decreases_to!(v->Arr_0 => v->Arr_0@));
                    assert(decreases_to!(v->Arr_0@ => v->Arr_0@[i as int]));
                    assert(decreases_to!(*v => items@[i as int]));
                }
                let c = clone_json(&items[i]);
                proof {
                    let pfx = items@.subrange(0, i as int);
                    lemma_jview_list_snoc(pfx, items@[i as int]);
                    assert(items@.subrange(0, i + 1 as int) =~= pfx.push(items@[i as int]));
                    lemma_jview_list_index(pfx);
                    assert(jview_list(out@.push(c)) == jview_list(out@).push(jview(c))) by {
                        lemma_jview_list_snoc(out@, c);
                    }
                }
                out.push(c);
                proof {
                    assert(jview_list(out@) =~= jview_list(items@.subrange(0, i + 1 as int)));
                }
                i = i + 1;
            }
            proof {
                assert(items@.subrange(0, items@.len() as int) =~= items@);
            }
            Json::Arr(out)
        },
        Json::Obj(fields) => {
            let mut out: Vec<(String, Json)> = Vec::new();
            let mut i: usize = 0;
            while i < fields.len()
                invariant
                    *v == Json::Obj(*fields),
                    i <= fields@.len(),
                    jview_fields(out@) == jview_fields(fields@.subrange(0, i as int)),
                decreases fields@.len() - i,
            {
                proof {
                    broadcast use vstd::std_specs::vec::axiom_vec_index_decreases;

                    assert(v->Obj_0 == *fields);
                    assert(decreases_to!(*v => v->Obj_0));
                    assert(decreases_to!(v->Obj_0 => v->Obj_0@));
                    assert(decreases_to!(v->Obj_0@ => v->Obj_0@[i as int]));
                    assert(decreases_to!(v->Obj_0@[i as int] => v->Obj_0@[i as int].1));
                    assert(decreases_to!(*v => fields@[i as int].1));
                }
                let f: &(String, Json) = &fields[i];
                let c = clone_json(&f.1);
                let pair = (f.0.clone(), c);
                proof {
                    let pfx = fields@.subrange(0, i as int);
                    lemma_jview_fields_snoc(pfx, fields@[i as int]);
                    assert(fields@.subrange(0, i + 1 as int) =~= pfx.push(fields@[i as int]));
                    lemma_jview_fields_snoc(out@, pair);
                }
                out.push(pair);
                proof {
                    assert(jview_fields(out@) =~= jview_fields(fields@.subrange(0, i + 1 as int)));
                }
                i = i + 1;
            }
            proof {
                assert(fields@.subrange(0, fields@.len() as int) =~= fields@);
            }
            Json::Obj(out)
        },
    }
}

} // verus!
