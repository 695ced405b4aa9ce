//! A small JSON value model and a line-oriented text codec for it.
//!
//! The wire format of the RPC layer is a single JSON text per line. The
//! serializer below emits a canonical text for every value: no whitespace,
//! fields in the order they are held, strings escaped with the five escapes
//! `\" \\ \n \r \t`, integers in plain decimal. The parser accepts texts in
//! that shape with fields in any order; `decode` in the `rpc` module checks
//! that the text it accepted re-serializes to the input, so everything it
//! hands out is pinned to the canonical grammar.

use vstd::prelude::*;

verus! {

broadcast use vstd::std_specs::vec::axiom_vec_index_decreases;

/// A JSON value. Numbers are modelled as signed 64-bit integers: the RPC
/// layer reads ids and error codes as integers and carries every other
/// payload through unchanged.
#[derive(Debug, PartialEq)]
pub enum Json {
    Null,
    Bool(bool),
    Int(i64),
    Str(String),
    Arr(Vec<Json>),
    Obj(Vec<(String, Json)>),
}

/// The mathematical model of a [`Json`] value.
pub enum JsonV {
    Null,
    Bool(bool),
    Int(int),
    Str(Seq<char>),
    Arr(Seq<JsonV>),
    Obj(Seq<(Seq<char>, JsonV)>),
}

pub open spec fn json_view(j: Json) -> JsonV
    decreases j,
{
    match j {
        Json::Null => JsonV::Null,
        Json::Bool(b) => JsonV::Bool(b),
        Json::Int(n) => JsonV::Int(n as int),
        Json::Str(s) => JsonV::Str(s@),
        Json::Arr(items) => JsonV::Arr(arr_view(items@)),
        Json::Obj(fields) => JsonV::Obj(obj_view(fields@)),
    }
}

pub open spec fn arr_view(items: Seq<Json>) -> Seq<JsonV>
    decreases items,
{
    if items.len() == 0 {
        Seq::empty()
    } else {
        seq![json_view(items[0])] + arr_view(items.drop_first())
    }
}

pub open spec fn obj_view(fields: Seq<(String, Json)>) -> Seq<(Seq<char>, JsonV)>
    decreases fields,
{
    if fields.len() == 0 {
        Seq::empty()
    } else {
        seq![(fields[0].0@, json_view(fields[0].1))] + obj_view(fields.drop_first())
    }
}

impl View for Json {
    type V = JsonV;

    open spec fn view(&self) -> JsonV {
        json_view(*self)
    }
}

// ---------------------------------------------------------------------------
// The canonical text of a value.
// ---------------------------------------------------------------------------

pub open spec fn digit_char(d: int) -> char {
    ((48 + d) as u8) as char
}

/// Decimal digits of a nonnegative number, most significant first.
pub open spec fn dec_digits(n: int) -> Seq<char>
    decreases n,
{
    if n < 0 {
        Seq::empty()
    } else if n < 10 {
        seq![digit_char(n)]
    } else {
        dec_digits(n / 10).push(digit_char(n % 10))
    }
}

pub open spec fn int_text(n: int) -> Seq<char> {
    if n < 0 {
        seq!['-'] + dec_digits(-n)
    } else {
        dec_digits(n)
    }
}

/// How one character appears inside a string literal.
pub open spec fn esc_char(c: char) -> Seq<char> {
    if c == '"' {
        seq!['\\', '"']
    } else if c == '\\' {
        seq!['\\', '\\']
    } else if c == '\n' {
        seq!['\\', 'n']
    } else if c == '\r' {
        seq!['\\', 'r']
    } else if c == '\t' {
        seq!['\\', 't']
    } else {
        seq![c]
    }
}

pub open spec fn esc(s: Seq<char>) -> Seq<char>
    decreases s.len(),
{
    if s.len() == 0 {
        Seq::empty()
    } else {
        esc_char(s[0]) + esc(s.drop_first())
    }
}

pub open spec fn str_text(s: Seq<char>) -> Seq<char> {
    seq!['"'] + esc(s) + seq!['"']
}

/// The canonical text of a JSON value.
pub open spec fn jtext(j: JsonV) -> Seq<char>
    decreases j,
{
    match j {
        JsonV::Null => seq!['n', 'u', 'l', 'l'],
        JsonV::Bool(b) => if b {
            seq!['t', 'r', 'u', 'e']
        } else {
            seq!['f', 'a', 'l', 's', 'e']
        },
        JsonV::Int(n) => int_text(n),
        JsonV::Str(s) => str_text(s),
        JsonV::Arr(items) => seq!['['] + arr_text(items) + seq![']'],
        JsonV::Obj(fields) => seq!['{'] + obj_text(fields) + seq!['}'],
    }
}

pub open spec fn arr_text(items: Seq<JsonV>) -> Seq<char>
    decreases items,
{
    if items.len() == 0 {
        Seq::empty()
    } else if items.len() == 1 {
        jtext(items[0])
    } else {
        jtext(items[0]) + seq![','] + arr_text(items.drop_first())
    }
}

pub open spec fn obj_text(fields: Seq<(Seq<char>, JsonV)>) -> Seq<char>
    decreases fields,
{
    if fields.len() == 0 {
        Seq::empty()
    } else {
        let f = str_text(fields[0].0) + seq![':'] + jtext(fields[0].1);
        if fields.len() == 1 {
            f
        } else {
            f + seq![','] + obj_text(fields.drop_first())
        }
    }
}

// ---------------------------------------------------------------------------
// Lemmas used by the serializer's loop invariants.
// ---------------------------------------------------------------------------

proof fn lemma_esc_snoc(s: Seq<char>, c: char)
    ensures
        esc(s.push(c)) == esc(s) + esc_char(c),
    decreases s.len(),
{
    if s.len() == 0 {
        assert(s.push(c)[0] == c);
        assert(s.push(c).drop_first() =~= Seq::<char>::empty());
        assert(esc(s.push(c).drop_first()) == Seq::<char>::empty());
        assert(esc(s.push(c)) =~= esc(s) + esc_char(c));
    } else {
        lemma_esc_snoc(s.drop_first(), c);
        assert(s.push(c).drop_first() =~= s.drop_first().push(c));
        assert(s.push(c)[0] == s[0]);
        assert(esc(s.push(c)) =~= esc(s) + esc_char(c));
    }
}

proof fn lemma_arr_text_snoc(items: Seq<JsonV>, x: JsonV)
    ensures
        arr_text(items.push(x)) == if items.len() == 0 {
            jtext(x)
        } else {
            arr_text(items) + seq![','] + jtext(x)
        },
    decreases items.len(),
{
    if items.len() == 0 {
        assert(items.push(x)[0] == x);
        assert(arr_text(items.push(x)) =~= jtext(x));
    } else {
        lemma_arr_text_snoc(items.drop_first(), x);
        assert(items.push(x).drop_first() =~= items.drop_first().push(x));
        assert(items.push(x)[0] == items[0]);
        assert(arr_text(items.push(x)) =~= arr_text(items) + seq![','] + jtext(x));
    }
}

proof fn lemma_obj_text_snoc(fields: Seq<(Seq<char>, JsonV)>, k: Seq<char>, v: JsonV)
    ensures
        obj_text(fields.push((k, v))) == if fields.len() == 0 {
            str_text(k) + seq![':'] + jtext(v)
        } else {
            obj_text(fields) + seq![','] + str_text(k) + seq![':'] + jtext(v)
        },
    decreases fields.len(),
{
    if fields.len() == 0 {
        assert(fields.push((k, v))[0] == (k, v));
        assert(obj_text(fields.push((k, v))) =~= str_text(k) + seq![':'] + jtext(v));
    } else {
        lemma_obj_text_snoc(fields.drop_first(), k, v);
        assert(fields.push((k, v)).drop_first() =~= fields.drop_first().push((k, v)));
        assert(fields.push((k, v))[0] == fields[0]);
        assert(obj_text(fields.push((k, v))) =~= obj_text(fields) + seq![','] + str_text(k)
            + seq![':'] + jtext(v));
    }
}

// ---------------------------------------------------------------------------
// Serializer.
// ---------------------------------------------------------------------------

/// Appends the decimal digits of `n`, most significant first.
fn push_dec(out: &mut Vec<char>, n: u64)
    ensures
        final(out)@ == old(out)@ + dec_digits(n as int),
    decreases n,
{
    if n < 10 {
        let d: u8 = 48 + (n as u8);
        out.push(d as char);
        assert(out@ =~= old(out)@ + dec_digits(n as int));
    } else {
        push_dec(out, n / 10);
        let d: u8 = 48 + ((n % 10) as u8);
        out.push(d as char);
        assert(out@ =~= old(out)@ + dec_digits(n as int));
    }
}

/// Appends the canonical text of a signed number.
fn push_int(out: &mut Vec<char>, n: i64)
    ensures
        final(out)@ == old(out)@ + int_text(n as int),
{
    if n >= 0 {
        push_dec(out, n as u64);
    } else {
        out.push('-');
        let mag: u64 = if n == i64::MIN {
            9223372036854775808u64
        } else {
            (-n) as u64
        };
        assert(mag as int == -(n as int));
        push_dec(out, mag);
        assert(out@ =~= old(out)@ + int_text(n as int));
    }
}

/// Appends one string character, escaped as the canonical text has it.
fn push_esc_char(out: &mut Vec<char>, c: char)
    ensures
        final(out)@ == old(out)@ + esc_char(c),
{
    if c == '"' {
        out.push('\\');
        out.push('"');
    } else if c == '\\' {
        out.push('\\');
        out.push('\\');
    } else if c == '\n' {
        out.push('\\');
        out.push('n');
    } else if c == '\r' {
        out.push('\\');
        out.push('r');
    } else if c == '\t' {
        out.push('\\');
        out.push('t');
    } else {
        out.push(c);
    }
    assert(out@ =~= old(out)@ + esc_char(c));
}

/// Appends a quoted, escaped string literal.
fn push_str_lit(out: &mut Vec<char>, s: &str)
    ensures
        final(out)@ == old(out)@ + str_text(s@),
{
    out.push('"');
    let cs: Vec<char> = str_chars(s);
    let n: usize = cs.len();
    let mut i: usize = 0;
    while i < n
        invariant
            n == cs.len(),
            cs@ == s@,
            i <= n,
            out@ == old(out)@ + seq!['"'] + esc(s@.take(i as int)),
        decreases n - i,
    {
        proof {
            lemma_esc_snoc(s@.take(i as int), s@[i as int]);
            assert(s@.take(i as int).push(s@[i as int]) =~= s@.take(i + 1));
        }
        push_esc_char(out, cs[i]);
        i = i + 1;
    }
    proof {
        assert(s@.take(n as int) =~= s@);
    }
    out.push('"');
    assert(out@ =~= old(out)@ + str_text(s@));
}

/// Appends the canonical text of `j`.
#[verifier::loop_isolation(false)]
#[verifier::rlimit(60)]
pub fn push_json(out: &mut Vec<char>, j: &Json)
    ensures
        final(out)@ == old(out)@ + jtext(j@),
    decreases j,
{
    match j {
        Json::Null => {
            out.push('n');
            out.push('u');
            out.push('l');
            out.push('l');
            assert(out@ =~= old(out)@ + jtext(j@));
        },
        Json::Bool(b) => {
            if *b {
                out.push('t');
                out.push('r');
                out.push('u');
                out.push('e');
            } else {
                out.push('f');
                out.push('a');
                out.push('l');
                out.push('s');
                out.push('e');
            }
            assert(out@ =~= old(out)@ + jtext(j@));
        },
        Json::Int(n) => {
            push_int(out, *n);
        },
        Json::Str(s) => {
            push_str_lit(out, s.as_str());
        },
        Json::Arr(items) => {
            out.push('[');
            let n: usize = items.len();
            let mut i: usize = 0;
            while i < n
                invariant
                    n == items.len(),
                    i <= n,
                    out@ == old(out)@ + seq!['['] + arr_text(arr_view(items@.take(i as int))),
                decreases n - i,
            {
                if i > 0 {
                    out.push(',');
                }
                proof {
                    assert(j->Arr_0 == *items);
                    assert(decreases_to!(*j => j->Arr_0));
                    assert(decreases_to!(*items => items@[i as int]));
                }
                push_json(out, &items[i]);
                proof {
                    lemma_arr_view_snoc(items@.take(i as int), items@[i as int]);
                    lemma_arr_text_snoc(arr_view(items@.take(i as int)), json_view(items@[i as int]));
                    assert(items@.take(i as int).push(items@[i as int]) =~= items@.take(i + 1));
                    assert(arr_view(items@.take(i as int)).len() == i);
                    assert(out@ =~= old(out)@ + seq!['['] + arr_text(arr_view(items@.take(i + 1))));
                }
                i = i + 1;
            }
            proof {
                assert(items@.take(n as int) =~= items@);
            }
            out.push(']');
            assert(out@ =~= old(out)@ + jtext(j@));
        },
        Json::Obj(fields) => {
            out.push('{');
            let n: usize = fields.len();
            let mut i: usize = 0;
            while i < n
                invariant
                    n == fields.len(),
                    i <= n,
                    out@ == old(out)@ + seq!['{'] + obj_text(obj_view(fields@.take(i as int))),
                decreases n - i,
            {
                if i > 0 {
                    out.push(',');
                }
                push_str_lit(out, fields[i].0.as_str());
                out.push(':');
                proof {
                    assert(j->Obj_0 == *fields);
                    assert(decreases_to!(*j => j->Obj_0));
                    assert(decreases_to!(*fields => fields@[i as int]));
                    assert(decreases_to!(fields@[i as int] => fields@[i as int].1));
                }
                push_json(out, &fields[i].1);
                proof {
                    lemma_obj_view_snoc(fields@.take(i as int), fields@[i as int]);
                    lemma_obj_text_snoc(
                        obj_view(fields@.take(i as int)),
                        fields@[i as int].0@,
                        json_view(fields@[i as int].1),
                    );
                    assert(fields@.take(i as int).push(fields@[i as int]) =~= fields@.take(i + 1));
                    assert(obj_view(fields@.take(i as int)).len() == i);
                    assert(out@ =~= old(out)@ + seq!['{'] + obj_text(obj_view(fields@.take(i + 1))));
                }
                i = i + 1;
            }
            proof {
                assert(fields@.take(n as int) =~= fields@);
            }
            out.push('}');
            assert(out@ =~= old(out)@ + jtext(j@));
        },
    }
}

proof fn lemma_arr_view_snoc(items: Seq<Json>, x: Json)
    ensures
        arr_view(items.push(x)) == arr_view(items).push(json_view(x)),
        arr_view(items).len() == items.len(),
    decreases items.len(),
{
    if items.len() == 0 {
        assert(items.push(x)[0] == x);
        assert(items.push(x).drop_first() =~= Seq::<Json>::empty());
        assert(arr_view(items.push(x).drop_first()) == Seq::<JsonV>::empty());
        assert(arr_view(items.push(x)) =~= arr_view(items).push(json_view(x)));
    } else {
        lemma_arr_view_snoc(items.drop_first(), x);
        assert(items.push(x).drop_first() =~= items.drop_first().push(x));
        assert(items.push(x)[0] == items[0]);
        assert(arr_view(items.push(x)) =~= arr_view(items).push(json_view(x)));
    }
}

proof fn lemma_obj_view_snoc(fields: Seq<(String, Json)>, x: (String, Json))
    ensures
        obj_view(fields.push(x)) == obj_view(fields).push((x.0@, json_view(x.1))),
        obj_view(fields).len() == fields.len(),
    decreases fields.len(),
{
    if fields.len() == 0 {
        assert(fields.push(x)[0] == x);
        assert(fields.push(x).drop_first() =~= Seq::<(String, Json)>::empty());
        assert(obj_view(fields.push(x).drop_first()) == Seq::<(Seq<char>, JsonV)>::empty());
        assert(obj_view(fields.push(x)) =~= obj_view(fields).push((x.0@, json_view(x.1))));
    } else {
        lemma_obj_view_snoc(fields.drop_first(), x);
        assert(fields.push(x).drop_first() =~= fields.drop_first().push(x));
        assert(fields.push(x)[0] == fields[0]);
        assert(obj_view(fields.push(x)) =~= obj_view(fields).push((x.0@, json_view(x.1))));
    }
}

/// The view of a sequence of values, element by element.
pub proof fn lemma_arr_view_index(items: Seq<Json>)
    ensures
        arr_view(items).len() == items.len(),
        forall|i: int| 0 <= i < items.len() ==> arr_view(items)[i] == json_view(items[i]),
    decreases items.len(),
{
    if items.len() > 0 {
        lemma_arr_view_index(items.drop_first());
        assert forall|i: int| 0 <= i < items.len() implies arr_view(items)[i] == json_view(
            items[i],
        ) by {
            if i > 0 {
                assert(items.drop_first()[i - 1] == items[i]);
                assert(arr_view(items)[i] == arr_view(items.drop_first())[i - 1]);
            }
        }
    }
}

/// The view of a sequence of fields, field by field.
pub proof fn lemma_obj_view_index(fields: Seq<(String, Json)>)
    ensures
        obj_view(fields).len() == fields.len(),
        forall|i: int| 0 <= i < fields.len() ==> obj_view(fields)[i] == (
            fields[i].0@,
            json_view(fields[i].1),
        ),
    decreases fields.len(),
{
    if fields.len() > 0 {
        lemma_obj_view_index(fields.drop_first());
        assert forall|i: int| 0 <= i < fields.len() implies obj_view(fields)[i] == (
            fields[i].0@,
            json_view(fields[i].1),
        ) by {
            if i > 0 {
                assert(fields.drop_first()[i - 1] == fields[i]);
                assert(obj_view(fields)[i] == obj_view(fields.drop_first())[i - 1]);
            }
        }
    }
}

/// A deep copy with the same view.
#[verifier::loop_isolation(false)]
#[verifier::rlimit(60)]
pub fn json_clone(j: &Json) -> (r: Json)
    ensures
        r@ == j@,
    decreases j,
{
    match j {
        Json::Null => Json::Null,
        Json::Bool(b) => Json::Bool(*b),
        Json::Int(n) => Json::Int(*n),
        Json::Str(s) => Json::Str(s.clone()),
        Json::Arr(items) => {
            let n: usize = items.len();
            let mut out: Vec<Json> = Vec::new();
            let mut i: usize = 0;
            while i < n
                invariant
                    n == items.len(),
                    i <= n,
                    out@.len() == i,
                    forall|k: int| 0 <= k < i ==> json_view(out@[k]) == json_view(items@[k]),
                decreases n - i,
            {
                proof {
                    assert(j->Arr_0 == *items);
                    assert(decreases_to!(*j => j->Arr_0));
                    assert(decreases_to!(*items => items@[i as int]));
                }
                let c: Json = json_clone(&items[i]);
                out.push(c);
                i = i + 1;
            }
            proof {
                lemma_arr_view_index(out@);
                lemma_arr_view_index(items@);
                assert(arr_view(out@) =~= arr_view(items@));
            }
            Json::Arr(out)
        },
        Json::Obj(fields) => {
            let n: usize = fields.len();
            let mut out: Vec<(String, Json)> = Vec::new();
            let mut i: usize = 0;
            while i < n
                invariant
                    n == fields.len(),
                    i <= n,
                    out@.len() == i,
                    forall|k: int| 0 <= k < i ==> out@[k].0@ == fields@[k].0@ && json_view(
                        out@[k].1,
                    ) == json_view(fields@[k].1),
                decreases n - i,
            {
                proof {
                    assert(j->Obj_0 == *fields);
                    assert(decreases_to!(*j => j->Obj_0));
                    assert(decreases_to!(*fields => fields@[i as int]));
                    assert(decreases_to!(fields@[i as int] => fields@[i as int].1));
                }
                let ks: String = fields[i].0.clone();
                let c: Json = json_clone(&fields[i].1);
                out.push((ks, c));
                i = i + 1;
            }
            proof {
                lemma_obj_view_index(out@);
                lemma_obj_view_index(fields@);
                assert(obj_view(out@) =~= obj_view(fields@));
            }
            Json::Obj(out)
        },
    }
}

/// Serializes `j` to its canonical one-line text.
pub fn to_text(j: &Json) -> (out: String)
    ensures
        out@ == jtext(j@),
{
    let mut buf: Vec<char> = Vec::new();
    push_json(&mut buf, j);
    chars_string(&buf)
}

// Well-formed values: every number fits the executable representation. The
// view of every executable value is well formed, and only well-formed values
// can come out of a parse.

pub open spec fn wf_json(j: JsonV) -> bool
    decreases j,
{
    match j {
        JsonV::Null => true,
        JsonV::Bool(_) => true,
        JsonV::Int(n) => i64::MIN <= n <= i64::MAX,
        JsonV::Str(_) => true,
        JsonV::Arr(items) => wf_arr(items),
        JsonV::Obj(fields) => wf_obj(fields),
    }
}

pub open spec fn wf_arr(items: Seq<JsonV>) -> bool
    decreases items,
{
    items.len() == 0 || (wf_json(items[0]) && wf_arr(items.drop_first()))
}

pub open spec fn wf_obj(fields: Seq<(Seq<char>, JsonV)>) -> bool
    decreases fields,
{
    fields.len() == 0 || (wf_json(fields[0].1) && wf_obj(fields.drop_first()))
}

/// The view of every executable value is well formed.
pub proof fn lemma_json_view_wf(j: Json)
    ensures
        wf_json(json_view(j)),
    decreases j,
{
    match j {
        Json::Arr(items) => {
            lemma_arr_view_wf(items@);
        },
        Json::Obj(fields) => {
            lemma_obj_view_wf(fields@);
        },
        _ => {},
    }
}

proof fn lemma_arr_view_wf(items: Seq<Json>)
    ensures
        wf_arr(arr_view(items)),
    decreases items,
{
    if items.len() > 0 {
        lemma_json_view_wf(items[0]);
        lemma_arr_view_wf(items.drop_first());
        assert(arr_view(items)[0] == json_view(items[0]));
        assert(arr_view(items).drop_first() =~= arr_view(items.drop_first()));
    }
}

proof fn lemma_obj_view_wf(fields: Seq<(String, Json)>)
    ensures
        wf_obj(obj_view(fields)),
    decreases fields,
{
    if fields.len() > 0 {
        lemma_json_view_wf(fields[0].1);
        lemma_obj_view_wf(fields.drop_first());
        assert(obj_view(fields)[0] == (fields[0].0@, json_view(fields[0].1)));
        assert(obj_view(fields).drop_first() =~= obj_view(fields.drop_first()));
    }
}

// ---------------------------------------------------------------------------
// Facts about the canonical texts that drive the parser's completeness.
// ---------------------------------------------------------------------------

pub open spec fn is_digit_c(c: char) -> bool {
    '0' <= c && c <= '9'
}

/// The digits of a nonnegative number are digit characters.
proof fn lemma_dec_digits_digits(n: int)
    requires
        n >= 0,
    ensures
        dec_digits(n).len() > 0,
        forall|k: int| 0 <= k < dec_digits(n).len() ==> is_digit_c(#[trigger] dec_digits(n)[k]),
    decreases n,
{
    if n < 10 {
        assert(dec_digits(n)[0] == digit_char(n));
        assert(is_digit_c(digit_char(n)));
    } else {
        lemma_dec_digits_digits(n / 10);
        assert(is_digit_c(digit_char(n % 10)));
        assert(forall|k: int|
            0 <= k < dec_digits(n / 10).len() ==> dec_digits(n)[k] == dec_digits(n / 10)[k]);
        assert(dec_digits(n).last() == digit_char(n % 10));
    }
}

/// The first character of a canonical text names the value's variant.
proof fn lemma_jtext_first(jv: JsonV)
    ensures
        jtext(jv).len() > 0,
        (jv is Null) ==> jtext(jv)[0] == 'n',
        (jv is Bool) ==> (jtext(jv)[0] == 't' || jtext(jv)[0] == 'f'),
        (jv is Int) ==> (jtext(jv)[0] == '-' || is_digit_c(jtext(jv)[0])),
        (jv is Str) ==> jtext(jv)[0] == '"',
        (jv is Arr) ==> jtext(jv)[0] == '[',
        (jv is Obj) ==> jtext(jv)[0] == '{',
{
    match jv {
        JsonV::Int(n) => {
            if n >= 0 {
                lemma_dec_digits_digits(n);
            } else {
                lemma_dec_digits_digits(-n);
            }
        },
        _ => {},
    }
}

/// Left-to-right digit accumulation, as the parser performs it.
pub open spec fn val_app(acc: int, ds: Seq<char>) -> int
    decreases ds.len(),
{
    if ds.len() == 0 {
        acc
    } else {
        val_app(acc * 10 + (ds[0] as int - 48), ds.drop_first())
    }
}

proof fn lemma_val_app_snoc(acc: int, ds: Seq<char>, c: char)
    ensures
        val_app(acc, ds.push(c)) == val_app(acc, ds) * 10 + (c as int - 48),
    decreases ds.len(),
{
    if ds.len() == 0 {
        assert(ds.push(c)[0] == c);
        assert(ds.push(c).drop_first() =~= Seq::<char>::empty());
        assert(val_app(acc * 10 + (c as int - 48), ds.push(c).drop_first()) == acc * 10 + (c
            as int - 48));
    } else {
        lemma_val_app_snoc(acc * 10 + (ds[0] as int - 48), ds.drop_first(), c);
        assert(ds.push(c)[0] == ds[0]);
        assert(ds.push(c).drop_first() =~= ds.drop_first().push(c));
    }
}

/// Accumulating the canonical digits of `n` onto zero reads back `n`.
proof fn lemma_val_app_dec_digits(n: int)
    requires
        n >= 0,
    ensures
        val_app(0, dec_digits(n)) == n,
    decreases n,
{
    if n < 10 {
        assert(digit_char(n) as int == 48 + n);
        assert(dec_digits(n)[0] == digit_char(n));
        assert(dec_digits(n).drop_first() =~= Seq::<char>::empty());
        assert(val_app(0 * 10 + (digit_char(n) as int - 48), dec_digits(n).drop_first()) == n);
    } else {
        lemma_val_app_dec_digits(n / 10);
        lemma_val_app_snoc(0, dec_digits(n / 10), digit_char(n % 10));
        assert(digit_char(n % 10) as int == 48 + n % 10);
    }
}

/// Accumulation over digit characters never shrinks the accumulator.
proof fn lemma_val_app_mono(acc: int, ds: Seq<char>)
    requires
        acc >= 0,
        forall|k: int| 0 <= k < ds.len() ==> is_digit_c(#[trigger] ds[k]),
    ensures
        val_app(acc, ds) >= acc,
    decreases ds.len(),
{
    if ds.len() > 0 {
        assert(is_digit_c(ds[0]));
        assert(forall|k: int|
            0 <= k < ds.drop_first().len() ==> is_digit_c(#[trigger] ds.drop_first()[k]));
        lemma_val_app_mono(acc * 10 + (ds[0] as int - 48), ds.drop_first());
    }
}

// ---------------------------------------------------------------------------
// Parser. It accepts exactly the canonical grammar above — object fields in
// any order, since an object is read as its field list — and nothing else:
// `from_text` re-serializes what the functions below accepted and keeps the
// value only if that text is the input. Each function's contract has two
// sides: whatever comes out lies within bounds, and on a canonical text the
// parse must succeed with exactly the value that text spells.
// ---------------------------------------------------------------------------

/// Splits a window of `s` that spells `pre + rest` into its two parts.
proof fn lemma_strip_prefix(s: Seq<char>, i: int, end: int, pre: Seq<char>, rest: Seq<char>)
    requires
        0 <= i,
        i + pre.len() + rest.len() == end,
        end <= s.len(),
        s.subrange(i, end) == pre + rest,
    ensures
        s.subrange(i, i + pre.len()) == pre,
        s.subrange(i + pre.len(), end) == rest,
        pre.len() > 0 ==> s[i] == pre[0],
        rest.len() > 0 ==> s[i + pre.len()] == rest[0],
{
    assert forall|k: int| 0 <= k < pre.len() implies s.subrange(i, i + pre.len())[k] == pre[k] by {
        assert(s.subrange(i, end)[k] == s[i + k]);
        assert(s.subrange(i, i + pre.len())[k] == s[i + k]);
        assert((pre + rest)[k] == pre[k]);
    }
    assert(s.subrange(i, i + pre.len()) =~= pre);
    assert forall|k: int|
        0 <= k < rest.len() implies s.subrange(i + pre.len(), end)[k] == rest[k] by {
        assert(s.subrange(i, end)[k + pre.len()] == s[i + pre.len() + k]);
        assert(s.subrange(i + pre.len(), end)[k] == s[i + pre.len() + k]);
        assert((pre + rest)[k + pre.len()] == rest[k]);
    }
    assert(s.subrange(i + pre.len(), end) =~= rest);
    if pre.len() > 0 {
        assert(s[i] == s.subrange(i, end)[0]);
    }
    if rest.len() > 0 {
        assert(s.subrange(i + pre.len(), end)[0] == s[i + pre.len()]);
    }
}

/// The canonical text of `jv` stands at `i`, ending at `end`; nothing that
/// could extend a number follows it.
pub open spec fn parses_at(s: Seq<char>, i: int, jv: JsonV, end: int) -> bool {
    &&& wf_json(jv)
    &&& 0 <= i
    &&& end == i + jtext(jv).len()
    &&& end <= s.len()
    &&& s.subrange(i, end) == jtext(jv)
    &&& (end == s.len() || !is_digit_c(s[end]))
}

/// A maximal run of digit characters stands on [j, end).
spec fn digits_end_at(s: Seq<char>, j: int, ds: Seq<char>, end: int) -> bool {
    &&& 0 <= j
    &&& end == j + ds.len()
    &&& end <= s.len()
    &&& (forall|k: int| 0 <= k < ds.len() ==> is_digit_c(#[trigger] ds[k]))
    &&& s.subrange(j, end) == ds
    &&& (end == s.len() || !is_digit_c(s[end]))
}

/// The escaped body of a string literal stands on [j, end), closing quote
/// included.
spec fn str_body_at(s: Seq<char>, j: int, sv: Seq<char>, end: int) -> bool {
    &&& 0 <= j
    &&& end == j + esc(sv).len() + 1
    &&& end <= s.len()
    &&& s.subrange(j, end) == esc(sv) + seq!['"']
}

/// A whole string literal stands on [i, end).
spec fn str_at(s: Seq<char>, i: int, sv: Seq<char>, end: int) -> bool {
    &&& 0 <= i
    &&& end == i + str_text(sv).len()
    &&& end <= s.len()
    &&& s.subrange(i, end) == str_text(sv)
}

/// A canonical number stands on [i, end), with nothing extending it.
spec fn int_at(s: Seq<char>, i: int, n: int, end: int) -> bool {
    &&& i64::MIN <= n <= i64::MAX
    &&& 0 <= i
    &&& end == i + int_text(n).len()
    &&& end <= s.len()
    &&& s.subrange(i, end) == int_text(n)
    &&& (end == s.len() || !is_digit_c(s[end]))
}

/// One or more array elements stand on [j, end), closing bracket included.
spec fn items_at(s: Seq<char>, j: int, items: Seq<JsonV>, end: int) -> bool {
    &&& 0 <= j
    &&& items.len() > 0
    &&& wf_arr(items)
    &&& end == j + arr_text(items).len() + 1
    &&& end <= s.len()
    &&& s.subrange(j, end) == arr_text(items) + seq![']']
}

/// One or more object fields stand on [j, end), closing brace included.
spec fn fields_at(s: Seq<char>, j: int, fields: Seq<(Seq<char>, JsonV)>, end: int) -> bool {
    &&& 0 <= j
    &&& fields.len() > 0
    &&& wf_obj(fields)
    &&& end == j + obj_text(fields).len() + 1
    &&& end <= s.len()
    &&& s.subrange(j, end) == obj_text(fields) + seq!['}']
}

fn is_digit(c: char) -> (r: bool)
    ensures
        r == is_digit_c(c),
{
    '0' <= c && c <= '9'
}

fn digit_val(c: char) -> (r: u64)
    requires
        is_digit_c(c),
    ensures
        r == c as int - 48,
{
    (c as u64) - 48
}

/// Consumes the maximal digit run from `j`, folding it onto `acc`; fails only
/// past the greatest `u64`.
fn parse_digits(s: &Vec<char>, j: usize, acc: u64) -> (r: Option<(u64, usize)>)
    requires
        j <= s@.len(),
    ensures
        match r {
            Some(p) => j <= p.1 <= s@.len(),
            None => true,
        },
        j < s@.len() && is_digit_c(s@[j as int]) ==> (match r {
            Some(p) => j < p.1,
            None => true,
        }),
        forall|ds: Seq<char>, end: int|
            digits_end_at(s@, j as int, ds, end) && val_app(acc as int, ds) <= u64::MAX
                ==> (match r {
                Some(p) => p.0 == val_app(acc as int, ds) && p.1 == end,
                None => false,
            }),
    decreases s@.len() - j,
{
    let n: usize = s.len();
    if j < n && is_digit(s[j]) {
        let d: u64 = digit_val(s[j]);
        if acc > 1844674407370955161u64 || (acc == 1844674407370955161u64 && d > 5) {
            proof {
                assert forall|ds: Seq<char>, end: int|
                    digits_end_at(s@, j as int, ds, end) && val_app(acc as int, ds)
                        <= u64::MAX implies false by {
                    assert(ds.len() > 0);
                    assert(ds[0] == s@[j as int]);
                    assert(forall|k: int|
                        0 <= k < ds.drop_first().len() ==> is_digit_c(
                            #[trigger] ds.drop_first()[k],
                        ));
                    lemma_val_app_mono(acc as int * 10 + (ds[0] as int - 48), ds.drop_first());
                }
            }
            None
        } else {
            let r2 = parse_digits(s, j + 1, acc * 10 + d);
            proof {
                assert forall|ds: Seq<char>, end: int|
                    digits_end_at(s@, j as int, ds, end) && val_app(acc as int, ds)
                        <= u64::MAX implies (match r2 {
                    Some(p) => p.0 == val_app(acc as int, ds) && p.1 == end,
                    None => false,
                }) by {
                    assert(ds.len() > 0);
                    assert(ds[0] == s@[j as int]);
                    assert(s@.subrange(j + 1, end) =~= ds.drop_first());
                    assert(forall|k: int|
                        0 <= k < ds.drop_first().len() ==> is_digit_c(
                            #[trigger] ds.drop_first()[k],
                        ));
                    assert(digits_end_at(s@, j as int + 1, ds.drop_first(), end));
                    assert(val_app((acc * 10 + d) as int, ds.drop_first()) == val_app(
                        acc as int,
                        ds,
                    ));
                }
            }
            r2
        }
    } else {
        proof {
            assert forall|ds: Seq<char>, end: int|
                digits_end_at(s@, j as int, ds, end) && val_app(acc as int, ds)
                    <= u64::MAX implies (acc == val_app(acc as int, ds) && j as int == end) by {
                if ds.len() > 0 {
                    assert(ds[0] == s@[j as int]);
                    assert(is_digit_c(s@[j as int]));
                }
            }
        }
        Some((acc, j))
    }
}

/// Parses a signed decimal number starting at `i`.
fn parse_int(s: &Vec<char>, i: usize) -> (r: Option<(i64, usize)>)
    requires
        i < s@.len(),
    ensures
        match r {
            Some(p) => i < p.1 <= s@.len(),
            None => true,
        },
        forall|n: int, end: int|
            int_at(s@, i as int, n, end) ==> (match r {
                Some(p) => p.0 == n && p.1 == end,
                None => false,
            }),
{
    let n: usize = s.len();
    let neg: bool = s[i] == '-';
    let start: usize = if neg {
        i + 1
    } else {
        i
    };
    if start >= n || !is_digit(s[start]) {
        proof {
            assert forall|m: int, end: int| int_at(s@, i as int, m, end) implies false by {
                lemma_int_at_shape(s@, i as int, m, end);
            }
        }
        return None;
    }
    match parse_digits(s, start, 0) {
        Some((acc, j)) => {
            proof {
                assert forall|m: int, end: int| int_at(s@, i as int, m, end) implies ((if m >= 0 {
                    acc == m
                } else {
                    acc == -m
                }) && j as int == end && (m >= 0 <==> !neg)) by {
                    lemma_int_at_shape(s@, i as int, m, end);
                    let mag: int = if m >= 0 {
                        m
                    } else {
                        -m
                    };
                    lemma_val_app_dec_digits(mag);
                    assert(digits_end_at(s@, start as int, dec_digits(mag), end));
                    assert(mag <= u64::MAX);
                }
            }
            if neg {
                if acc == 9223372036854775808u64 {
                    Some((i64::MIN, j))
                } else if acc <= 9223372036854775807u64 {
                    Some((-(acc as i64), j))
                } else {
                    proof {
                        assert forall|m: int, end: int|
                            int_at(s@, i as int, m, end) implies false by {
                            lemma_int_at_shape(s@, i as int, m, end);
                        }
                    }
                    None
                }
            } else {
                if acc <= 9223372036854775807u64 {
                    Some((acc as i64, j))
                } else {
                    proof {
                        assert forall|m: int, end: int|
                            int_at(s@, i as int, m, end) implies false by {
                            lemma_int_at_shape(s@, i as int, m, end);
                        }
                    }
                    None
                }
            }
        },
        None => {
            proof {
                assert forall|m: int, end: int| int_at(s@, i as int, m, end) implies false by {
                    lemma_int_at_shape(s@, i as int, m, end);
                    let mag: int = if m >= 0 {
                        m
                    } else {
                        -m
                    };
                    lemma_val_app_dec_digits(mag);
                    assert(digits_end_at(s@, start as int, dec_digits(mag), end));
                    assert(mag <= u64::MAX);
                }
            }
            None
        },
    }
}

/// Unpacks what `int_at` says about the text: the optional sign, then the
/// digits of the magnitude as a maximal run.
proof fn lemma_int_at_shape(s: Seq<char>, i: int, m: int, end: int)
    requires
        int_at(s, i, m, end),
    ensures
        m >= 0 ==> (i < s.len() && is_digit_c(s[i]) && s[i] != '-' && digits_end_at(
            s,
            i,
            dec_digits(m),
            end,
        )),
        m < 0 ==> (i + 1 < s.len() && s[i] == '-' && is_digit_c(s[i + 1]) && digits_end_at(
            s,
            i + 1,
            dec_digits(-m),
            end,
        )),
{
    if m >= 0 {
        lemma_dec_digits_digits(m);
        assert(s.subrange(i, end) == int_text(m));
        assert(int_text(m) =~= Seq::<char>::empty() + dec_digits(m));
        lemma_strip_prefix(s, i, end, Seq::empty(), dec_digits(m));
        assert(s[i] == dec_digits(m)[0]);
        assert(is_digit_c(s[i]));
    } else {
        lemma_dec_digits_digits(-m);
        assert(s.subrange(i, end) == int_text(m));
        assert(int_text(m) =~= seq!['-'] + dec_digits(-m));
        lemma_strip_prefix(s, i, end, seq!['-'], dec_digits(-m));
        assert(s[i + 1] == dec_digits(-m)[0]);
        assert(is_digit_c(s[i + 1]));
    }
}

/// Parses the body of a string literal from just after the opening quote,
/// through the closing quote.
#[verifier::rlimit(100)]
fn parse_str_tail(s: &Vec<char>, j: usize) -> (r: Option<(Vec<char>, usize)>)
    requires
        j <= s@.len(),
    ensures
        match r {
            Some(p) => j < p.1 <= s@.len(),
            None => true,
        },
        forall|sv: Seq<char>, end: int|
            str_body_at(s@, j as int, sv, end) ==> (match r {
                Some(p) => p.0@ == sv && p.1 == end,
                None => false,
            }),
    decreases s@.len() - j,
{
    let n: usize = s.len();
    if j >= n {
        proof {
            assert forall|sv: Seq<char>, end: int|
                str_body_at(s@, j as int, sv, end) implies false by {}
        }
        return None;
    }
    let c: char = s[j];
    proof {
        lemma_str_body_head(s@, j as int);
    }
    if c == '"' {
        let buf: Vec<char> = Vec::new();
        Some((buf, j + 1))
    } else if c == '\\' {
        if j + 1 >= n {
            return None;
        }
        let e: char = s[j + 1];
        let mapped: char = if e == '"' {
            '"'
        } else if e == '\\' {
            '\\'
        } else if e == 'n' {
            '\n'
        } else if e == 'r' {
            '\r'
        } else if e == 't' {
            '\t'
        } else {
            return None;
        };
        match parse_str_tail(s, j + 2) {
            Some((mut buf, end2)) => {
                buf.insert(0, mapped);
                Some((buf, end2))
            },
            None => None,
        }
    } else if c == '\n' || c == '\r' || c == '\t' {
        None
    } else {
        match parse_str_tail(s, j + 1) {
            Some((mut buf, end2)) => {
                buf.insert(0, c);
                Some((buf, end2))
            },
            None => None,
        }
    }
}

/// How a string body's first character constrains the decoded text: the
/// escaped form of `sv` plus the closing quote starts with `"` exactly when
/// `sv` is empty, with a backslash exactly when `sv` starts with an escaped
/// character, and otherwise with that character itself.
proof fn lemma_str_body_head(s: Seq<char>, j: int)
    ensures
        forall|sv: Seq<char>, end: int|
            #[trigger] str_body_at(s, j, sv, end) && sv.len() == 0 ==> s[j] == '"' && end == j + 1,
        forall|sv: Seq<char>, end: int|
            #[trigger] str_body_at(s, j, sv, end) && sv.len() > 0 ==> s[j] == esc_char(sv[0])[0]
                && s[j] != '"' && str_body_at(s, j + esc_char(sv[0]).len(), sv.drop_first(), end),
        forall|sv: Seq<char>, end: int|
            #[trigger] str_body_at(s, j, sv, end) && sv.len() > 0 && esc_char(sv[0]).len() == 2
                ==> j + 1 < s.len() && s[j + 1] == esc_char(sv[0])[1],
{
    assert forall|sv: Seq<char>, end: int|
        #[trigger] str_body_at(s, j, sv, end) && sv.len() == 0 implies s[j] == '"' && end == j
        + 1 by {
        assert(s.subrange(j, end) == esc(sv) + seq!['"']);
        assert((esc(sv) + seq!['"'])[0] == '"');
        assert(s[j] == s.subrange(j, end)[0]);
    }
    assert forall|sv: Seq<char>, end: int|
        #[trigger] str_body_at(s, j, sv, end) && sv.len() > 0 implies s[j] == esc_char(sv[0])[0]
        && s[j] != '"' && str_body_at(s, j + esc_char(sv[0]).len(), sv.drop_first(), end) by {
        assert(esc(sv) =~= esc_char(sv[0]) + esc(sv.drop_first()));
        assert(esc(sv) + seq!['"'] =~= esc_char(sv[0]) + (esc(sv.drop_first()) + seq!['"']));
        lemma_strip_prefix(s, j, end, esc_char(sv[0]), esc(sv.drop_first()) + seq!['"']);
    }
    assert forall|sv: Seq<char>, end: int|
        #[trigger] str_body_at(s, j, sv, end) && sv.len() > 0 && esc_char(sv[0]).len()
            == 2 implies j + 1 < s.len() && s[j + 1] == esc_char(sv[0])[1] by {
        assert(esc(sv) =~= esc_char(sv[0]) + esc(sv.drop_first()));
        assert(esc(sv) + seq!['"'] =~= esc_char(sv[0]) + (esc(sv.drop_first()) + seq!['"']));
        lemma_strip_prefix(s, j, end, esc_char(sv[0]), esc(sv.drop_first()) + seq!['"']);
        assert(s.subrange(j, j + 2)[1] == s[j + 1]);
        assert(esc_char(sv[0])[1] == s.subrange(j, j + 2)[1]);
    }
}

/// Parses a string literal starting at `i` (which must hold `"`); returns the
/// decoded contents and the position after the closing quote.
fn parse_str_lit(s: &Vec<char>, i: usize) -> (r: Option<(String, usize)>)
    requires
        i < s@.len(),
    ensures
        match r {
            Some(p) => i < p.1 <= s@.len(),
            None => true,
        },
        forall|sv: Seq<char>, end: int|
            str_at(s@, i as int, sv, end) ==> (match r {
                Some(p) => p.0@ == sv && p.1 == end,
                None => false,
            }),
{
    proof {
        assert forall|sv: Seq<char>, end: int|
            str_at(s@, i as int, sv, end) implies s@[i as int] == '"' && str_body_at(
            s@,
            i as int + 1,
            sv,
            end,
        ) by {
            assert(s@.subrange(i as int, end) == str_text(sv));
            assert(str_text(sv) =~= seq!['"'] + (esc(sv) + seq!['"']));
            lemma_strip_prefix(s@, i as int, end, seq!['"'], esc(sv) + seq!['"']);
        }
    }
    let n: usize = s.len();
    assert(i < n);
    if s[i] != '"' {
        return None;
    }
    match parse_str_tail(s, i + 1) {
        Some((buf, end)) => Some((chars_string(&buf), end)),
        None => None,
    }
}

/// Checks that the characters of `lit` stand at `i`.
fn has_at(s: &Vec<char>, i: usize, lit: &Vec<char>) -> (r: bool)
    requires
        i <= s@.len(),
    ensures
        r <==> (i + lit@.len() <= s@.len() && s@.subrange(
            i as int,
            i as int + lit@.len() as int,
        ) == lit@),
{
    let n: usize = s.len();
    let m: usize = lit.len();
    if m > n - i {
        proof {
            assert(i + lit@.len() > s@.len());
        }
        return false;
    }
    let mut k: usize = 0;
    while k < m
        invariant
            m == lit@.len(),
            n == s@.len(),
            i + m <= n,
            k <= m,
            forall|t: int| 0 <= t < k ==> s@[i + t] == lit@[t],
        decreases m - k,
    {
        if s[i + k] != lit[k] {
            proof {
                assert(s@.subrange(i as int, i as int + lit@.len() as int)[k as int] != lit@[
                    k as int]);
            }
            return false;
        }
        k = k + 1;
    }
    proof {
        assert(s@.subrange(i as int, i as int + lit@.len() as int) =~= lit@);
    }
    true
}

/// Parses the elements of a non-empty array from just after the opening
/// bracket, through the closing bracket.
fn parse_items(s: &Vec<char>, j: usize) -> (r: Option<(Vec<Json>, usize)>)
    requires
        j <= s@.len(),
    ensures
        match r {
            Some(p) => j < p.1 <= s@.len(),
            None => true,
        },
        forall|items: Seq<JsonV>, end: int|
            items_at(s@, j as int, items, end) ==> (match r {
                Some(p) => arr_view(p.0@) == items && p.1 == end,
                None => false,
            }),
    decreases s@.len() - j, 1int,
{
    let n: usize = s.len();
    let first = parse_value(s, j);
    proof {
        lemma_items_at_head(s@, j as int);
    }
    match first {
        Some((v, j2)) => {
            if j2 < n && s[j2] == ',' {
                let rest = parse_items(s, j2 + 1);
                match rest {
                    Some((mut vec, end2)) => {
                        let ghost prev: Seq<Json> = vec@;
                        vec.insert(0, v);
                        proof {
                            assert(vec@ =~= seq![v] + prev);
                            assert forall|items: Seq<JsonV>, end: int|
                                items_at(s@, j as int, items, end) implies (arr_view(vec@) == items
                                && end2 == end) by {
                                assert(parses_at(
                                    s@,
                                    j as int,
                                    items[0],
                                    j + jtext(items[0]).len(),
                                ));
                                assert(v@ == items[0] && j2 == j + jtext(items[0]).len());
                                assert(items.len() > 1);
                                assert(items_at(s@, j2 as int + 1, items.drop_first(), end));
                                assert(arr_view(prev) == items.drop_first());
                                assert(vec@[0] == v);
                                assert(vec@.drop_first() =~= prev);
                                assert(arr_view(vec@) =~= seq![json_view(v)] + arr_view(prev));
                                assert(items =~= seq![items[0]] + items.drop_first());
                            }
                        }
                        Some((vec, end2))
                    },
                    None => None,
                }
            } else if j2 < n && s[j2] == ']' {
                let mut vec: Vec<Json> = Vec::new();
                vec.insert(0, v);
                proof {
                    assert(vec@ =~= seq![v]);
                    assert(vec@.drop_first() =~= Seq::<Json>::empty());
                    assert(arr_view(vec@.drop_first()) == Seq::<JsonV>::empty());
                    assert(arr_view(vec@) =~= seq![json_view(v)]);
                    assert forall|items: Seq<JsonV>, end: int|
                        items_at(s@, j as int, items, end) implies (arr_view(vec@) == items && j2
                        + 1 == end) by {
                        assert(parses_at(s@, j as int, items[0], j + jtext(items[0]).len()));
                        assert(v@ == items[0] && j2 == j + jtext(items[0]).len());
                        assert(items.len() == 1);
                        assert(arr_view(vec@) =~= items);
                    }
                }
                Some((vec, j2 + 1))
            } else {
                proof {
                    assert forall|items: Seq<JsonV>, end: int|
                        items_at(s@, j as int, items, end) implies false by {
                        assert(parses_at(s@, j as int, items[0], j + jtext(items[0]).len()));
                        assert(v@ == items[0] && j2 == j + jtext(items[0]).len());
                    }
                }
                None
            }
        },
        None => {
            proof {
                assert forall|items: Seq<JsonV>, end: int|
                    items_at(s@, j as int, items, end) implies false by {
                    assert(parses_at(s@, j as int, items[0], j + jtext(items[0]).len()));
                }
            }
            None
        },
    }
}

/// What a non-empty element list's text says about its head: the head's
/// canonical text stands first, followed by a comma (more elements) or the
/// closing bracket (last element).
proof fn lemma_items_at_head(s: Seq<char>, j: int)
    ensures
        forall|items: Seq<JsonV>, end: int|
            #[trigger] items_at(s, j, items, end) ==> {
                let e0 = j + jtext(items[0]).len();
                &&& parses_at(s, j, items[0], e0)
                &&& (items.len() == 1 ==> e0 < s.len() && s[e0] == ']' && end == e0 + 1)
                &&& (items.len() > 1 ==> e0 < s.len() && s[e0] == ',' && items_at(
                    s,
                    e0 + 1,
                    items.drop_first(),
                    end,
                ))
            },
{
    assert forall|items: Seq<JsonV>, end: int| #[trigger] items_at(s, j, items, end) implies {
        let e0 = j + jtext(items[0]).len();
        &&& parses_at(s, j, items[0], e0)
        &&& (items.len() == 1 ==> e0 < s.len() && s[e0] == ']' && end == e0 + 1)
        &&& (items.len() > 1 ==> e0 < s.len() && s[e0] == ',' && items_at(
            s,
            e0 + 1,
            items.drop_first(),
            end,
        ))
    } by {
        let e0 = j + jtext(items[0]).len();
        assert(wf_json(items[0]));
        if items.len() == 1 {
            assert(arr_text(items) == jtext(items[0]));
            assert(arr_text(items) + seq![']'] =~= jtext(items[0]) + seq![']']);
            lemma_strip_prefix(s, j, end, jtext(items[0]), seq![']']);
            assert(s[e0] == ']');
            assert(!is_digit_c(']'));
            assert(parses_at(s, j, items[0], e0));
        } else {
            assert(arr_text(items) == jtext(items[0]) + seq![','] + arr_text(items.drop_first()));
            assert(arr_text(items) + seq![']'] =~= jtext(items[0]) + (seq![','] + (arr_text(
                items.drop_first(),
            ) + seq![']'])));
            lemma_strip_prefix(
                s,
                j,
                end,
                jtext(items[0]),
                seq![','] + (arr_text(items.drop_first()) + seq![']']),
            );
            assert(s[e0] == ',');
            assert(!is_digit_c(','));
            assert(parses_at(s, j, items[0], e0));
            lemma_strip_prefix(s, e0, end, seq![','], arr_text(items.drop_first()) + seq![']']);
            assert(items.drop_first().len() > 0);
            assert(wf_arr(items.drop_first()));
            assert(items_at(s, e0 + 1, items.drop_first(), end));
        }
    }
}

/// Parses the fields of a non-empty object from just after the opening
/// brace, through the closing brace.
fn parse_fields(s: &Vec<char>, j: usize) -> (r: Option<(Vec<(String, Json)>, usize)>)
    requires
        j <= s@.len(),
    ensures
        match r {
            Some(p) => j < p.1 <= s@.len(),
            None => true,
        },
        forall|fields: Seq<(Seq<char>, JsonV)>, end: int|
            fields_at(s@, j as int, fields, end) ==> (match r {
                Some(p) => obj_view(p.0@) == fields && p.1 == end,
                None => false,
            }),
    decreases s@.len() - j, 1int,
{
    let n: usize = s.len();
    proof {
        lemma_fields_at_head(s@, j as int);
    }
    if j >= n {
        return None;
    }
    let key = parse_str_lit(s, j);
    match key {
        Some((k, jk)) => {
            if jk < n && s[jk] == ':' {
                let val = parse_value(s, jk + 1);
                match val {
                    Some((v, j2)) => {
                        if j2 < n && s[j2] == ',' {
                            let rest = parse_fields(s, j2 + 1);
                            match rest {
                                Some((mut vec, end2)) => {
                                    let ghost prev: Seq<(String, Json)> = vec@;
                                    let ghost kv: Seq<char> = k@;
                                    vec.insert(0, (k, v));
                                    proof {
                                        assert(vec@ =~= seq![(vec@[0].0, vec@[0].1)] + prev);
                                        assert forall|fields: Seq<(Seq<char>, JsonV)>, end: int|
                                            fields_at(s@, j as int, fields, end) implies (obj_view(
                                            vec@,
                                        ) == fields && end2 == end) by {
                                            lemma_fields_at_head_use(s@, j as int, fields, end);
                                            assert(kv == fields[0].0);
                                            assert(v@ == fields[0].1);
                                            assert(fields.len() > 1);
                                            assert(obj_view(prev) == fields.drop_first());
                                            assert(vec@[0].0@ == kv && json_view(vec@[0].1)
                                                == v@);
                                            assert(vec@.drop_first() =~= prev);
                                            assert(obj_view(vec@) =~= seq![
                                                (vec@[0].0@, json_view(vec@[0].1)),
                                            ] + obj_view(prev));
                                            assert(fields[0] == (fields[0].0, fields[0].1));
                                            assert(fields =~= seq![fields[0]]
                                                + fields.drop_first());
                                        }
                                    }
                                    Some((vec, end2))
                                },
                                None => None,
                            }
                        } else if j2 < n && s[j2] == '}' {
                            let mut vec: Vec<(String, Json)> = Vec::new();
                            let ghost kv: Seq<char> = k@;
                            vec.insert(0, (k, v));
                            proof {
                                assert(vec@.len() == 1);
                                assert(vec@.drop_first() =~= Seq::<(String, Json)>::empty());
                                assert(obj_view(vec@.drop_first()) == Seq::<(
                                    Seq<char>,
                                    JsonV,
                                )>::empty());
                                assert(obj_view(vec@) =~= seq![(vec@[0].0@, json_view(vec@[0].1))]);
                                assert forall|fields: Seq<(Seq<char>, JsonV)>, end: int|
                                    fields_at(s@, j as int, fields, end) implies (obj_view(vec@)
                                    == fields && j2 + 1 == end) by {
                                    lemma_fields_at_head_use(s@, j as int, fields, end);
                                    assert(kv == fields[0].0);
                                    assert(v@ == fields[0].1);
                                    assert(fields.len() == 1);
                                    assert(vec@[0].0@ == kv && json_view(vec@[0].1) == v@);
                                    assert(fields[0] == (fields[0].0, fields[0].1));
                                    assert(obj_view(vec@) =~= fields);
                                }
                            }
                            Some((vec, j2 + 1))
                        } else {
                            proof {
                                assert forall|fields: Seq<(Seq<char>, JsonV)>, end: int|
                                    fields_at(s@, j as int, fields, end) implies false by {
                                    lemma_fields_at_head_use(s@, j as int, fields, end);
                                }
                            }
                            None
                        }
                    },
                    None => {
                        proof {
                            assert forall|fields: Seq<(Seq<char>, JsonV)>, end: int|
                                fields_at(s@, j as int, fields, end) implies false by {
                                lemma_fields_at_head_use(s@, j as int, fields, end);
                            }
                        }
                        None
                    },
                }
            } else {
                proof {
                    assert forall|fields: Seq<(Seq<char>, JsonV)>, end: int|
                        fields_at(s@, j as int, fields, end) implies false by {
                        lemma_fields_at_head_use(s@, j as int, fields, end);
                    }
                }
                None
            }
        },
        None => {
            proof {
                assert forall|fields: Seq<(Seq<char>, JsonV)>, end: int|
                    fields_at(s@, j as int, fields, end) implies false by {
                    lemma_fields_at_head_use(s@, j as int, fields, end);
                }
            }
            None
        },
    }
}

/// What a non-empty field list's text says about its head field: the key's
/// literal, a colon, the value's canonical text, then a comma (more fields)
/// or the closing brace (last field).
proof fn lemma_fields_at_head(s: Seq<char>, j: int)
    ensures
        forall|fields: Seq<(Seq<char>, JsonV)>, end: int|
            #[trigger] fields_at(s, j, fields, end) ==> {
                let ek = j + str_text(fields[0].0).len();
                let e0 = ek + 1 + jtext(fields[0].1).len();
                &&& str_at(s, j, fields[0].0, ek)
                &&& ek < s.len() && s[ek] == ':'
                &&& parses_at(s, ek + 1, fields[0].1, e0)
                &&& (fields.len() == 1 ==> e0 < s.len() && s[e0] == '}' && end == e0 + 1)
                &&& (fields.len() > 1 ==> e0 < s.len() && s[e0] == ',' && fields_at(
                    s,
                    e0 + 1,
                    fields.drop_first(),
                    end,
                ))
            },
{
    assert forall|fields: Seq<(Seq<char>, JsonV)>, end: int|
        #[trigger] fields_at(s, j, fields, end) implies {
        let ek = j + str_text(fields[0].0).len();
        let e0 = ek + 1 + jtext(fields[0].1).len();
        &&& str_at(s, j, fields[0].0, ek)
        &&& ek < s.len() && s[ek] == ':'
        &&& parses_at(s, ek + 1, fields[0].1, e0)
        &&& (fields.len() == 1 ==> e0 < s.len() && s[e0] == '}' && end == e0 + 1)
        &&& (fields.len() > 1 ==> e0 < s.len() && s[e0] == ',' && fields_at(
            s,
            e0 + 1,
            fields.drop_first(),
            end,
        ))
    } by {
        let ek = j + str_text(fields[0].0).len();
        let e0 = ek + 1 + jtext(fields[0].1).len();
        assert(wf_json(fields[0].1));
        if fields.len() == 1 {
            assert(obj_text(fields) == str_text(fields[0].0) + seq![':'] + jtext(fields[0].1));
            assert(obj_text(fields) + seq!['}'] =~= str_text(fields[0].0) + (seq![':'] + (jtext(
                fields[0].1,
            ) + seq!['}'])));
            lemma_strip_prefix(
                s,
                j,
                end,
                str_text(fields[0].0),
                seq![':'] + (jtext(fields[0].1) + seq!['}']),
            );
            lemma_strip_prefix(s, ek, end, seq![':'], jtext(fields[0].1) + seq!['}']);
            lemma_strip_prefix(s, ek + 1, end, jtext(fields[0].1), seq!['}']);
            assert(s[ek] == ':');
            assert(s[e0] == '}');
            assert(!is_digit_c('}'));
            assert(str_at(s, j, fields[0].0, ek));
            assert(parses_at(s, ek + 1, fields[0].1, e0));
        } else {
            assert(obj_text(fields) == str_text(fields[0].0) + seq![':'] + jtext(fields[0].1)
                + seq![','] + obj_text(fields.drop_first()));
            assert(obj_text(fields) + seq!['}'] =~= str_text(fields[0].0) + (seq![':'] + (jtext(
                fields[0].1,
            ) + (seq![','] + (obj_text(fields.drop_first()) + seq!['}'])))));
            lemma_strip_prefix(
                s,
                j,
                end,
                str_text(fields[0].0),
                seq![':'] + (jtext(fields[0].1) + (seq![','] + (obj_text(fields.drop_first())
                    + seq!['}']))),
            );
            lemma_strip_prefix(
                s,
                ek,
                end,
                seq![':'],
                jtext(fields[0].1) + (seq![','] + (obj_text(fields.drop_first()) + seq!['}'])),
            );
            lemma_strip_prefix(
                s,
                ek + 1,
                end,
                jtext(fields[0].1),
                seq![','] + (obj_text(fields.drop_first()) + seq!['}']),
            );
            lemma_strip_prefix(s, e0, end, seq![','], obj_text(fields.drop_first()) + seq!['}']);
            assert(s[ek] == ':');
            assert(s[e0] == ',');
            assert(!is_digit_c(','));
            assert(str_at(s, j, fields[0].0, ek));
            assert(parses_at(s, ek + 1, fields[0].1, e0));
            assert(fields.drop_first().len() > 0);
            assert(wf_obj(fields.drop_first()));
            assert(fields_at(s, e0 + 1, fields.drop_first(), end));
        }
    }
}

/// `lemma_fields_at_head`, instantiated and combined with the callees'
/// pinned results along the successful path.
proof fn lemma_fields_at_head_use(s: Seq<char>, j: int, fields: Seq<(Seq<char>, JsonV)>, end: int)
    requires
        fields_at(s, j, fields, end),
    ensures
        ({
            let ek = j + str_text(fields[0].0).len();
            let e0 = ek + 1 + jtext(fields[0].1).len();
            &&& str_at(s, j, fields[0].0, ek)
            &&& ek < s.len() && s[ek] == ':'
            &&& parses_at(s, ek + 1, fields[0].1, e0)
            &&& (fields.len() == 1 ==> e0 < s.len() && s[e0] == '}' && end == e0 + 1)
            &&& (fields.len() > 1 ==> e0 < s.len() && s[e0] == ',' && fields_at(
                s,
                e0 + 1,
                fields.drop_first(),
                end,
            ))
        }),
{
    lemma_fields_at_head(s, j);
}

/// Parses one JSON value starting at `i`; returns the value and the position
/// just past it.
#[verifier::rlimit(100)]
fn parse_value(s: &Vec<char>, i: usize) -> (r: Option<(Json, usize)>)
    requires
        i <= s@.len(),
    ensures
        match r {
            Some(p) => i < p.1 <= s@.len(),
            None => true,
        },
        forall|jv: JsonV, end: int|
            parses_at(s@, i as int, jv, end) ==> (match r {
                Some(p) => p.0@ == jv && p.1 == end,
                None => false,
            }),
    decreases s@.len() - i, 0int,
{
    let n: usize = s.len();
    if i >= n {
        proof {
            assert forall|jv: JsonV, end: int|
                parses_at(s@, i as int, jv, end) implies false by {
                lemma_jtext_first(jv);
            }
        }
        return None;
    }
    let c: char = s[i];
    proof {
        assert forall|jv: JsonV, end: int|
            parses_at(s@, i as int, jv, end) implies s@[i as int] == jtext(jv)[0] by {
            lemma_jtext_first(jv);
            assert(s@[i as int] == s@.subrange(i as int, end)[0]);
        }
    }
    if c == 'n' {
        let lit: Vec<char> = vec!['n', 'u', 'l', 'l'];
        let ok = has_at(s, i, &lit);
        proof {
            assert(lit@ =~= seq!['n', 'u', 'l', 'l']);
            assert forall|jv: JsonV, end: int|
                parses_at(s@, i as int, jv, end) implies (jv == JsonV::Null && end == i + 4
                && ok) by {
                lemma_jtext_first(jv);
                assert(jv is Null);
                assert(s@.subrange(i as int, end) == jtext(jv));
                assert(s@.subrange(i as int, i as int + 4) =~= lit@);
            }
        }
        if ok {
            Some((Json::Null, i + 4))
        } else {
            None
        }
    } else if c == 't' {
        let lit: Vec<char> = vec!['t', 'r', 'u', 'e'];
        let ok = has_at(s, i, &lit);
        proof {
            assert(lit@ =~= seq!['t', 'r', 'u', 'e']);
            assert forall|jv: JsonV, end: int|
                parses_at(s@, i as int, jv, end) implies (jv == JsonV::Bool(true) && end == i + 4
                && ok) by {
                lemma_jtext_first(jv);
                assert(jv is Bool);
                assert(jv == JsonV::Bool(jv->Bool_0));
                if !jv->Bool_0 {
                    assert(jtext(jv)[0] == 'f');
                }
                assert(s@.subrange(i as int, end) == jtext(jv));
                assert(s@.subrange(i as int, i as int + 4) =~= lit@);
            }
        }
        if ok {
            Some((Json::Bool(true), i + 4))
        } else {
            None
        }
    } else if c == 'f' {
        let lit: Vec<char> = vec!['f', 'a', 'l', 's', 'e'];
        let ok = has_at(s, i, &lit);
        proof {
            assert(lit@ =~= seq!['f', 'a', 'l', 's', 'e']);
            assert forall|jv: JsonV, end: int|
                parses_at(s@, i as int, jv, end) implies (jv == JsonV::Bool(false) && end == i + 5
                && ok) by {
                lemma_jtext_first(jv);
                assert(jv is Bool);
                assert(jv == JsonV::Bool(jv->Bool_0));
                if jv->Bool_0 {
                    assert(jtext(jv)[0] == 't');
                }
                assert(s@.subrange(i as int, end) == jtext(jv));
                assert(s@.subrange(i as int, i as int + 5) =~= lit@);
            }
        }
        if ok {
            Some((Json::Bool(false), i + 5))
        } else {
            None
        }
    } else if c == '"' {
        let inner = parse_str_lit(s, i);
        proof {
            assert forall|jv: JsonV, end: int|
                parses_at(s@, i as int, jv, end) implies (jv is Str && str_at(
                s@,
                i as int,
                jv->Str_0,
                end,
            )) by {
                lemma_jtext_first(jv);
            }
        }
        match inner {
            Some((v, j)) => Some((Json::Str(v), j)),
            None => None,
        }
    } else if c == '-' || is_digit(c) {
        let inner = parse_int(s, i);
        proof {
            assert forall|jv: JsonV, end: int|
                parses_at(s@, i as int, jv, end) implies (jv is Int && int_at(
                s@,
                i as int,
                jv->Int_0,
                end,
            )) by {
                lemma_jtext_first(jv);
            }
        }
        match inner {
            Some((v, j)) => Some((Json::Int(v), j)),
            None => None,
        }
    } else if c == '[' {
        proof {
            assert forall|jv: JsonV, end: int|
                parses_at(s@, i as int, jv, end) implies (jv is Arr && {
                let items = jv->Arr_0;
                &&& wf_arr(items)
                &&& (items.len() == 0 ==> i + 1 < s@.len() && s@[i as int + 1] == ']' && end == i
                    + 2)
                &&& (items.len() > 0 ==> items_at(s@, i as int + 1, items, end) && s@[i as int + 1]
                    != ']')
            }) by {
                lemma_jtext_first(jv);
                let items = jv->Arr_0;
                assert(s@.subrange(i as int, end) == jtext(jv));
                if items.len() == 0 {
                    assert(arr_text(items) == Seq::<char>::empty());
                    assert(jtext(jv) =~= seq!['['] + seq![']']);
                    lemma_strip_prefix(s@, i as int, end, seq!['['], seq![']']);
                } else {
                    assert(jtext(jv) =~= seq!['['] + (arr_text(items) + seq![']']));
                    lemma_strip_prefix(s@, i as int, end, seq!['['], arr_text(items) + seq![']']);
                    assert(items_at(s@, i as int + 1, items, end));
                    lemma_jtext_first(items[0]);
                    if items.len() == 1 {
                        assert(arr_text(items) == jtext(items[0]));
                    } else {
                        assert(arr_text(items) == jtext(items[0]) + seq![','] + arr_text(
                            items.drop_first(),
                        ));
                    }
                    assert(arr_text(items)[0] == jtext(items[0])[0]);
                    assert((arr_text(items) + seq![']'])[0] == arr_text(items)[0]);
                }
            }
        }
        if i + 1 < n && s[i + 1] == ']' {
            let vec: Vec<Json> = Vec::new();
            proof {
                assert(arr_view(vec@) == Seq::<JsonV>::empty());
                assert forall|jv: JsonV, end: int|
                    parses_at(s@, i as int, jv, end) implies (json_view(Json::Arr(vec)) == jv
                    && end == i + 2) by {
                    assert(jv->Arr_0.len() == 0);
                    assert(jv->Arr_0 =~= Seq::<JsonV>::empty());
                    assert(jv == JsonV::Arr(Seq::<JsonV>::empty()));
                }
            }
            return Some((Json::Arr(vec), i + 2));
        }
        let inner = parse_items(s, i + 1);
        match inner {
            Some((v, j)) => Some((Json::Arr(v), j)),
            None => None,
        }
    } else if c == '{' {
        proof {
            assert forall|jv: JsonV, end: int|
                parses_at(s@, i as int, jv, end) implies (jv is Obj && {
                let fields = jv->Obj_0;
                &&& wf_obj(fields)
                &&& (fields.len() == 0 ==> i + 1 < s@.len() && s@[i as int + 1] == '}' && end == i
                    + 2)
                &&& (fields.len() > 0 ==> fields_at(s@, i as int + 1, fields, end) && s@[i as int
                    + 1] != '}')
            }) by {
                lemma_jtext_first(jv);
                let fields = jv->Obj_0;
                assert(s@.subrange(i as int, end) == jtext(jv));
                if fields.len() == 0 {
                    assert(obj_text(fields) == Seq::<char>::empty());
                    assert(jtext(jv) =~= seq!['{'] + seq!['}']);
                    lemma_strip_prefix(s@, i as int, end, seq!['{'], seq!['}']);
                } else {
                    assert(jtext(jv) =~= seq!['{'] + (obj_text(fields) + seq!['}']));
                    lemma_strip_prefix(s@, i as int, end, seq!['{'], obj_text(fields) + seq!['}']);
                    assert(fields_at(s@, i as int + 1, fields, end));
                    if fields.len() == 1 {
                        assert(obj_text(fields) == str_text(fields[0].0) + seq![':'] + jtext(
                            fields[0].1,
                        ));
                    } else {
                        assert(obj_text(fields) == str_text(fields[0].0) + seq![':'] + jtext(
                            fields[0].1,
                        ) + seq![','] + obj_text(fields.drop_first()));
                    }
                    assert(obj_text(fields)[0] == '"');
                    assert((obj_text(fields) + seq!['}'])[0] == obj_text(fields)[0]);
                }
            }
        }
        if i + 1 < n && s[i + 1] == '}' {
            let vec: Vec<(String, Json)> = Vec::new();
            proof {
                assert(obj_view(vec@) == Seq::<(Seq<char>, JsonV)>::empty());
                assert forall|jv: JsonV, end: int|
                    parses_at(s@, i as int, jv, end) implies (json_view(Json::Obj(vec)) == jv
                    && end == i + 2) by {
                    assert(jv->Obj_0.len() == 0);
                    assert(jv->Obj_0 =~= Seq::<(Seq<char>, JsonV)>::empty());
                    assert(jv == JsonV::Obj(Seq::<(Seq<char>, JsonV)>::empty()));
                }
            }
            return Some((Json::Obj(vec), i + 2));
        }
        let inner = parse_fields(s, i + 1);
        match inner {
            Some((v, j)) => Some((Json::Obj(v), j)),
            None => None,
        }
    } else {
        proof {
            assert forall|jv: JsonV, end: int|
                parses_at(s@, i as int, jv, end) implies false by {
                lemma_jtext_first(jv);
            }
        }
        None
    }
}

/// Parses a whole text as one JSON value; the text must hold nothing else.
/// Exactly the canonical texts are accepted: if the input is the canonical
/// text of a (well-formed) value, that value comes back; any other line —
/// including one that differs only in whitespace — is rejected by policy, so
/// that everything handed out is pinned to the one grammar the serializer
/// writes.
pub fn from_text(s: &str) -> (r: Option<Json>)
    ensures
        match r {
            Some(j) => s@ == jtext(j@),
            None => true,
        },
        forall|jv: JsonV|
            wf_json(jv) && s@ == jtext(jv) ==> (match r {
                Some(j) => j@ == jv,
                None => false,
            }),
{
    let cs: Vec<char> = str_chars(s);
    proof {
        assert forall|jv: JsonV| wf_json(jv) && s@ == jtext(jv) implies parses_at(
            cs@,
            0,
            jv,
            cs@.len() as int,
        ) by {
            assert(cs@.subrange(0, cs@.len() as int) =~= cs@);
        }
    }
    match parse_value(&cs, 0) {
        Some((v, j)) => {
            if j == cs.len() {
                // Pin the accepted text to the canonical grammar: whatever
                // shape the parser tolerated, the value stands only if its
                // canonical text is exactly the input.
                let mut back: Vec<char> = Vec::new();
                push_json(&mut back, &v);
                if chars_eq(&cs, &back) {
                    Some(v)
                } else {
                    None
                }
            } else {
                proof {
                    assert forall|jv: JsonV| wf_json(jv) && s@ == jtext(jv) implies false by {
                        assert(parses_at(cs@, 0, jv, cs@.len() as int));
                    }
                }
                None
            }
        },
        None => {
            proof {
                assert forall|jv: JsonV| wf_json(jv) && s@ == jtext(jv) implies false by {
                    assert(parses_at(cs@, 0, jv, cs@.len() as int));
                }
            }
            None
        },
    }
}


/// Element-wise comparison of two character buffers.
fn chars_eq(a: &Vec<char>, b: &Vec<char>) -> (r: bool)
    ensures
        r <==> a@ == b@,
{
    if a.len() != b.len() {
        assert(a@.len() != b@.len());
        return false;
    }
    let n: usize = a.len();
    let mut i: usize = 0;
    while i < n
        invariant
            n == a@.len(),
            n == b@.len(),
            i <= n,
            forall|k: int| 0 <= k < i ==> a@[k] == b@[k],
        decreases n - i,
    {
        if a[i] != b[i] {
            return false;
        }
        i = i + 1;
    }
    proof {
        assert(a@ =~= b@);
    }
    true
}

// ---------------------------------------------------------------------------
// Trusted bridges to std's string machinery.
// ---------------------------------------------------------------------------

/// Relies on `str::chars`: the iterator yields exactly the characters of the
/// string, in order, which are the string's view.
#[verifier::external_body]
pub fn str_chars(s: &str) -> (r: Vec<char>)
    ensures
        r@ == s@,
{
    s.chars().collect()
}

/// Relies on `String`'s `FromIterator`: collecting characters builds the
/// string holding exactly those characters, in order.
#[verifier::external_body]
pub fn chars_string(cs: &Vec<char>) -> (r: String)
    ensures
        r@ == cs@,
{
    cs.iter().collect()
}

/// Relies on `str`'s `PartialEq`: two string slices are equal exactly when
/// they hold the same characters.
#[verifier::external_body]
pub fn str_eq(a: &str, b: &str) -> (r: bool)
    ensures
        r <==> a@ == b@,
{
    a == b
}

} // verus!
