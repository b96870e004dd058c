//! The JSON document model used by the Hayson wire codec, with an
//! exactly-specified text printer.

use vstd::prelude::*;
use crate::strutil::{
    chars_to_string, dec_digits, lemma_padded_digits_shape, padded_digits, push_dec_digits,
    push_padded_digits, str_to_chars,
};

verus! {

broadcast use vstd::std_specs::vec::group_vec_axioms, vstd::seq::group_seq_axioms;

/// A JSON document.  Numbers are exact decimals
/// `(-1)^neg * mag / 10^scale`; exponent notation is not produced.
pub enum Json {
    Null,
    Bool(bool),
    Num { neg: bool, mag: u64, scale: u32 },
    Str(String),
    Arr(Vec<Json>),
    Obj(Vec<(String, Json)>),
}

/// The mathematical view of a `Json` document.
pub enum JsonS {
    Null,
    Bool(bool),
    Num { neg: bool, mag: u64, scale: u32 },
    Str(Seq<char>),
    Arr(Seq<JsonS>),
    Obj(Seq<(Seq<char>, JsonS)>),
}

pub open spec fn json_dv(j: Json) -> JsonS
    decreases j,
{
    match j {
        Json::Null => JsonS::Null,
        Json::Bool(b) => JsonS::Bool(b),
        Json::Num { neg, mag, scale } => JsonS::Num { neg, mag, scale },
        Json::Str(s) => JsonS::Str(s@),
        Json::Arr(items) => JsonS::Arr(jsons_dv(items@)),
        Json::Obj(ms) => JsonS::Obj(jmembers_dv(ms@)),
    }
}

pub open spec fn jsons_dv(items: Seq<Json>) -> Seq<JsonS>
    decreases items,
{
    if items.len() == 0 {
        Seq::empty()
    } else {
        jsons_dv(items.drop_last()).push(json_dv(items.last()))
    }
}

pub open spec fn jmembers_dv(ms: Seq<(String, Json)>) -> Seq<(Seq<char>, JsonS)>
    decreases ms,
{
    if ms.len() == 0 {
        Seq::empty()
    } else {
        jmembers_dv(ms.drop_last()).push((ms.last().0@, json_dv(ms.last().1)))
    }
}

impl View for Json {
    type V = JsonS;

    open spec fn view(&self) -> JsonS {
        json_dv(*self)
    }
}

pub proof fn lemma_jsons_dv(items: Seq<Json>)
    ensures
        jsons_dv(items).len() == items.len(),
        forall|i: int| 0 <= i < items.len() ==> jsons_dv(items)[i] == json_dv(#[trigger] items[i]),
    decreases items,
{
    if items.len() > 0 {
        lemma_jsons_dv(items.drop_last());
        assert forall|i: int| 0 <= i < items.len() implies jsons_dv(items)[i] == json_dv(
            #[trigger] items[i],
        ) by {
            if i < items.len() - 1 {
                assert(items.drop_last()[i] == items[i]);
                assert(jsons_dv(items)[i] == jsons_dv(items.drop_last())[i]);
            } else {
                assert(items.last() == items[i]);
            }
        }
    }
}

pub proof fn lemma_jmembers_dv(ms: Seq<(String, Json)>)
    ensures
        jmembers_dv(ms).len() == ms.len(),
        forall|i: int|
            0 <= i < ms.len() ==> jmembers_dv(ms)[i] == ((#[trigger] ms[i]).0@, json_dv(ms[i].1)),
    decreases ms,
{
    if ms.len() > 0 {
        lemma_jmembers_dv(ms.drop_last());
        assert forall|i: int|
            0 <= i < ms.len() implies jmembers_dv(ms)[i] == ((#[trigger] ms[i]).0@, json_dv(
            ms[i].1,
        )) by {
            if i < ms.len() - 1 {
                assert(ms.drop_last()[i] == ms[i]);
                assert(jmembers_dv(ms)[i] == jmembers_dv(ms.drop_last())[i]);
            } else {
                assert(ms.last() == ms[i]);
            }
        }
    }
}

/// Well-formedness for printing: number magnitudes are canonical and
/// bounded so the printer's loops are bounded.
pub open spec fn wf_json(j: JsonS) -> bool
    decreases j,
{
    match j {
        JsonS::Null => true,
        JsonS::Bool(_) => true,
        JsonS::Num { neg, mag, scale } => (neg ==> mag != 0) && scale <= 20,
        JsonS::Str(_) => true,
        JsonS::Arr(items) => forall|i: int| 0 <= i < items.len() ==> wf_json(#[trigger] items[i]),
        JsonS::Obj(ms) => forall|i: int| 0 <= i < ms.len() ==> wf_json((#[trigger] ms[i]).1),
    }
}

pub open spec fn hex_char(d: int) -> char {
    if d == 0 {
        '0'
    } else if d == 1 {
        '1'
    } else if d == 2 {
        '2'
    } else if d == 3 {
        '3'
    } else if d == 4 {
        '4'
    } else if d == 5 {
        '5'
    } else if d == 6 {
        '6'
    } else if d == 7 {
        '7'
    } else if d == 8 {
        '8'
    } else if d == 9 {
        '9'
    } else if d == 10 {
        'a'
    } else if d == 11 {
        'b'
    } else if d == 12 {
        'c'
    } else if d == 13 {
        'd'
    } else if d == 14 {
        'e'
    } else {
        'f'
    }
}

/// The escape sequence the printer emits for one string character.
pub open spec fn esc_char(c: char) -> Seq<char> {
    if c == '"' {
        seq!['\\', '"']
    } else if c == '\\' {
        seq!['\\', '\\']
    } else if c == '\n' {
        seq!['\\', 'n']
    } else if c == '\r' {
        seq!['\\', 'r']
    } else if c == '\t' {
        seq!['\\', 't']
    } else if (c as int) < 32 {
        seq!['\\', 'u', '0', '0', hex_char(c as int / 16), hex_char(c as int % 16)]
    } else {
        seq![c]
    }
}

pub open spec fn esc_str(s: Seq<char>) -> Seq<char>
    decreases s,
{
    if s.len() == 0 {
        Seq::empty()
    } else {
        esc_str(s.drop_last()) + esc_char(s.last())
    }
}

pub proof fn lemma_esc_str_push(s: Seq<char>, c: char)
    ensures
        esc_str(s.push(c)) == esc_str(s) + esc_char(c),
{
    assert(s.push(c).drop_last() =~= s);
}

/// The printed form of a decimal number.
pub open spec fn print_num(neg: bool, mag: u64, scale: u32) -> Seq<char> {
    let ds = if dec_digits(mag as nat).len() > scale {
        dec_digits(mag as nat)
    } else {
        padded_digits(mag as nat, scale as nat + 1)
    };
    let sign: Seq<char> = if neg {
        seq!['-']
    } else {
        Seq::empty()
    };
    if scale == 0 {
        sign + ds
    } else {
        sign + ds.take(ds.len() - scale) + seq!['.'] + ds.skip(ds.len() - scale)
    }
}

/// The canonical printed text of a JSON document: no whitespace,
/// strings escaped by `esc_char`, members comma-separated.
pub open spec fn jprint(j: JsonS) -> Seq<char>
    decreases j, 1int,
{
    match j {
        JsonS::Null => seq!['n', 'u', 'l', 'l'],
        JsonS::Bool(b) => if b {
            seq!['t', 'r', 'u', 'e']
        } else {
            seq!['f', 'a', 'l', 's', 'e']
        },
        JsonS::Num { neg, mag, scale } => print_num(neg, mag, scale),
        JsonS::Str(s) => seq!['"'] + esc_str(s) + seq!['"'],
        JsonS::Arr(items) => seq!['['] + jprint_arr(items) + seq![']'],
        JsonS::Obj(ms) => seq!['{'] + jprint_obj(ms) + seq!['}'],
    }
}

pub open spec fn jprint_arr(items: Seq<JsonS>) -> Seq<char>
    decreases items, 0int,
{
    if items.len() == 0 {
        Seq::empty()
    } else if items.len() == 1 {
        jprint(items.last())
    } else {
        jprint_arr(items.drop_last()) + seq![','] + jprint(items.last())
    }
}

pub open spec fn jprint_obj(ms: Seq<(Seq<char>, JsonS)>) -> Seq<char>
    decreases ms, 0int,
{
    if ms.len() == 0 {
        Seq::empty()
    } else if ms.len() == 1 {
        jprint_member(ms.last())
    } else {
        jprint_obj(ms.drop_last()) + seq![','] + jprint_member(ms.last())
    }
}

pub open spec fn jprint_member(m: (Seq<char>, JsonS)) -> Seq<char>
    decreases m, 0int,
{
    seq!['"'] + esc_str(m.0) + seq!['"', ':'] + jprint(m.1)
}

pub fn hex_to_char(d: u8) -> (r: char)
    requires
        d < 16,
    ensures
        r == hex_char(d as int),
{
    match d {
        0 => '0',
        1 => '1',
        2 => '2',
        3 => '3',
        4 => '4',
        5 => '5',
        6 => '6',
        7 => '7',
        8 => '8',
        9 => '9',
        10 => 'a',
        11 => 'b',
        12 => 'c',
        13 => 'd',
        14 => 'e',
        _ => 'f',
    }
}

/// Append the escape sequence of one string character.
pub fn write_esc_char(c: char, out: &mut Vec<char>)
    ensures
        final (out)@ == old(out)@ + esc_char(c),
{
    if c == '"' {
        out.push('\\');
        out.push('"');
    } else if c == '\\' {
        out.push('\\');
        out.push('\\');
    } else if c == '\n' {
        out.push('\\');
        out.push('n');
    } else if c == '\r' {
        out.push('\\');
        out.push('r');
    } else if c == '\t' {
        out.push('\\');
        out.push('t');
    } else if (c as u32) < 32 {
        let x = c as u32;
        out.push('\\');
        out.push('u');
        out.push('0');
        out.push('0');
        out.push(hex_to_char((x / 16) as u8));
        out.push(hex_to_char((x % 16) as u8));
    } else {
        out.push(c);
    }
    proof {
        assert(out@ =~= old(out)@ + esc_char(c));
    }
}

/// Append the escaped form of a whole string.
pub fn write_esc_str(s: &str, out: &mut Vec<char>)
    ensures
        final (out)@ == old(out)@ + esc_str(s@),
{
    let cs = str_to_chars(s);
    let mut i: usize = 0;
    while i < cs.len()
        invariant
            0 <= i <= cs@.len(),
            cs@ == s@,
            out@ == old(out)@ + esc_str(s@.take(i as int)),
        decreases cs@.len() - i,
    {
        proof {
            assert(s@.take(i + 1) =~= s@.take(i as int).push(s@[i as int]));
            lemma_esc_str_push(s@.take(i as int), s@[i as int]);
        }
        write_esc_char(cs[i], out);
        i = i + 1;
    }
    proof {
        assert(s@.take(cs@.len() as int) =~= s@);
    }
}

/// Append a slice of a character vector.
pub fn push_range(src: &Vec<char>, from: usize, to: usize, out: &mut Vec<char>)
    requires
        from <= to <= src@.len(),
    ensures
        final (out)@ == old(out)@ + src@.subrange(from as int, to as int),
{
    let mut i: usize = from;
    while i < to
        invariant
            from <= i <= to <= src@.len(),
            out@ == old(out)@ + src@.subrange(from as int, i as int),
        decreases to - i,
    {
        out.push(src[i]);
        proof {
            assert(out@ =~= old(out)@ + src@.subrange(from as int, i + 1));
        }
        i = i + 1;
    }
}

/// Append the printed form of a decimal number.
pub fn write_num(neg: bool, mag: u64, scale: u32, out: &mut Vec<char>)
    requires
        scale <= 20,
    ensures
        final (out)@ == old(out)@ + print_num(neg, mag, scale),
{
    if neg {
        out.push('-');
    }
    let mut tmp: Vec<char> = Vec::new();
    push_dec_digits(mag, &mut tmp);
    if tmp.len() <= scale as usize {
        tmp = Vec::new();
        push_padded_digits(mag, (scale + 1) as u8, &mut tmp);
        proof {
            lemma_padded_digits_shape(mag as nat, scale as nat + 1);
        }
    }
    if scale == 0 {
        push_range(&tmp, 0, tmp.len(), out);
        proof {
            assert(tmp@.subrange(0, tmp@.len() as int) =~= tmp@);
            assert(out@ =~= old(out)@ + print_num(neg, mag, scale));
        }
    } else {
        let k = tmp.len() - scale as usize;
        push_range(&tmp, 0, k, out);
        out.push('.');
        push_range(&tmp, k, tmp.len(), out);
        proof {
            assert(tmp@.subrange(k as int, tmp@.len() as int) =~= tmp@.skip(
                tmp@.len() - scale as int,
            ));
            assert(tmp@.subrange(0, k as int) =~= tmp@.take(tmp@.len() - scale as int));
            assert(out@ =~= old(out)@ + print_num(neg, mag, scale));
        }
    }
}

pub proof fn lemma_jprint_arr_push(items: Seq<JsonS>, x: JsonS)
    ensures
        items.len() == 0 ==> jprint_arr(items.push(x)) == jprint(x),
        items.len() > 0 ==> jprint_arr(items.push(x)) == jprint_arr(items) + seq![','] + jprint(x),
{
    assert(items.push(x).drop_last() =~= items);
    assert(items.push(x).last() == x);
}

pub proof fn lemma_jprint_obj_push(ms: Seq<(Seq<char>, JsonS)>, x: (Seq<char>, JsonS))
    ensures
        ms.len() == 0 ==> jprint_obj(ms.push(x)) == jprint_member(x),
        ms.len() > 0 ==> jprint_obj(ms.push(x)) == jprint_obj(ms) + seq![','] + jprint_member(x),
{
    assert(ms.push(x).drop_last() =~= ms);
    assert(ms.push(x).last() == x);
}

/// Append the canonical printed text of a document.
pub fn write_json(j: &Json, out: &mut Vec<char>)
    requires
        wf_json(j@),
    ensures
        final (out)@ == old(out)@ + jprint(j@),
    decreases *j,
{
    match j {
        Json::Null => {
            out.push('n');
            out.push('u');
            out.push('l');
            out.push('l');
            proof {
                assert(out@ =~= old(out)@ + jprint(j@));
            }
        },
        Json::Bool(b) => {
            if *b {
                out.push('t');
                out.push('r');
                out.push('u');
                out.push('e');
            } else {
                out.push('f');
                out.push('a');
                out.push('l');
                out.push('s');
                out.push('e');
            }
            proof {
                assert(out@ =~= old(out)@ + jprint(j@));
            }
        },
        Json::Num { neg, mag, scale } => {
            write_num(*neg, *mag, *scale, out);
        },
        Json::Str(s) => {
            out.push('"');
            write_esc_str(s.as_str(), out);
            out.push('"');
            proof {
                assert(out@ =~= old(out)@ + jprint(j@));
            }
        },
        Json::Arr(items) => {
            out.push('[');
            let ghost dv = jsons_dv(items@);
            proof {
                lemma_jsons_dv(items@);
            }
            let mut i: usize = 0;
            while i < items.len()
                invariant
                    *j == Json::Arr(*items),
                    0 <= i <= items@.len(),
                    dv == jsons_dv(items@),
                    dv.len() == items@.len(),
                    forall|k: int| 0 <= k < items@.len() ==> dv[k] == json_dv(#[trigger] items@[k]),
                    forall|k: int| 0 <= k < items@.len() ==> wf_json(#[trigger] dv[k]),
                    out@ == old(out)@ + seq!['['] + jprint_arr(dv.take(i as int)),
                decreases items@.len() - i,
            {
                if i > 0 {
                    out.push(',');
                }
                proof {
                    assert(decreases_to!(*j => j->Arr_0));
                    assert(*items == j->Arr_0);
                    assert(decreases_to!(*items => items@));
                    assert(decreases_to!(items@ => items@[i as int]));
                    assert(decreases_to!(*j => items@[i as int]));
                }
                write_json(&items[i], out);
                proof {
                    assert(dv.take(i + 1) =~= dv.take(i as int).push(dv[i as int]));
                    lemma_jprint_arr_push(dv.take(i as int), dv[i as int]);
                    assert(out@ =~= old(out)@ + seq!['['] + jprint_arr(dv.take(i + 1)));
                }
                i = i + 1;
            }
            out.push(']');
            proof {
                assert(dv.take(dv.len() as int) =~= dv);
                assert(out@ =~= old(out)@ + jprint(j@));
            }
        },
        Json::Obj(ms) => {
            out.push('{');
            let ghost dv = jmembers_dv(ms@);
            proof {
                lemma_jmembers_dv(ms@);
            }
            let mut i: usize = 0;
            while i < ms.len()
                invariant
                    *j == Json::Obj(*ms),
                    0 <= i <= ms@.len(),
                    dv == jmembers_dv(ms@),
                    dv.len() == ms@.len(),
                    forall|k: int|
                        0 <= k < ms@.len() ==> dv[k] == ((#[trigger] ms@[k]).0@, json_dv(ms@[k].1)),
                    forall|k: int| 0 <= k < ms@.len() ==> wf_json((#[trigger] dv[k]).1),
                    out@ == old(out)@ + seq!['{'] + jprint_obj(dv.take(i as int)),
                decreases ms@.len() - i,
            {
                if i > 0 {
                    out.push(',');
                }
                out.push('"');
                write_esc_str(ms[i].0.as_str(), out);
                out.push('"');
                out.push(':');
                proof {
                    assert(decreases_to!(*j => j->Obj_0));
                    assert(*ms == j->Obj_0);
                    assert(decreases_to!(*ms => ms@));
                    assert(decreases_to!(ms@ => ms@[i as int]));
                    assert(decreases_to!(ms@[i as int] => ms@[i as int].1));
                    assert(decreases_to!(*j => ms@[i as int].1));
                }
                write_json(&ms[i].1, out);
                proof {
                    assert(dv.take(i + 1) =~= dv.take(i as int).push(dv[i as int]));
                    lemma_jprint_obj_push(dv.take(i as int), dv[i as int]);
                    assert(out@ =~= old(out)@ + seq!['{'] + jprint_obj(dv.take(i + 1)));
                }
                i = i + 1;
            }
            out.push('}');
            proof {
                assert(dv.take(dv.len() as int) =~= dv);
                assert(out@ =~= old(out)@ + jprint(j@));
            }
        },
    }
}

/// The canonical printed text of a document, as a string.
pub fn json_to_string(j: &Json) -> (r: String)
    requires
        wf_json(j@),
    ensures
        r@ == jprint(j@),
{
    let mut out: Vec<char> = Vec::new();
    write_json(j, &mut out);
    proof {
        assert(out@ =~= jprint(j@));
    }
    chars_to_string(&out)
}

} // verus!
