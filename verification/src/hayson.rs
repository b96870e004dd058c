//! The Hayson (JSON) structural codec: mapping between the Haystack
//! value model and JSON documents, with the decode-after-encode
//! round-trip proof.
//!
//! Encoding is canonical (object members in a fixed order); decoding
//! is strict and expects that canonical member order.

use vstd::prelude::*;
use crate::json::JsonS;
use crate::value::{
    ColS, Coord, DictS, GridS, NumMag, NumberS, ValueS, is_ref_id, is_xstr_type, wf_coord,
    wf_datetime, wf_dict, wf_grid, wf_num, wf_value, grid_has_col,
};
use crate::tagname::is_tag_name;
use crate::dates::{date_str, dt_str, parse_date_str, parse_dt_str, parse_time_str, time_str};
use crate::strutil::pow10;

verus! {

broadcast use vstd::std_specs::vec::group_vec_axioms, vstd::seq::group_seq_axioms;

pub open spec fn s_kind() -> Seq<char> {
    seq!['_', 'k', 'i', 'n', 'd']
}

pub open spec fn s_marker() -> Seq<char> {
    seq!['m', 'a', 'r', 'k', 'e', 'r']
}

pub open spec fn s_remove() -> Seq<char> {
    seq!['r', 'e', 'm', 'o', 'v', 'e']
}

pub open spec fn s_na() -> Seq<char> {
    seq!['n', 'a']
}

pub open spec fn s_number() -> Seq<char> {
    seq!['n', 'u', 'm', 'b', 'e', 'r']
}

pub open spec fn s_val() -> Seq<char> {
    seq!['v', 'a', 'l']
}

pub open spec fn s_unit() -> Seq<char> {
    seq!['u', 'n', 'i', 't']
}

pub open spec fn s_ref() -> Seq<char> {
    seq!['r', 'e', 'f']
}

pub open spec fn s_dis() -> Seq<char> {
    seq!['d', 'i', 's']
}

pub open spec fn s_uri() -> Seq<char> {
    seq!['u', 'r', 'i']
}

pub open spec fn s_date() -> Seq<char> {
    seq!['d', 'a', 't', 'e']
}

pub open spec fn s_time() -> Seq<char> {
    seq!['t', 'i', 'm', 'e']
}

pub open spec fn s_datetime() -> Seq<char> {
    seq!['d', 'a', 't', 'e', 'T', 'i', 'm', 'e']
}

pub open spec fn s_tz() -> Seq<char> {
    seq!['t', 'z']
}

pub open spec fn s_coord() -> Seq<char> {
    seq!['c', 'o', 'o', 'r', 'd']
}

pub open spec fn s_lat() -> Seq<char> {
    seq!['l', 'a', 't']
}

pub open spec fn s_lng() -> Seq<char> {
    seq!['l', 'n', 'g']
}

pub open spec fn s_xstr() -> Seq<char> {
    seq!['x', 's', 't', 'r']
}

pub open spec fn s_type() -> Seq<char> {
    seq!['t', 'y', 'p', 'e']
}

pub open spec fn s_symbol() -> Seq<char> {
    seq!['s', 'y', 'm', 'b', 'o', 'l']
}

pub open spec fn s_grid() -> Seq<char> {
    seq!['g', 'r', 'i', 'd']
}

pub open spec fn s_meta() -> Seq<char> {
    seq!['m', 'e', 't', 'a']
}

pub open spec fn s_cols() -> Seq<char> {
    seq!['c', 'o', 'l', 's']
}

pub open spec fn s_rows() -> Seq<char> {
    seq!['r', 'o', 'w', 's']
}

pub open spec fn s_name() -> Seq<char> {
    seq!['n', 'a', 'm', 'e']
}

pub open spec fn s_inf() -> Seq<char> {
    seq!['I', 'N', 'F']
}

pub open spec fn s_neginf() -> Seq<char> {
    seq!['-', 'I', 'N', 'F']
}

pub open spec fn s_nan() -> Seq<char> {
    seq!['N', 'a', 'N']
}

/// The sentinel kind strings are pairwise distinct.
pub proof fn lemma_kinds_distinct()
    ensures
        s_marker() != s_remove(),
        s_marker() != s_na(),
        s_marker() != s_number(),
        s_marker() != s_ref(),
        s_marker() != s_uri(),
        s_marker() != s_date(),
        s_marker() != s_time(),
        s_marker() != s_datetime(),
        s_marker() != s_coord(),
        s_marker() != s_xstr(),
        s_marker() != s_symbol(),
        s_marker() != s_grid(),
        s_remove() != s_na(),
        s_remove() != s_number(),
        s_remove() != s_ref(),
        s_remove() != s_uri(),
        s_remove() != s_date(),
        s_remove() != s_time(),
        s_remove() != s_datetime(),
        s_remove() != s_coord(),
        s_remove() != s_xstr(),
        s_remove() != s_symbol(),
        s_remove() != s_grid(),
        s_na() != s_number(),
        s_na() != s_ref(),
        s_na() != s_uri(),
        s_na() != s_date(),
        s_na() != s_time(),
        s_na() != s_datetime(),
        s_na() != s_coord(),
        s_na() != s_xstr(),
        s_na() != s_symbol(),
        s_na() != s_grid(),
        s_number() != s_ref(),
        s_number() != s_uri(),
        s_number() != s_date(),
        s_number() != s_time(),
        s_number() != s_datetime(),
        s_number() != s_coord(),
        s_number() != s_xstr(),
        s_number() != s_symbol(),
        s_number() != s_grid(),
        s_ref() != s_uri(),
        s_ref() != s_date(),
        s_ref() != s_time(),
        s_ref() != s_datetime(),
        s_ref() != s_coord(),
        s_ref() != s_xstr(),
        s_ref() != s_symbol(),
        s_ref() != s_grid(),
        s_uri() != s_date(),
        s_uri() != s_time(),
        s_uri() != s_datetime(),
        s_uri() != s_coord(),
        s_uri() != s_xstr(),
        s_uri() != s_symbol(),
        s_uri() != s_grid(),
        s_date() != s_time(),
        s_date() != s_datetime(),
        s_date() != s_coord(),
        s_date() != s_xstr(),
        s_date() != s_symbol(),
        s_date() != s_grid(),
        s_time() != s_datetime(),
        s_time() != s_coord(),
        s_time() != s_xstr(),
        s_time() != s_symbol(),
        s_time() != s_grid(),
        s_datetime() != s_coord(),
        s_datetime() != s_xstr(),
        s_datetime() != s_symbol(),
        s_datetime() != s_grid(),
        s_coord() != s_xstr(),
        s_coord() != s_symbol(),
        s_coord() != s_grid(),
        s_xstr() != s_symbol(),
        s_xstr() != s_grid(),
        s_symbol() != s_grid(),
{
    assert(s_marker() != s_remove()) by { assert(s_marker()[0] != s_remove()[0]); }
    assert(s_marker() != s_na()) by { assert(s_marker().len() != s_na().len()); }
    assert(s_marker() != s_number()) by { assert(s_marker()[0] != s_number()[0]); }
    assert(s_marker() != s_ref()) by { assert(s_marker().len() != s_ref().len()); }
    assert(s_marker() != s_uri()) by { assert(s_marker().len() != s_uri().len()); }
    assert(s_marker() != s_date()) by { assert(s_marker().len() != s_date().len()); }
    assert(s_marker() != s_time()) by { assert(s_marker().len() != s_time().len()); }
    assert(s_marker() != s_datetime()) by { assert(s_marker().len() != s_datetime().len()); }
    assert(s_marker() != s_coord()) by { assert(s_marker().len() != s_coord().len()); }
    assert(s_marker() != s_xstr()) by { assert(s_marker().len() != s_xstr().len()); }
    assert(s_marker() != s_symbol()) by { assert(s_marker()[0] != s_symbol()[0]); }
    assert(s_marker() != s_grid()) by { assert(s_marker().len() != s_grid().len()); }
    assert(s_remove() != s_na()) by { assert(s_remove().len() != s_na().len()); }
    assert(s_remove() != s_number()) by { assert(s_remove()[0] != s_number()[0]); }
    assert(s_remove() != s_ref()) by { assert(s_remove().len() != s_ref().len()); }
    assert(s_remove() != s_uri()) by { assert(s_remove().len() != s_uri().len()); }
    assert(s_remove() != s_date()) by { assert(s_remove().len() != s_date().len()); }
    assert(s_remove() != s_time()) by { assert(s_remove().len() != s_time().len()); }
    assert(s_remove() != s_datetime()) by { assert(s_remove().len() != s_datetime().len()); }
    assert(s_remove() != s_coord()) by { assert(s_remove().len() != s_coord().len()); }
    assert(s_remove() != s_xstr()) by { assert(s_remove().len() != s_xstr().len()); }
    assert(s_remove() != s_symbol()) by { assert(s_remove()[0] != s_symbol()[0]); }
    assert(s_remove() != s_grid()) by { assert(s_remove().len() != s_grid().len()); }
    assert(s_na() != s_number()) by { assert(s_na().len() != s_number().len()); }
    assert(s_na() != s_ref()) by { assert(s_na().len() != s_ref().len()); }
    assert(s_na() != s_uri()) by { assert(s_na().len() != s_uri().len()); }
    assert(s_na() != s_date()) by { assert(s_na().len() != s_date().len()); }
    assert(s_na() != s_time()) by { assert(s_na().len() != s_time().len()); }
    assert(s_na() != s_datetime()) by { assert(s_na().len() != s_datetime().len()); }
    assert(s_na() != s_coord()) by { assert(s_na().len() != s_coord().len()); }
    assert(s_na() != s_xstr()) by { assert(s_na().len() != s_xstr().len()); }
    assert(s_na() != s_symbol()) by { assert(s_na().len() != s_symbol().len()); }
    assert(s_na() != s_grid()) by { assert(s_na().len() != s_grid().len()); }
    assert(s_number() != s_ref()) by { assert(s_number().len() != s_ref().len()); }
    assert(s_number() != s_uri()) by { assert(s_number().len() != s_uri().len()); }
    assert(s_number() != s_date()) by { assert(s_number().len() != s_date().len()); }
    assert(s_number() != s_time()) by { assert(s_number().len() != s_time().len()); }
    assert(s_number() != s_datetime()) by { assert(s_number().len() != s_datetime().len()); }
    assert(s_number() != s_coord()) by { assert(s_number().len() != s_coord().len()); }
    assert(s_number() != s_xstr()) by { assert(s_number().len() != s_xstr().len()); }
    assert(s_number() != s_symbol()) by { assert(s_number()[0] != s_symbol()[0]); }
    assert(s_number() != s_grid()) by { assert(s_number().len() != s_grid().len()); }
    assert(s_ref() != s_uri()) by { assert(s_ref()[0] != s_uri()[0]); }
    assert(s_ref() != s_date()) by { assert(s_ref().len() != s_date().len()); }
    assert(s_ref() != s_time()) by { assert(s_ref().len() != s_time().len()); }
    assert(s_ref() != s_datetime()) by { assert(s_ref().len() != s_datetime().len()); }
    assert(s_ref() != s_coord()) by { assert(s_ref().len() != s_coord().len()); }
    assert(s_ref() != s_xstr()) by { assert(s_ref().len() != s_xstr().len()); }
    assert(s_ref() != s_symbol()) by { assert(s_ref().len() != s_symbol().len()); }
    assert(s_ref() != s_grid()) by { assert(s_ref().len() != s_grid().len()); }
    assert(s_uri() != s_date()) by { assert(s_uri().len() != s_date().len()); }
    assert(s_uri() != s_time()) by { assert(s_uri().len() != s_time().len()); }
    assert(s_uri() != s_datetime()) by { assert(s_uri().len() != s_datetime().len()); }
    assert(s_uri() != s_coord()) by { assert(s_uri().len() != s_coord().len()); }
    assert(s_uri() != s_xstr()) by { assert(s_uri().len() != s_xstr().len()); }
    assert(s_uri() != s_symbol()) by { assert(s_uri().len() != s_symbol().len()); }
    assert(s_uri() != s_grid()) by { assert(s_uri().len() != s_grid().len()); }
    assert(s_date() != s_time()) by { assert(s_date()[0] != s_time()[0]); }
    assert(s_date() != s_datetime()) by { assert(s_date().len() != s_datetime().len()); }
    assert(s_date() != s_coord()) by { assert(s_date().len() != s_coord().len()); }
    assert(s_date() != s_xstr()) by { assert(s_date()[0] != s_xstr()[0]); }
    assert(s_date() != s_symbol()) by { assert(s_date().len() != s_symbol().len()); }
    assert(s_date() != s_grid()) by { assert(s_date()[0] != s_grid()[0]); }
    assert(s_time() != s_datetime()) by { assert(s_time().len() != s_datetime().len()); }
    assert(s_time() != s_coord()) by { assert(s_time().len() != s_coord().len()); }
    assert(s_time() != s_xstr()) by { assert(s_time()[0] != s_xstr()[0]); }
    assert(s_time() != s_symbol()) by { assert(s_time().len() != s_symbol().len()); }
    assert(s_time() != s_grid()) by { assert(s_time()[0] != s_grid()[0]); }
    assert(s_datetime() != s_coord()) by { assert(s_datetime().len() != s_coord().len()); }
    assert(s_datetime() != s_xstr()) by { assert(s_datetime().len() != s_xstr().len()); }
    assert(s_datetime() != s_symbol()) by { assert(s_datetime().len() != s_symbol().len()); }
    assert(s_datetime() != s_grid()) by { assert(s_datetime().len() != s_grid().len()); }
    assert(s_coord() != s_xstr()) by { assert(s_coord().len() != s_xstr().len()); }
    assert(s_coord() != s_symbol()) by { assert(s_coord().len() != s_symbol().len()); }
    assert(s_coord() != s_grid()) by { assert(s_coord().len() != s_grid().len()); }
    assert(s_xstr() != s_symbol()) by { assert(s_xstr().len() != s_symbol().len()); }
    assert(s_xstr() != s_grid()) by { assert(s_xstr()[0] != s_grid()[0]); }
    assert(s_symbol() != s_grid()) by { assert(s_symbol().len() != s_grid().len()); }
}

/// A sentinel object `{"_kind": k}`.
pub open spec fn kind_obj(k: Seq<char>) -> JsonS {
    JsonS::Obj(seq![(s_kind(), JsonS::Str(k))])
}

/// The JSON form of a number.
pub open spec fn num2j(n: NumberS) -> JsonS {
    match n.mag {
        NumMag::Dec { neg, mag, scale } => match n.unit {
            None => JsonS::Num { neg, mag, scale },
            Some(u) => JsonS::Obj(
                seq![
                    (s_kind(), JsonS::Str(s_number())),
                    (s_val(), JsonS::Num { neg, mag, scale }),
                    (s_unit(), JsonS::Str(u)),
                ],
            ),
        },
        NumMag::PosInf => JsonS::Obj(
            seq![(s_kind(), JsonS::Str(s_number())), (s_val(), JsonS::Str(s_inf()))],
        ),
        NumMag::NegInf => JsonS::Obj(
            seq![(s_kind(), JsonS::Str(s_number())), (s_val(), JsonS::Str(s_neginf()))],
        ),
        NumMag::NaN => JsonS::Obj(
            seq![(s_kind(), JsonS::Str(s_number())), (s_val(), JsonS::Str(s_nan()))],
        ),
    }
}

/// The JSON form of a coordinate component, micro-degrees as a
/// six-place decimal.
pub open spec fn coord_part2j(ud: i64) -> JsonS {
    JsonS::Num {
        neg: ud < 0,
        mag: (if ud < 0 {
            -ud as int
        } else {
            ud as int
        }) as u64,
        scale: 6,
    }
}

/// The JSON form of a value.
pub open spec fn v2j(v: ValueS) -> JsonS
    decreases v, 2int,
{
    match v {
        ValueS::Marker => kind_obj(s_marker()),
        ValueS::Remove => kind_obj(s_remove()),
        ValueS::Na => kind_obj(s_na()),
        ValueS::Bool(b) => JsonS::Bool(b),
        ValueS::Num(n) => num2j(n),
        ValueS::Str(s) => JsonS::Str(s),
        ValueS::Ref { id, dis } => match dis {
            None => JsonS::Obj(
                seq![(s_kind(), JsonS::Str(s_ref())), (s_val(), JsonS::Str(id))],
            ),
            Some(d) => JsonS::Obj(
                seq![
                    (s_kind(), JsonS::Str(s_ref())),
                    (s_val(), JsonS::Str(id)),
                    (s_dis(), JsonS::Str(d)),
                ],
            ),
        },
        ValueS::Uri(s) => JsonS::Obj(
            seq![(s_kind(), JsonS::Str(s_uri())), (s_val(), JsonS::Str(s))],
        ),
        ValueS::Date(d) => JsonS::Obj(
            seq![(s_kind(), JsonS::Str(s_date())), (s_val(), JsonS::Str(date_str(d)))],
        ),
        ValueS::Time(t) => JsonS::Obj(
            seq![(s_kind(), JsonS::Str(s_time())), (s_val(), JsonS::Str(time_str(t)))],
        ),
        ValueS::DateTime(dt) => JsonS::Obj(
            seq![
                (s_kind(), JsonS::Str(s_datetime())),
                (s_val(), JsonS::Str(dt_str(dt))),
                (s_tz(), JsonS::Str(dt.tz)),
            ],
        ),
        ValueS::Coord(c) => JsonS::Obj(
            seq![
                (s_kind(), JsonS::Str(s_coord())),
                (s_lat(), coord_part2j(c.lat_ud)),
                (s_lng(), coord_part2j(c.lng_ud)),
            ],
        ),
        ValueS::Xstr { typ, val } => JsonS::Obj(
            seq![
                (s_kind(), JsonS::Str(s_xstr())),
                (s_type(), JsonS::Str(typ)),
                (s_val(), JsonS::Str(val)),
            ],
        ),
        ValueS::Symbol(s) => JsonS::Obj(
            seq![(s_kind(), JsonS::Str(s_symbol())), (s_val(), JsonS::Str(s))],
        ),
        ValueS::List(items) => JsonS::Arr(vs2j(items)),
        ValueS::Dict(d) => JsonS::Obj(ents2j(d.entries)),
        ValueS::Grid(g) => grid2j(g),
    }
}

pub open spec fn vs2j(items: Seq<ValueS>) -> Seq<JsonS>
    decreases items, 0int,
{
    if items.len() == 0 {
        Seq::empty()
    } else {
        vs2j(items.drop_last()).push(v2j(items.last()))
    }
}

pub open spec fn ents2j(entries: Seq<(Seq<char>, ValueS)>) -> Seq<(Seq<char>, JsonS)>
    decreases entries, 0int,
{
    if entries.len() == 0 {
        Seq::empty()
    } else {
        ents2j(entries.drop_last()).push((entries.last().0, v2j(entries.last().1)))
    }
}

pub open spec fn col2j(c: ColS) -> JsonS
    decreases c, 1int,
{
    JsonS::Obj(seq![(s_name(), JsonS::Str(c.name))].add(ents2j(c.meta.entries)))
}

pub open spec fn cols2j(cols: Seq<ColS>) -> Seq<JsonS>
    decreases cols, 0int,
{
    if cols.len() == 0 {
        Seq::empty()
    } else {
        cols2j(cols.drop_last()).push(col2j(cols.last()))
    }
}

pub open spec fn rows2j(rows: Seq<DictS>) -> Seq<JsonS>
    decreases rows, 0int,
{
    if rows.len() == 0 {
        Seq::empty()
    } else {
        rows2j(rows.drop_last()).push(JsonS::Obj(ents2j(rows.last().entries)))
    }
}

/// The JSON form of a grid:
/// `{"_kind":"grid","meta":{...},"cols":[...],"rows":[...]}`.
pub open spec fn grid2j(g: GridS) -> JsonS
    decreases g, 1int,
{
    JsonS::Obj(
        seq![
            (s_kind(), JsonS::Str(s_grid())),
            (s_meta(), JsonS::Obj(ents2j(g.meta.entries))),
            (s_cols(), JsonS::Arr(cols2j(g.cols))),
            (s_rows(), JsonS::Arr(rows2j(g.rows))),
        ],
    )
}

pub open spec fn num_canon(neg: bool, mag: u64, scale: u32) -> bool {
    (neg ==> mag != 0) && scale <= 20
}

pub open spec fn dict_has_key(d: DictS, key: Seq<char>) -> bool {
    exists|i: int| 0 <= i < d.entries.len() && (#[trigger] d.entries[i].0) == key
}

/// Decode a coordinate component with a bound in micro-degrees.
pub open spec fn j2coord_part(j: JsonS, bound: nat) -> Option<i64> {
    match j {
        JsonS::Num { neg, mag, scale } => if (neg ==> mag != 0) && scale <= 6 {
            let ud = mag * pow10((6 - scale) as nat);
            if ud <= bound {
                if neg {
                    Some((-(ud as int)) as i64)
                } else {
                    Some(ud as i64)
                }
            } else {
                None
            }
        } else {
            None
        },
        _ => None,
    }
}

/// Decode a JSON document as a value.  Strict: unknown sentinels,
/// malformed literals, out-of-range fields, bad identifiers, duplicate
/// keys and `null` all fail.
pub open spec fn j2v(j: JsonS) -> Option<ValueS>
    decreases j, 3int,
{
    match j {
        JsonS::Null => None,
        JsonS::Bool(b) => Some(ValueS::Bool(b)),
        JsonS::Num { neg, mag, scale } => if num_canon(neg, mag, scale) {
            Some(
                ValueS::Num(NumberS { mag: NumMag::Dec { neg, mag, scale }, unit: None }),
            )
        } else {
            None
        },
        JsonS::Str(s) => Some(ValueS::Str(s)),
        JsonS::Arr(items) => match js2v(items) {
            Some(vs) => Some(ValueS::List(vs)),
            None => None,
        },
        JsonS::Obj(ms) => obj2v(ms),
    }
}

pub open spec fn js2v(items: Seq<JsonS>) -> Option<Seq<ValueS>>
    decreases items, 4int,
{
    if items.len() == 0 {
        Some(Seq::empty())
    } else {
        match js2v(items.drop_last()) {
            None => None,
            Some(vs) => match j2v(items.last()) {
                None => None,
                Some(v) => Some(vs.push(v)),
            },
        }
    }
}

/// Decode object members as a dict: every key a fresh tag name, every
/// value decodable.
pub open spec fn j2dict(ms: Seq<(Seq<char>, JsonS)>) -> Option<DictS>
    decreases ms, 2int,
{
    if ms.len() == 0 {
        Some(DictS { entries: Seq::empty() })
    } else {
        match j2dict(ms.drop_last()) {
            None => None,
            Some(d) => if is_tag_name(ms.last().0) && !dict_has_key(d, ms.last().0) {
                match j2v(ms.last().1) {
                    None => None,
                    Some(v) => Some(DictS { entries: d.entries.push((ms.last().0, v)) }),
                }
            } else {
                None
            },
        }
    }
}

/// Decode one column object: `{"name": n, ...meta}`.
pub open spec fn j2col(j: JsonS) -> Option<ColS>
    decreases j, 4int,
{
    match j {
        JsonS::Obj(ms) => if ms.len() >= 1 && ms[0].0 == s_name() && ms[0].1 is Str
            && is_tag_name(ms[0].1->Str_0) {
            match j2dict(ms.drop_first()) {
                Some(meta) => Some(ColS { name: ms[0].1->Str_0, meta }),
                None => None,
            }
        } else {
            None
        },
        _ => None,
    }
}

pub open spec fn j2cols(items: Seq<JsonS>) -> Option<Seq<ColS>>
    decreases items, 5int,
{
    if items.len() == 0 {
        Some(Seq::empty())
    } else {
        match j2cols(items.drop_last()) {
            None => None,
            Some(cs) => match j2col(items.last()) {
                None => None,
                Some(c) => Some(cs.push(c)),
            },
        }
    }
}

pub open spec fn j2rows(items: Seq<JsonS>) -> Option<Seq<DictS>>
    decreases items, 5int,
{
    if items.len() == 0 {
        Some(Seq::empty())
    } else {
        match j2rows(items.drop_last()) {
            None => None,
            Some(rs) => match items.last() {
                JsonS::Obj(ms) => match j2dict(ms) {
                    Some(d) => Some(rs.push(d)),
                    None => None,
                },
                _ => None,
            },
        }
    }
}

pub open spec fn cols_distinct(cols: Seq<ColS>) -> bool {
    forall|i: int, j: int|
        0 <= i < j < cols.len() ==> (#[trigger] cols[i].name) != (#[trigger] cols[j].name)
}

/// Decode the canonical members of a sentinel object, given its kind.
pub open spec fn obj2v(ms: Seq<(Seq<char>, JsonS)>) -> Option<ValueS>
    decreases ms, 6int,
{
    if ms.len() >= 1 && ms[0].0 == s_kind() {
        if !(ms[0].1 is Str) {
            None
        } else {
            let k = ms[0].1->Str_0;
            if k == s_marker() {
                if ms.len() == 1 {
                    Some(ValueS::Marker)
                } else {
                    None
                }
            } else if k == s_remove() {
                if ms.len() == 1 {
                    Some(ValueS::Remove)
                } else {
                    None
                }
            } else if k == s_na() {
                if ms.len() == 1 {
                    Some(ValueS::Na)
                } else {
                    None
                }
            } else if k == s_number() {
                j2number(ms)
            } else if k == s_ref() {
                if ms.len() == 2 && ms[1].0 == s_val() && ms[1].1 is Str && is_ref_id(
                    ms[1].1->Str_0,
                ) {
                    Some(ValueS::Ref { id: ms[1].1->Str_0, dis: None })
                } else if ms.len() == 3 && ms[1].0 == s_val() && ms[1].1 is Str && is_ref_id(
                    ms[1].1->Str_0,
                ) && ms[2].0 == s_dis() && ms[2].1 is Str {
                    Some(ValueS::Ref { id: ms[1].1->Str_0, dis: Some(ms[2].1->Str_0) })
                } else {
                    None
                }
            } else if k == s_uri() {
                if ms.len() == 2 && ms[1].0 == s_val() && ms[1].1 is Str {
                    Some(ValueS::Uri(ms[1].1->Str_0))
                } else {
                    None
                }
            } else if k == s_date() {
                if ms.len() == 2 && ms[1].0 == s_val() && ms[1].1 is Str {
                    match parse_date_str(ms[1].1->Str_0) {
                        Some(d) => Some(ValueS::Date(d)),
                        None => None,
                    }
                } else {
                    None
                }
            } else if k == s_time() {
                if ms.len() == 2 && ms[1].0 == s_val() && ms[1].1 is Str {
                    match parse_time_str(ms[1].1->Str_0) {
                        Some(t) => Some(ValueS::Time(t)),
                        None => None,
                    }
                } else {
                    None
                }
            } else if k == s_datetime() {
                if ms.len() == 3 && ms[1].0 == s_val() && ms[1].1 is Str && ms[2].0 == s_tz()
                    && ms[2].1 is Str {
                    match parse_dt_str(ms[1].1->Str_0, ms[2].1->Str_0) {
                        Some(dt) => Some(ValueS::DateTime(dt)),
                        None => None,
                    }
                } else {
                    None
                }
            } else if k == s_coord() {
                if ms.len() == 3 && ms[1].0 == s_lat() && ms[2].0 == s_lng() {
                    match j2coord_part(ms[1].1, 90000000) {
                        Some(lat) => match j2coord_part(ms[2].1, 180000000) {
                            Some(lng) => Some(ValueS::Coord(Coord { lat_ud: lat, lng_ud: lng })),
                            None => None,
                        },
                        None => None,
                    }
                } else {
                    None
                }
            } else if k == s_xstr() {
                if ms.len() == 3 && ms[1].0 == s_type() && ms[1].1 is Str && is_xstr_type(
                    ms[1].1->Str_0,
                ) && ms[2].0 == s_val() && ms[2].1 is Str {
                    Some(ValueS::Xstr { typ: ms[1].1->Str_0, val: ms[2].1->Str_0 })
                } else {
                    None
                }
            } else if k == s_symbol() {
                if ms.len() == 2 && ms[1].0 == s_val() && ms[1].1 is Str && is_ref_id(
                    ms[1].1->Str_0,
                ) {
                    Some(ValueS::Symbol(ms[1].1->Str_0))
                } else {
                    None
                }
            } else if k == s_grid() {
                j2grid_obj(ms)
            } else {
                None
            }
        }
    } else {
        match j2dict(ms) {
            Some(d) => Some(ValueS::Dict(d)),
            None => None,
        }
    }
}

/// Decode the number sentinel object.
pub open spec fn j2number(ms: Seq<(Seq<char>, JsonS)>) -> Option<ValueS>
    decreases ms, 5int,
{
    if ms.len() >= 2 && ms[1].0 == s_val() {
        match ms[1].1 {
            JsonS::Num { neg, mag, scale } => if num_canon(neg, mag, scale) {
                if ms.len() == 2 {
                    Some(
                        ValueS::Num(
                            NumberS { mag: NumMag::Dec { neg, mag, scale }, unit: None },
                        ),
                    )
                } else if ms.len() == 3 && ms[2].0 == s_unit() && ms[2].1 is Str
                    && ms[2].1->Str_0.len() > 0 {
                    Some(
                        ValueS::Num(
                            NumberS {
                                mag: NumMag::Dec { neg, mag, scale },
                                unit: Some(ms[2].1->Str_0),
                            },
                        ),
                    )
                } else {
                    None
                }
            } else {
                None
            },
            JsonS::Str(s) => if ms.len() == 2 {
                if s == s_inf() {
                    Some(ValueS::Num(NumberS { mag: NumMag::PosInf, unit: None }))
                } else if s == s_neginf() {
                    Some(ValueS::Num(NumberS { mag: NumMag::NegInf, unit: None }))
                } else if s == s_nan() {
                    Some(ValueS::Num(NumberS { mag: NumMag::NaN, unit: None }))
                } else {
                    None
                }
            } else {
                None
            },
            _ => None,
        }
    } else {
        None
    }
}

/// Decode the grid sentinel object.  The decoded grid must satisfy the
/// grid invariants: distinct column names and rows that only use
/// defined columns.
pub open spec fn j2grid_obj(ms: Seq<(Seq<char>, JsonS)>) -> Option<ValueS>
    decreases ms, 5int,
{
    match j2grid_parts(ms) {
        Some(g) => Some(ValueS::Grid(g)),
        None => None,
    }
}

pub open spec fn j2grid_parts(ms: Seq<(Seq<char>, JsonS)>) -> Option<GridS>
    decreases ms, 4int,
{
    if ms.len() == 4 && ms[1].0 == s_meta() && ms[1].1 is Obj && ms[2].0 == s_cols()
        && ms[2].1 is Arr && ms[3].0 == s_rows() && ms[3].1 is Arr {
        match j2dict(ms[1].1->Obj_0) {
            None => None,
            Some(meta) => match j2cols(ms[2].1->Arr_0) {
                None => None,
                Some(cols) => match j2rows(ms[3].1->Arr_0) {
                    None => None,
                    Some(rows) => {
                        let g = GridS { meta, cols, rows };
                        if cols_distinct(cols) && (forall|i: int, k: int|
                            0 <= i < rows.len() && 0 <= k < rows[i].entries.len() ==> grid_has_col(
                                g,
                                #[trigger] rows[i].entries[k].0,
                            )) {
                            Some(g)
                        } else {
                            None
                        }
                    },
                },
            },
        }
    } else {
        None
    }
}


/// Decoding a whole document as a grid.
pub open spec fn j2grid_doc(j: JsonS) -> Option<GridS> {
    match j2v(j) {
        Some(ValueS::Grid(g)) => Some(g),
        _ => None,
    }
}

/// The entry-level facts of a well-formed dict.
pub proof fn lemma_wf_dict_facts(entries: Seq<(Seq<char>, ValueS)>)
    requires
        wf_dict(DictS { entries }),
    ensures
        forall|i: int| 0 <= i < entries.len() ==> is_tag_name((#[trigger] entries[i]).0),
        forall|i: int| 0 <= i < entries.len() ==> wf_value((#[trigger] entries[i]).1),
        forall|i: int, j: int|
            0 <= i < j < entries.len() ==> (#[trigger] entries[i]).0 != (#[trigger] entries[j]).0,
{
    let d = DictS { entries };
    assert forall|i: int| 0 <= i < entries.len() implies is_tag_name((#[trigger] entries[i]).0)
        && wf_value(entries[i].1) by {
        assert(d.entries[i] == entries[i]);
        assert(is_tag_name(d.entries[i].0));
        assert(wf_value(d.entries[i].1));
    }
    assert forall|i: int, j: int|
        0 <= i < j < entries.len() implies (#[trigger] entries[i]).0 != (
    #[trigger] entries[j]).0 by {
        assert(d.entries[i] == entries[i] && d.entries[j] == entries[j]);
        assert(d.entries[i].0 != d.entries[j].0);
    }
}

/// A dict is well-formed when its entries are.
pub proof fn lemma_wf_dict_intro(entries: Seq<(Seq<char>, ValueS)>)
    requires
        forall|i: int| 0 <= i < entries.len() ==> is_tag_name((#[trigger] entries[i]).0),
        forall|i: int| 0 <= i < entries.len() ==> wf_value((#[trigger] entries[i]).1),
        forall|i: int, j: int|
            0 <= i < j < entries.len() ==> (#[trigger] entries[i]).0 != (#[trigger] entries[j]).0,
    ensures
        wf_dict(DictS { entries }),
{
    let d = DictS { entries };
    assert forall|i: int| 0 <= i < d.entries.len() implies is_tag_name((#[trigger] d.entries[i]).0)
        && wf_value(d.entries[i].1) by {
        assert(d.entries[i] == entries[i]);
        assert(is_tag_name(entries[i].0));
        assert(wf_value(entries[i].1));
    }
    assert forall|i: int, j: int|
        0 <= i < j < d.entries.len() implies (#[trigger] d.entries[i]).0 != (
    #[trigger] d.entries[j]).0 by {
        assert(d.entries[i] == entries[i] && d.entries[j] == entries[j]);
        assert(entries[i].0 != entries[j].0);
    }
}

pub proof fn lemma_rt_values(items: Seq<ValueS>)
    requires
        forall|i: int| 0 <= i < items.len() ==> wf_value(#[trigger] items[i]),
    ensures
        js2v(vs2j(items)) == Some(items),
    decreases items, 0int,
{
    if items.len() == 0 {
        assert(vs2j(items) =~= Seq::<JsonS>::empty());
        assert(items =~= Seq::<ValueS>::empty());
    } else {
        lemma_rt_values(items.drop_last());
        assert(items[items.len() - 1] == items.last());
        lemma_rt_value(items.last());
        assert(vs2j(items).drop_last() =~= vs2j(items.drop_last()));
        assert(vs2j(items).last() == v2j(items.last()));
        assert(items.drop_last().push(items.last()) =~= items);
    }
}

pub proof fn lemma_rt_entries(entries: Seq<(Seq<char>, ValueS)>)
    requires
        wf_dict(DictS { entries }),
    ensures
        j2dict(ents2j(entries)) == Some(DictS { entries }),
    decreases entries, 0int,
{
    if entries.len() == 0 {
        assert(ents2j(entries) =~= Seq::<(Seq<char>, JsonS)>::empty());
        assert(entries =~= Seq::<(Seq<char>, ValueS)>::empty());
    } else {
        let pre = entries.drop_last();
        lemma_wf_dict_facts(entries);
        assert(entries[entries.len() - 1] == entries.last());
        assert forall|i: int| 0 <= i < pre.len() implies is_tag_name((#[trigger] pre[i]).0)
            && wf_value(pre[i].1) by {
            assert(pre[i] == entries[i]);
        }
        assert forall|i: int, j: int|
            0 <= i < j < pre.len() implies (#[trigger] pre[i]).0 != (#[trigger] pre[j]).0 by {
            assert(pre[i] == entries[i] && pre[j] == entries[j]);
        }
        lemma_wf_dict_intro(pre);
        lemma_rt_entries(pre);
        lemma_rt_value(entries.last().1);
        if dict_has_key(DictS { entries: pre }, entries.last().0) {
            let i = choose|i: int|
                0 <= i < pre.len() && ((DictS { entries: pre }).entries[i].0) == entries.last().0;
            assert(pre[i] == entries[i]);
            assert(entries[i].0 != entries[entries.len() - 1].0);
            assert(false);
        }
        let ms = ents2j(entries);
        assert(ms.drop_last() =~= ents2j(pre));
        assert(ms.last() == (entries.last().0, v2j(entries.last().1)));
        assert(pre.push(entries.last()) =~= entries);
    }
}

pub proof fn lemma_rt_cols(cols: Seq<ColS>)
    requires
        forall|i: int| 0 <= i < cols.len() ==> is_tag_name((#[trigger] cols[i]).name),
        forall|i: int| 0 <= i < cols.len() ==> wf_dict((#[trigger] cols[i]).meta),
    ensures
        j2cols(cols2j(cols)) == Some(cols),
    decreases cols, 2int,
{
    if cols.len() == 0 {
        assert(cols2j(cols) =~= Seq::<JsonS>::empty());
        assert(cols =~= Seq::<ColS>::empty());
    } else {
        let pre = cols.drop_last();
        assert forall|i: int| 0 <= i < pre.len() implies is_tag_name((#[trigger] pre[i]).name)
            && wf_dict(pre[i].meta) by {
            assert(pre[i] == cols[i]);
        }
        lemma_rt_cols(pre);
        let c = cols.last();
        assert(c == cols[cols.len() - 1]);
        let ms = seq![(s_name(), JsonS::Str(c.name))].add(ents2j(c.meta.entries));
        assert(col2j(c) == JsonS::Obj(ms));
        assert(ms[0] == (s_name(), JsonS::Str(c.name)));
        assert(ms.drop_first() =~= ents2j(c.meta.entries));
        assert(DictS { entries: c.meta.entries } == c.meta);
        lemma_rt_entries(c.meta.entries);
        assert(j2col(col2j(c)) == Some(ColS { name: c.name, meta: c.meta }));
        assert(ColS { name: c.name, meta: c.meta } == c);
        assert(cols2j(cols).drop_last() =~= cols2j(pre));
        assert(cols2j(cols).last() == col2j(c));
        assert(pre.push(c) =~= cols);
    }
}

pub proof fn lemma_rt_rows(rows: Seq<DictS>)
    requires
        forall|i: int| 0 <= i < rows.len() ==> wf_dict(#[trigger] rows[i]),
    ensures
        j2rows(rows2j(rows)) == Some(rows),
    decreases rows, 2int,
{
    if rows.len() == 0 {
        assert(rows2j(rows) =~= Seq::<JsonS>::empty());
        assert(rows =~= Seq::<DictS>::empty());
    } else {
        let pre = rows.drop_last();
        assert forall|i: int| 0 <= i < pre.len() implies wf_dict(#[trigger] pre[i]) by {
            assert(pre[i] == rows[i]);
        }
        lemma_rt_rows(pre);
        let r = rows.last();
        assert(r == rows[rows.len() - 1]);
        assert(DictS { entries: r.entries } == r);
        lemma_rt_entries(r.entries);
        assert(rows2j(rows).drop_last() =~= rows2j(pre));
        assert(rows2j(rows).last() == JsonS::Obj(ents2j(r.entries)));
        assert(pre.push(r) =~= rows);
    }
}

/// Round trip for the scalar kinds.
#[verifier::spinoff_prover]
#[verifier::rlimit(100)]
pub proof fn lemma_rt_scalar(v: ValueS)
    requires
        wf_value(v),
        !(v is List),
        !(v is Dict),
        !(v is Grid),
    ensures
        j2v(v2j(v)) == Some(v),
{
    match v {
        ValueS::Date(d) => {
            lemma_rt_date_value(d);
        },
        ValueS::Time(t) => {
            lemma_rt_time_value(t);
        },
        ValueS::DateTime(dt) => {
            lemma_rt_datetime_value(dt);
        },
        ValueS::Coord(c) => {
            lemma_rt_coord_value(c);
        },
        ValueS::Num(n) => {
            lemma_rt_num_value(n);
        },
        _ => {
            lemma_kinds_distinct();
        },
    }
}

#[verifier::spinoff_prover]
#[verifier::rlimit(100)]
proof fn lemma_rt_date_value(d: crate::value::Date)
    requires
        crate::value::wf_date(d),
    ensures
        j2v(v2j(ValueS::Date(d))) == Some(ValueS::Date(d)),
{
    lemma_kinds_distinct();
    crate::dates::lemma_date_str_roundtrip(d);
}

#[verifier::spinoff_prover]
#[verifier::rlimit(100)]
proof fn lemma_rt_time_value(t: crate::value::Time)
    requires
        crate::value::wf_time(t),
    ensures
        j2v(v2j(ValueS::Time(t))) == Some(ValueS::Time(t)),
{
    lemma_kinds_distinct();
    crate::dates::lemma_time_str_roundtrip(t);
}

#[verifier::spinoff_prover]
#[verifier::rlimit(100)]
proof fn lemma_rt_datetime_value(dt: crate::value::DateTimeS)
    requires
        wf_datetime(dt),
    ensures
        j2v(v2j(ValueS::DateTime(dt))) == Some(ValueS::DateTime(dt)),
{
    lemma_kinds_distinct();
    crate::dates::lemma_dt_str_roundtrip(dt);
}

#[verifier::spinoff_prover]
#[verifier::rlimit(100)]
proof fn lemma_rt_coord_value(c: Coord)
    requires
        wf_coord(c),
    ensures
        j2v(v2j(ValueS::Coord(c))) == Some(ValueS::Coord(c)),
{
    lemma_kinds_distinct();
    assert(pow10(0) == 1);
}

#[verifier::spinoff_prover]
#[verifier::rlimit(100)]
proof fn lemma_rt_num_value(n: NumberS)
    requires
        wf_num(n),
    ensures
        j2v(v2j(ValueS::Num(n))) == Some(ValueS::Num(n)),
{
    lemma_kinds_distinct();
}

/// Round trip at the document level: decoding the encoding of a
/// well-formed value yields that value again.
pub proof fn lemma_rt_value(v: ValueS)
    requires
        wf_value(v),
    ensures
        j2v(v2j(v)) == Some(v),
    decreases v, 3int,
{
    match v {
        ValueS::List(items) => {
            lemma_rt_values(items);
        },
        ValueS::Dict(d) => {
            lemma_kinds_distinct();
            let ms = ents2j(d.entries);
            assert(wf_dict(d));
            assert(DictS { entries: d.entries } == d);
            if d.entries.len() > 0 {
                lemma_ents2j_index(d.entries, 0);
                assert(ms[0] == (d.entries[0].0, v2j(d.entries[0].1)));
                assert(is_tag_name(d.entries[0].0));
                assert(d.entries[0].0 != s_kind()) by {
                    assert(d.entries[0].0[0] != s_kind()[0]);
                }
            } else {
                lemma_ents2j_len(d.entries);
            }
            lemma_rt_entries(d.entries);
        },
        ValueS::Grid(g) => {
            lemma_rt_grid(g);
        },
        _ => {
            lemma_rt_scalar(v);
        },
    }
}

pub proof fn lemma_ents2j_len(entries: Seq<(Seq<char>, ValueS)>)
    ensures
        ents2j(entries).len() == entries.len(),
    decreases entries, 0int,
{
    if entries.len() > 0 {
        lemma_ents2j_len(entries.drop_last());
    }
}

pub proof fn lemma_ents2j_index(entries: Seq<(Seq<char>, ValueS)>, i: int)
    requires
        0 <= i < entries.len(),
    ensures
        ents2j(entries).len() == entries.len(),
        ents2j(entries)[i] == (entries[i].0, v2j(entries[i].1)),
    decreases entries, 1int,
{
    lemma_ents2j_len(entries);
    if i < entries.len() - 1 {
        lemma_ents2j_index(entries.drop_last(), i);
        assert(entries.drop_last()[i] == entries[i]);
        assert(ents2j(entries)[i] == ents2j(entries.drop_last())[i]);
    } else {
        assert(entries.last() == entries[i]);
    }
}

#[verifier::rlimit(60)]
pub proof fn lemma_rt_grid(g: GridS)
    requires
        wf_grid(g),
    ensures
        j2v(grid2j(g)) == Some(ValueS::Grid(g)),
    decreases g, 2int,
{
    lemma_kinds_distinct();
    let ms = seq![
        (s_kind(), JsonS::Str(s_grid())),
        (s_meta(), JsonS::Obj(ents2j(g.meta.entries))),
        (s_cols(), JsonS::Arr(cols2j(g.cols))),
        (s_rows(), JsonS::Arr(rows2j(g.rows))),
    ];
    assert(grid2j(g) == JsonS::Obj(ms));
    assert(ms[0] == (s_kind(), JsonS::Str(s_grid())));
    assert(ms[1] == (s_meta(), JsonS::Obj(ents2j(g.meta.entries))));
    assert(ms[2] == (s_cols(), JsonS::Arr(cols2j(g.cols))));
    assert(ms[3] == (s_rows(), JsonS::Arr(rows2j(g.rows))));
    assert(DictS { entries: g.meta.entries } == g.meta);
    lemma_rt_entries(g.meta.entries);
    lemma_rt_cols(g.cols);
    lemma_rt_rows(g.rows);
    assert(j2grid_parts(ms) == Some(GridS { meta: g.meta, cols: g.cols, rows: g.rows })) by {
        assert(GridS { meta: g.meta, cols: g.cols, rows: g.rows } == g);
        assert(cols_distinct(g.cols));
    }
    assert(GridS { meta: g.meta, cols: g.cols, rows: g.rows } == g);
    assert(j2grid_parts(ms) == Some(g));
    assert(j2grid_obj(ms) == Some(ValueS::Grid(g)));
    assert(obj2v(ms) == Some(ValueS::Grid(g)));
    assert(j2v(JsonS::Obj(ms)) == obj2v(ms));
}

/// The codec round trip for grids: decoding the encoded document of
/// any well-formed grid yields a semantically equal grid.
pub proof fn lemma_grid_round_trip(g: GridS)
    requires
        wf_grid(g),
    ensures
        j2grid_doc(grid2j(g)) == Some(g),
{
    lemma_rt_grid(g);
}


pub proof fn lemma_vs2j_index(items: Seq<ValueS>, i: int)
    requires
        0 <= i < items.len(),
    ensures
        vs2j(items).len() == items.len(),
        vs2j(items)[i] == v2j(items[i]),
    decreases items, 1int,
{
    lemma_vs2j_len(items);
    if i < items.len() - 1 {
        lemma_vs2j_index(items.drop_last(), i);
        assert(items.drop_last()[i] == items[i]);
        assert(vs2j(items)[i] == vs2j(items.drop_last())[i]);
    } else {
        assert(items.last() == items[i]);
    }
}

pub proof fn lemma_vs2j_len(items: Seq<ValueS>)
    ensures
        vs2j(items).len() == items.len(),
    decreases items, 0int,
{
    if items.len() > 0 {
        lemma_vs2j_len(items.drop_last());
    }
}

pub proof fn lemma_cols2j_index(cols: Seq<ColS>, i: int)
    requires
        0 <= i < cols.len(),
    ensures
        cols2j(cols).len() == cols.len(),
        cols2j(cols)[i] == col2j(cols[i]),
    decreases cols, 1int,
{
    lemma_cols2j_len(cols);
    if i < cols.len() - 1 {
        lemma_cols2j_index(cols.drop_last(), i);
        assert(cols.drop_last()[i] == cols[i]);
        assert(cols2j(cols)[i] == cols2j(cols.drop_last())[i]);
    } else {
        assert(cols.last() == cols[i]);
    }
}

pub proof fn lemma_cols2j_len(cols: Seq<ColS>)
    ensures
        cols2j(cols).len() == cols.len(),
    decreases cols, 0int,
{
    if cols.len() > 0 {
        lemma_cols2j_len(cols.drop_last());
    }
}

pub proof fn lemma_rows2j_index(rows: Seq<DictS>, i: int)
    requires
        0 <= i < rows.len(),
    ensures
        rows2j(rows).len() == rows.len(),
        rows2j(rows)[i] == JsonS::Obj(ents2j(rows[i].entries)),
    decreases rows, 1int,
{
    lemma_rows2j_len(rows);
    if i < rows.len() - 1 {
        lemma_rows2j_index(rows.drop_last(), i);
        assert(rows.drop_last()[i] == rows[i]);
        assert(rows2j(rows)[i] == rows2j(rows.drop_last())[i]);
    } else {
        assert(rows.last() == rows[i]);
    }
}

pub proof fn lemma_rows2j_len(rows: Seq<DictS>)
    ensures
        rows2j(rows).len() == rows.len(),
    decreases rows, 0int,
{
    if rows.len() > 0 {
        lemma_rows2j_len(rows.drop_last());
    }
}

} // verus!
