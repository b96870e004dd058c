//! The executable Hayson codec: encoding a grid to wire text and
//! decoding wire text back to a grid, each pinned to the
//! specification-level codec.

use vstd::prelude::*;
use crate::json::{Json, JsonS, jmembers_dv, jsons_dv, lemma_jmembers_dv, lemma_jsons_dv, wf_json};
use crate::value::{
    Col, ColS, Coord, Date, DateTime, Dict, DictS, Grid, GridS, NumMag, Number, NumberS, Time,
    Value, ValueS, wf_coord, wf_datetime, wf_date, wf_dict, wf_grid, wf_num, wf_time, wf_value,
};
use crate::hayson::{
    coord_part2j, col2j, cols2j, ents2j, grid2j, j2grid_doc, kind_obj, num2j, rows2j, s_cols,
    s_coord, s_date, s_datetime, s_dis, s_grid, s_kind, s_lat, s_lng, s_marker, s_meta, s_na,
    s_name, s_nan, s_neginf, s_number, s_inf, s_ref, s_remove, s_rows, s_symbol, s_time, s_type,
    s_tz, s_unit, s_uri, s_val, s_xstr, v2j, vs2j,
};
use crate::dates::{date_str, dt_str, offset_str, time_str};
use crate::strutil::{char_to_digit, chars_to_string, digits_val, push_padded_digits, str_to_chars};
use crate::tagname::TagName;

verus! {

broadcast use vstd::std_specs::vec::group_vec_axioms, vstd::seq::group_seq_axioms;

/// A decode failure; when the failing cell is known, its row index
/// and column name are carried along.
#[derive(Debug)]
pub struct CodecError {
    pub row: Option<u64>,
    pub col: Option<String>,
}

fn key(k: &str) -> (r: String)
    ensures
        r@ == k@,
{
    k.to_owned()
}

fn jstr(s: &str) -> (r: Json)
    ensures
        r@ == JsonS::Str(s@),
{
    Json::Str(s.to_owned())
}

/// The printed date as a string.
pub(crate) fn date_chars(d: Date, out: &mut Vec<char>)
    ensures
        final (out)@ == old(out)@ + date_str(d),
{
    push_padded_digits(d.year as u64, 4, out);
    out.push('-');
    push_padded_digits(d.month as u64, 2, out);
    out.push('-');
    push_padded_digits(d.day as u64, 2, out);
    proof {
        assert(out@ =~= old(out)@ + date_str(d));
    }
}

fn time_chars(t: Time, out: &mut Vec<char>)
    ensures
        final (out)@ == old(out)@ + time_str(t),
{
    push_padded_digits(t.hour as u64, 2, out);
    out.push(':');
    push_padded_digits(t.minute as u64, 2, out);
    out.push(':');
    push_padded_digits(t.second as u64, 2, out);
    if t.millis > 0 {
        out.push('.');
        push_padded_digits(t.millis as u64, 3, out);
    }
    proof {
        assert(out@ =~= old(out)@ + time_str(t));
    }
}

fn offset_chars(o: i32, out: &mut Vec<char>)
    requires
        -18 * 60 <= o <= 18 * 60,
    ensures
        final (out)@ == old(out)@ + offset_str(o),
{
    if o == 0 {
        out.push('Z');
    } else {
        if o < 0 {
            out.push('-');
        } else {
            out.push('+');
        }
        let a: u64 = if o < 0 {
            (-(o as i64)) as u64
        } else {
            o as u64
        };
        push_padded_digits(a / 60, 2, out);
        out.push(':');
        push_padded_digits(a % 60, 2, out);
    }
    proof {
        assert(out@ =~= old(out)@ + offset_str(o));
    }
}

/// The printed timestamp of a well-formed date-time.
pub(crate) fn dt_val_string(dt: &DateTime) -> (r: String)
    requires
        wf_datetime(crate::value::datetime_dv(*dt)),
    ensures
        r@ == dt_str(crate::value::datetime_dv(*dt)),
{
    let mut out: Vec<char> = Vec::new();
    date_chars(dt.date, &mut out);
    out.push('T');
    time_chars(dt.time, &mut out);
    offset_chars(dt.offset_min, &mut out);
    proof {
        assert(out@ =~= dt_str(crate::value::datetime_dv(*dt)));
    }
    chars_to_string(&out)
}

/// An object whose member values are printable is printable.
pub proof fn lemma_wf_obj(ms: Seq<(Seq<char>, JsonS)>)
    requires
        forall|i: int| 0 <= i < ms.len() ==> wf_json((#[trigger] ms[i]).1),
    ensures
        wf_json(JsonS::Obj(ms)),
{
}

/// Well-formed values encode to well-formed (printable) documents.
#[verifier::rlimit(100)]
pub proof fn lemma_wf_v2j(v: ValueS)
    requires
        wf_value(v),
    ensures
        wf_json(v2j(v)),
    decreases v, 3int,
{
    match v {
        ValueS::List(items) => {
            lemma_wf_vs2j(items);
            assert(wf_json(JsonS::Arr(vs2j(items))));
            assert(v2j(v) == JsonS::Arr(vs2j(items)));
        },
        ValueS::Dict(d) => {
            assert(wf_dict(d));
            assert(DictS { entries: d.entries } == d);
            crate::hayson::lemma_wf_dict_facts(d.entries);
            lemma_wf_ents2j(d.entries);
            lemma_wf_obj(ents2j(d.entries));
            assert(wf_json(v2j(v)));
        },
        ValueS::Grid(g) => {
            lemma_wf_grid2j(g);
            assert(wf_json(v2j(v)));
        },
        ValueS::Num(n) => {
            match n.mag {
                NumMag::Dec { neg, mag, scale } => {
                    match n.unit {
                        None => {},
                        Some(u) => {
                            let ms = seq![
                                (s_kind(), JsonS::Str(s_number())),
                                (s_val(), JsonS::Num { neg, mag, scale }),
                                (s_unit(), JsonS::Str(u)),
                            ];
                            assert forall|i: int| 0 <= i < ms.len() implies wf_json(
                                (#[trigger] ms[i]).1,
                            ) by {
                                assert(ms[0].1 == JsonS::Str(s_number()));
                                assert(ms[1].1 == (JsonS::Num { neg, mag, scale }));
                                assert(ms[2].1 == JsonS::Str(u));
                            }
                            lemma_wf_obj(ms);
                            assert(wf_json(v2j(v)));
                        },
                    }
                },
                _ => {
                    assert forall|i: int| 0 <= i < v2j(v)->Obj_0.len() implies wf_json(
                        (#[trigger] v2j(v)->Obj_0[i]).1,
                    ) by {
                        assert(v2j(v)->Obj_0[i].1 is Str);
                    }
                    lemma_wf_obj(v2j(v)->Obj_0);
                    assert(v2j(v) == JsonS::Obj(v2j(v)->Obj_0));
                    assert(wf_json(v2j(v)));
                },
            }
        },
        ValueS::Coord(c) => {
            let ms = seq![
                (s_kind(), JsonS::Str(s_coord())),
                (s_lat(), coord_part2j(c.lat_ud)),
                (s_lng(), coord_part2j(c.lng_ud)),
            ];
            assert forall|i: int| 0 <= i < ms.len() implies wf_json((#[trigger] ms[i]).1) by {
                assert(ms[0].1 == JsonS::Str(s_coord()));
                assert(ms[1].1 == coord_part2j(c.lat_ud));
                assert(ms[2].1 == coord_part2j(c.lng_ud));
            }
            lemma_wf_obj(ms);
            assert(wf_json(v2j(v)));
        },
        ValueS::Marker => {
            lemma_wf_kind_obj(s_marker());
            assert(wf_json(v2j(v)));
        },
        ValueS::Remove => {
            lemma_wf_kind_obj(s_remove());
            assert(wf_json(v2j(v)));
        },
        ValueS::Na => {
            lemma_wf_kind_obj(s_na());
            assert(wf_json(v2j(v)));
        },
        _ => {
            if v2j(v) is Obj {
                assert forall|i: int| 0 <= i < v2j(v)->Obj_0.len() implies wf_json(
                    (#[trigger] v2j(v)->Obj_0[i]).1,
                ) by {
                    assert(v2j(v)->Obj_0[i].1 is Str);
                }
                lemma_wf_obj(v2j(v)->Obj_0);
                assert(v2j(v) == JsonS::Obj(v2j(v)->Obj_0));
            }
        },
    }
}

pub proof fn lemma_wf_kind_obj(k: Seq<char>)
    ensures
        wf_json(kind_obj(k)),
{
    let ms = seq![(s_kind(), JsonS::Str(k))];
    assert forall|i: int| 0 <= i < ms.len() implies wf_json((#[trigger] ms[i]).1) by {
        assert(ms[0].1 == JsonS::Str(k));
    }
}

pub proof fn lemma_wf_vs2j(items: Seq<ValueS>)
    requires
        forall|i: int| 0 <= i < items.len() ==> wf_value(#[trigger] items[i]),
    ensures
        forall|i: int| 0 <= i < vs2j(items).len() ==> wf_json(#[trigger] vs2j(items)[i]),
    decreases items, 0int,
{
    if items.len() > 0 {
        lemma_wf_vs2j(items.drop_last());
        assert(items[items.len() - 1] == items.last());
        lemma_wf_v2j(items.last());
        assert forall|i: int| 0 <= i < vs2j(items).len() implies wf_json(
            #[trigger] vs2j(items)[i],
        ) by {
            if i < vs2j(items).len() - 1 {
                assert(vs2j(items)[i] == vs2j(items.drop_last())[i]);
            }
        }
    }
}

pub proof fn lemma_wf_ents2j(entries: Seq<(Seq<char>, ValueS)>)
    requires
        forall|i: int| 0 <= i < entries.len() ==> wf_value((#[trigger] entries[i]).1),
    ensures
        forall|i: int| 0 <= i < ents2j(entries).len() ==> wf_json((#[trigger] ents2j(entries)[i]).1),
    decreases entries, 0int,
{
    if entries.len() > 0 {
        lemma_wf_ents2j(entries.drop_last());
        assert(entries[entries.len() - 1] == entries.last());
        lemma_wf_v2j(entries.last().1);
        assert forall|i: int| 0 <= i < ents2j(entries).len() implies wf_json(
            (#[trigger] ents2j(entries)[i]).1,
        ) by {
            if i < ents2j(entries).len() - 1 {
                assert(ents2j(entries)[i] == ents2j(entries.drop_last())[i]);
            }
        }
    }
}

#[verifier::rlimit(100)]
pub proof fn lemma_wf_grid2j(g: GridS)
    requires
        wf_grid(g),
    ensures
        wf_json(grid2j(g)),
    decreases g, 2int,
{
    assert(DictS { entries: g.meta.entries } == g.meta);
    crate::hayson::lemma_wf_dict_facts(g.meta.entries);
    lemma_wf_ents2j(g.meta.entries);
    lemma_wf_obj(ents2j(g.meta.entries));
    lemma_wf_cols2j(g.cols);
    lemma_wf_rows2j(g.rows);
    let ms = seq![
        (s_kind(), JsonS::Str(s_grid())),
        (s_meta(), JsonS::Obj(ents2j(g.meta.entries))),
        (s_cols(), JsonS::Arr(cols2j(g.cols))),
        (s_rows(), JsonS::Arr(rows2j(g.rows))),
    ];
    assert forall|i: int| 0 <= i < ms.len() implies wf_json((#[trigger] ms[i]).1) by {
        assert(ms[0].1 == JsonS::Str(s_grid()));
        assert(ms[1].1 == JsonS::Obj(ents2j(g.meta.entries)));
        assert(ms[2].1 == JsonS::Arr(cols2j(g.cols)));
        assert(ms[3].1 == JsonS::Arr(rows2j(g.rows)));
    }
    lemma_wf_obj(ms);
}

pub proof fn lemma_wf_cols2j(cols: Seq<ColS>)
    requires
        forall|i: int| 0 <= i < cols.len() ==> wf_dict((#[trigger] cols[i]).meta),
    ensures
        forall|i: int| 0 <= i < cols2j(cols).len() ==> wf_json(#[trigger] cols2j(cols)[i]),
    decreases cols, 1int,
{
    if cols.len() > 0 {
        let pre = cols.drop_last();
        assert forall|i: int| 0 <= i < pre.len() implies wf_dict((#[trigger] pre[i]).meta) by {
            assert(pre[i] == cols[i]);
        }
        lemma_wf_cols2j(pre);
        let c = cols.last();
        assert(c == cols[cols.len() - 1]);
        assert(wf_dict(c.meta));
        assert(wf_json(col2j(c))) by {
            assert(DictS { entries: c.meta.entries } == c.meta);
            crate::hayson::lemma_wf_dict_facts(c.meta.entries);
            lemma_wf_ents2j(c.meta.entries);
            let ms = seq![(s_name(), JsonS::Str(c.name))].add(ents2j(c.meta.entries));
            assert forall|i: int| 0 <= i < ms.len() implies wf_json((#[trigger] ms[i]).1) by {
                if i > 0 {
                    assert(ms[i] == ents2j(c.meta.entries)[i - 1]);
                } else {
                    assert(ms[0].1 == JsonS::Str(c.name));
                }
            }
            lemma_wf_obj(ms);
        }
        assert forall|i: int| 0 <= i < cols2j(cols).len() implies wf_json(
            #[trigger] cols2j(cols)[i],
        ) by {
            if i < cols2j(cols).len() - 1 {
                assert(cols2j(cols)[i] == cols2j(pre)[i]);
            }
        }
    }
}

pub proof fn lemma_wf_rows2j(rows: Seq<DictS>)
    requires
        forall|i: int| 0 <= i < rows.len() ==> wf_dict(#[trigger] rows[i]),
    ensures
        forall|i: int| 0 <= i < rows2j(rows).len() ==> wf_json(#[trigger] rows2j(rows)[i]),
    decreases rows, 1int,
{
    if rows.len() > 0 {
        let pre = rows.drop_last();
        assert forall|i: int| 0 <= i < pre.len() implies wf_dict(#[trigger] pre[i]) by {
            assert(pre[i] == rows[i]);
        }
        lemma_wf_rows2j(pre);
        let r = rows.last();
        assert(r == rows[rows.len() - 1]);
        assert(wf_json(rows2j(rows).last())) by {
            assert(DictS { entries: r.entries } == r);
            crate::hayson::lemma_wf_dict_facts(r.entries);
            lemma_wf_ents2j(r.entries);
            lemma_wf_obj(ents2j(r.entries));
            assert(rows2j(rows).last() == JsonS::Obj(ents2j(r.entries)));
        }
        assert forall|i: int| 0 <= i < rows2j(rows).len() implies wf_json(
            #[trigger] rows2j(rows)[i],
        ) by {
            if i < rows2j(rows).len() - 1 {
                assert(rows2j(rows)[i] == rows2j(pre)[i]);
            }
        }
    }
}


fn e_kind_obj(k: &str) -> (r: Json)
    ensures
        r@ == kind_obj(k@),
{
    let mut ms: Vec<(String, Json)> = Vec::new();
    ms.push((key("_kind"), jstr(k)));
    proof {
        reveal_strlit("_kind");
        assert("_kind"@ =~= s_kind());
        lemma_jmembers_dv(ms@);
        assert(jmembers_dv(ms@) =~= seq![(s_kind(), JsonS::Str(k@))]);
    }
    Json::Obj(ms)
}

fn e_kind_val_obj(kind: &str, val: Json) -> (r: Json)
    ensures
        r@ == JsonS::Obj(seq![(s_kind(), JsonS::Str(kind@)), (s_val(), val@)]),
{
    let ghost vj = val@;
    let mut ms: Vec<(String, Json)> = Vec::new();
    ms.push((key("_kind"), jstr(kind)));
    ms.push((key("val"), val));
    proof {
        reveal_strlit("_kind");
        reveal_strlit("val");
        assert("_kind"@ =~= s_kind());
        assert("val"@ =~= s_val());
        lemma_jmembers_dv(ms@);
        assert(jmembers_dv(ms@).len() == 2);
        assert(jmembers_dv(ms@)[0] == (ms@[0].0@, crate::json::json_dv(ms@[0].1)));
        assert(jmembers_dv(ms@)[1] == (ms@[1].0@, crate::json::json_dv(ms@[1].1)));
        assert(jmembers_dv(ms@) =~= seq![(s_kind(), JsonS::Str(kind@)), (s_val(), vj)]);
    }
    Json::Obj(ms)
}

fn e_kind_val3_obj(kind: &str, val: Json, k3: &str, v3: Json, ghost_k3: Ghost<Seq<char>>) -> (r:
    Json)
    requires
        k3@ == ghost_k3@,
    ensures
        r@ == JsonS::Obj(
            seq![(s_kind(), JsonS::Str(kind@)), (s_val(), val@), (ghost_k3@, v3@)],
        ),
{
    let ghost vj = val@;
    let ghost v3j = v3@;
    let mut ms: Vec<(String, Json)> = Vec::new();
    ms.push((key("_kind"), jstr(kind)));
    ms.push((key("val"), val));
    ms.push((key(k3), v3));
    proof {
        reveal_strlit("_kind");
        reveal_strlit("val");
        assert("_kind"@ =~= s_kind());
        assert("val"@ =~= s_val());
        lemma_jmembers_dv(ms@);
        assert(jmembers_dv(ms@).len() == 3);
        assert(jmembers_dv(ms@)[0] == (ms@[0].0@, crate::json::json_dv(ms@[0].1)));
        assert(jmembers_dv(ms@)[1] == (ms@[1].0@, crate::json::json_dv(ms@[1].1)));
        assert(jmembers_dv(ms@)[2] == (ms@[2].0@, crate::json::json_dv(ms@[2].1)));
        assert(jmembers_dv(ms@) =~= seq![
            (s_kind(), JsonS::Str(kind@)),
            (s_val(), vj),
            (ghost_k3@, v3j),
        ]);
    }
    Json::Obj(ms)
}

fn e_coord_part(ud: i64) -> (r: Json)
    requires
        -180000000 <= ud <= 180000000,
    ensures
        r@ == coord_part2j(ud),
{
    let neg = ud < 0;
    let mag: u64 = if ud < 0 {
        (-ud) as u64
    } else {
        ud as u64
    };
    Json::Num { neg, mag, scale: 6 }
}

/// Encode one value as a JSON document.
#[verifier::rlimit(100)]
pub fn e_v2j(v: &Value) -> (r: Json)
    requires
        wf_value(v@),
    ensures
        r@ == v2j(v@),
    decreases *v, 2int,
{
    match v {
        Value::Marker => {
            let r = e_kind_obj("marker");
            proof {
                reveal_strlit("marker");
                assert("marker"@ =~= s_marker());
            }
            r
        },
        Value::Remove => {
            let r = e_kind_obj("remove");
            proof {
                reveal_strlit("remove");
                assert("remove"@ =~= s_remove());
            }
            r
        },
        Value::Na => {
            let r = e_kind_obj("na");
            proof {
                reveal_strlit("na");
                assert("na"@ =~= s_na());
            }
            r
        },
        Value::Bool(b) => Json::Bool(*b),
        Value::Str(s) => Json::Str(s.clone()),
        Value::Num(n) => {
            match n.mag {
                NumMag::Dec { neg, mag, scale } => {
                    match &n.unit {
                        None => Json::Num { neg, mag, scale },
                        Some(u) => {
                            proof {
                                reveal_strlit("number");
                                reveal_strlit("unit");
                                assert("number"@ =~= s_number());
                                assert("unit"@ =~= s_unit());
                            }
                            let r = e_kind_val3_obj(
                                "number",
                                Json::Num { neg, mag, scale },
                                "unit",
                                jstr(u.as_str()),
                                Ghost(s_unit()),
                            );
                            proof {
                                reveal_strlit("number");
                                reveal_strlit("unit");
                                assert("number"@ =~= s_number());
                                assert("unit"@ =~= s_unit());
                            }
                            r
                        },
                    }
                },
                NumMag::PosInf => {
                    let r = e_kind_val_obj("number", jstr("INF"));
                    proof {
                        reveal_strlit("number");
                        reveal_strlit("INF");
                        assert("number"@ =~= s_number());
                        assert("INF"@ =~= s_inf());
                    }
                    r
                },
                NumMag::NegInf => {
                    let r = e_kind_val_obj("number", jstr("-INF"));
                    proof {
                        reveal_strlit("number");
                        reveal_strlit("-INF");
                        assert("number"@ =~= s_number());
                        assert("-INF"@ =~= s_neginf());
                    }
                    r
                },
                NumMag::NaN => {
                    let r = e_kind_val_obj("number", jstr("NaN"));
                    proof {
                        reveal_strlit("number");
                        reveal_strlit("NaN");
                        assert("NaN"@ =~= s_nan());
                        assert("number"@ =~= s_number());
                    }
                    r
                },
            }
        },
        Value::Ref { id, dis } => {
            match dis {
                None => {
                    let r = e_kind_val_obj("ref", jstr(id.as_str()));
                    proof {
                        reveal_strlit("ref");
                        assert("ref"@ =~= s_ref());
                    }
                    r
                },
                Some(d) => {
                    proof {
                        reveal_strlit("ref");
                        reveal_strlit("dis");
                        assert("ref"@ =~= s_ref());
                        assert("dis"@ =~= s_dis());
                    }
                    let r = e_kind_val3_obj(
                        "ref",
                        jstr(id.as_str()),
                        "dis",
                        jstr(d.as_str()),
                        Ghost(s_dis()),
                    );
                    proof {
                        reveal_strlit("ref");
                        reveal_strlit("dis");
                        assert("ref"@ =~= s_ref());
                        assert("dis"@ =~= s_dis());
                    }
                    r
                },
            }
        },
        Value::Uri(s) => {
            let r = e_kind_val_obj("uri", jstr(s.as_str()));
            proof {
                reveal_strlit("uri");
                assert("uri"@ =~= s_uri());
            }
            r
        },
        Value::Date(d) => {
            let mut cs: Vec<char> = Vec::new();
            date_chars(*d, &mut cs);
            let vs = chars_to_string(&cs);
            let r = e_kind_val_obj("date", Json::Str(vs));
            proof {
                reveal_strlit("date");
                assert("date"@ =~= s_date());
                assert(cs@ =~= date_str(*d));
            }
            r
        },
        Value::Time(t) => {
            let mut cs: Vec<char> = Vec::new();
            time_chars(*t, &mut cs);
            let vs = chars_to_string(&cs);
            let r = e_kind_val_obj("time", Json::Str(vs));
            proof {
                reveal_strlit("time");
                assert("time"@ =~= s_time());
                assert(cs@ =~= time_str(*t));
            }
            r
        },
        Value::DateTime(dt) => {
            let vs = dt_val_string(dt);
            proof {
                reveal_strlit("dateTime");
                reveal_strlit("tz");
                assert("dateTime"@ =~= s_datetime());
                assert("tz"@ =~= s_tz());
            }
            let r = e_kind_val3_obj(
                "dateTime",
                Json::Str(vs),
                "tz",
                jstr(dt.tz.as_str()),
                Ghost(s_tz()),
            );
            proof {
                reveal_strlit("dateTime");
                reveal_strlit("tz");
                assert("dateTime"@ =~= s_datetime());
                assert("tz"@ =~= s_tz());
            }
            r
        },
        Value::Coord(c) => {
            let ghost lat = coord_part2j(c.lat_ud);
            let ghost lng = coord_part2j(c.lng_ud);
            let mut ms: Vec<(String, Json)> = Vec::new();
            ms.push((key("_kind"), jstr("coord")));
            ms.push((key("lat"), e_coord_part(c.lat_ud)));
            ms.push((key("lng"), e_coord_part(c.lng_ud)));
            proof {
                reveal_strlit("_kind");
                reveal_strlit("coord");
                reveal_strlit("lat");
                reveal_strlit("lng");
                assert("_kind"@ =~= s_kind());
                assert("coord"@ =~= s_coord());
                assert("lat"@ =~= s_lat());
                assert("lng"@ =~= s_lng());
                lemma_jmembers_dv(ms@);
                assert(jmembers_dv(ms@).len() == 3);
                assert(jmembers_dv(ms@)[0] == (ms@[0].0@, crate::json::json_dv(ms@[0].1)));
                assert(jmembers_dv(ms@)[1] == (ms@[1].0@, crate::json::json_dv(ms@[1].1)));
                assert(jmembers_dv(ms@)[2] == (ms@[2].0@, crate::json::json_dv(ms@[2].1)));
                assert(jmembers_dv(ms@) =~= seq![
                    (s_kind(), JsonS::Str(s_coord())),
                    (s_lat(), lat),
                    (s_lng(), lng),
                ]);
            }
            Json::Obj(ms)
        },
        Value::Xstr { typ, val } => {
            let ghost tj = typ@;
            let ghost vj = val@;
            let mut ms: Vec<(String, Json)> = Vec::new();
            ms.push((key("_kind"), jstr("xstr")));
            ms.push((key("type"), jstr(typ.as_str())));
            ms.push((key("val"), jstr(val.as_str())));
            proof {
                reveal_strlit("_kind");
                reveal_strlit("xstr");
                reveal_strlit("type");
                reveal_strlit("val");
                assert("_kind"@ =~= s_kind());
                assert("xstr"@ =~= s_xstr());
                assert("type"@ =~= s_type());
                assert("val"@ =~= s_val());
                lemma_jmembers_dv(ms@);
                assert(jmembers_dv(ms@).len() == 3);
                assert(jmembers_dv(ms@)[0] == (ms@[0].0@, crate::json::json_dv(ms@[0].1)));
                assert(jmembers_dv(ms@)[1] == (ms@[1].0@, crate::json::json_dv(ms@[1].1)));
                assert(jmembers_dv(ms@)[2] == (ms@[2].0@, crate::json::json_dv(ms@[2].1)));
                assert(jmembers_dv(ms@) =~= seq![
                    (s_kind(), JsonS::Str(s_xstr())),
                    (s_type(), JsonS::Str(tj)),
                    (s_val(), JsonS::Str(vj)),
                ]);
            }
            Json::Obj(ms)
        },
        Value::Symbol(s) => {
            let r = e_kind_val_obj("symbol", jstr(s.as_str()));
            proof {
                reveal_strlit("symbol");
                assert("symbol"@ =~= s_symbol());
            }
            r
        },
        Value::List(items) => {
            let ghost dvs = crate::value::values_dv(items@);
            proof {
                crate::value::lemma_values_dv(items@);
            }
            let mut out: Vec<Json> = Vec::new();
            let mut i: usize = 0;
            while i < items.len()
                invariant
                    *v == Value::List(*items),
                    wf_value(v@),
                    0 <= i <= items@.len(),
                    dvs == crate::value::values_dv(items@),
                    dvs.len() == items@.len(),
                    forall|k: int|
                        0 <= k < items@.len() ==> dvs[k] == crate::value::value_dv(
                            #[trigger] items@[k],
                        ),
                    jsons_dv(out@) =~= vs2j(dvs.take(i as int)),
                    out@.len() == i,
                decreases items@.len() - i,
            {
                proof {
                    assert(decreases_to!(*v => v->List_0));
                    assert(*items == v->List_0);
                    assert(wf_value(ValueS::List(dvs))) by {
                        assert(v@ == ValueS::List(dvs));
                    }
                    assert(wf_value(dvs[i as int])) by {
                        assert(ValueS::List(dvs)->List_0 == dvs);
                        assert(ValueS::List(dvs)->List_0[i as int] == dvs[i as int]);
                    }
                }
                let jv = e_v2j(&items[i]);
                let ghost old_out = out@;
                out.push(jv);
                proof {
                    lemma_jsons_dv(out@);
                    lemma_jsons_dv(old_out);
                    crate::hayson::lemma_vs2j_len(dvs.take(i + 1));
                    assert forall|k: int| 0 <= k < out@.len() implies jsons_dv(out@)[k] == vs2j(
                        dvs.take(i + 1),
                    )[k] by {
                        crate::hayson::lemma_vs2j_index(dvs.take(i + 1), k);
                        assert(dvs.take(i + 1)[k] == dvs[k]);
                        if k < i {
                            assert(out@[k] == old_out[k]);
                            crate::hayson::lemma_vs2j_index(dvs.take(i as int), k);
                        } else {
                            assert(out@[k] == jv);
                        }
                    }
                    assert(jsons_dv(out@) =~= vs2j(dvs.take(i + 1)));
                }
                i = i + 1;
            }
            proof {
                assert(dvs.take(dvs.len() as int) =~= dvs);
                assert(jsons_dv(out@) =~= vs2j(dvs));
            }
            Json::Arr(out)
        },
        Value::Dict(d) => {
            let ms = e_dict_members(d);
            Json::Obj(ms)
        },
        Value::Grid(g) => {
            let r = e_grid2j(g);
            proof {
                assert(v@ == ValueS::Grid(crate::value::grid_dv(**g)));
            }
            r
        },
    }
}

/// Encode a dict's entries as object members.
#[verifier::rlimit(100)]
pub fn e_dict_members(d: &Dict) -> (r: Vec<(String, Json)>)
    requires
        wf_value(ValueS::Dict(d@)),
    ensures
        jmembers_dv(r@) == ents2j(crate::value::dict_dv(*d).entries),
    decreases *d, 0int,
{
    let ghost dve = crate::value::entries_dv(d.entries@);
    proof {
        crate::value::lemma_entries_dv(d.entries@);
        assert(wf_dict(d@));
        assert(d@.entries == dve);
    }
    let mut out: Vec<(String, Json)> = Vec::new();
    let mut i: usize = 0;
    while i < d.entries.len()
        invariant
            wf_dict(DictS { entries: dve }),
            0 <= i <= d.entries@.len(),
            dve == crate::value::entries_dv(d.entries@),
            dve.len() == d.entries@.len(),
            forall|k: int|
                0 <= k < d.entries@.len() ==> dve[k] == ((#[trigger] d.entries@[k]).0@,
                crate::value::value_dv(d.entries@[k].1)),
            jmembers_dv(out@) =~= ents2j(dve.take(i as int)),
            out@.len() == i,
        decreases d.entries@.len() - i,
    {
        proof {
            assert(decreases_to!(*d => d.entries));
            assert(decreases_to!(d.entries => d.entries@));
            assert(decreases_to!(d.entries@ => d.entries@[i as int]));
            assert(decreases_to!(d.entries@[i as int] => d.entries@[i as int].1));
            crate::hayson::lemma_wf_dict_facts(dve);
            assert(wf_value(dve[i as int].1));
        }
        let jv = e_v2j(&d.entries[i].1);
        let name = key(d.entries[i].0.as_str());
        let ghost old_out = out@;
        out.push((name, jv));
        proof {
            lemma_jmembers_dv(out@);
            lemma_jmembers_dv(old_out);
            crate::hayson::lemma_ents2j_len(dve.take(i + 1));
            assert forall|k: int| 0 <= k < out@.len() implies jmembers_dv(out@)[k] == ents2j(
                dve.take(i + 1),
            )[k] by {
                crate::hayson::lemma_ents2j_index(dve.take(i + 1), k);
                assert(dve.take(i + 1)[k] == dve[k]);
                if k < i {
                    assert(out@[k] == old_out[k]);
                    crate::hayson::lemma_ents2j_index(dve.take(i as int), k);
                } else {
                    assert(out@[k] == (name, jv));
                }
            }
            assert(jmembers_dv(out@) =~= ents2j(dve.take(i + 1)));
        }
        i = i + 1;
    }
    proof {
        assert(dve.take(dve.len() as int) =~= dve);
        assert(jmembers_dv(out@) =~= ents2j(dve));
    }
    out
}

/// Encode a grid as its canonical document.
#[verifier::rlimit(100)]
pub fn e_grid2j(g: &Grid) -> (r: Json)
    requires
        wf_grid(g@),
    ensures
        r@ == grid2j(g@),
    decreases *g, 2int,
{
    let ghost gs = crate::value::grid_dv(*g);
    proof {
        crate::value::lemma_cols_dv(g.cols@);
        crate::value::lemma_rows_dv(g.rows@);
        assert(decreases_to!(*g => g.meta));
    }
    let meta_ms = e_dict_members_of_meta(&g.meta, Ghost(gs.meta));
    let mut cols_v: Vec<Json> = Vec::new();
    let mut i: usize = 0;
    while i < g.cols.len()
        invariant
            wf_grid(gs),
            gs == crate::value::grid_dv(*g),
            0 <= i <= g.cols@.len(),
            gs.cols.len() == g.cols@.len(),
            forall|k: int|
                0 <= k < g.cols@.len() ==> gs.cols[k] == (ColS {
                    name: (#[trigger] g.cols@[k]).name@,
                    meta: crate::value::dict_dv(g.cols@[k].meta),
                }),
            jsons_dv(cols_v@) =~= cols2j(gs.cols.take(i as int)),
            cols_v@.len() == i,
        decreases g.cols@.len() - i,
    {
        proof {
            assert(decreases_to!(*g => g.cols));
            assert(decreases_to!(g.cols => g.cols@));
            assert(decreases_to!(g.cols@ => g.cols@[i as int]));
            assert(decreases_to!(g.cols@[i as int] => g.cols@[i as int].meta));
            assert(wf_dict(gs.cols[i as int].meta));
        }
        let c = e_col2j(&g.cols[i], Ghost(gs.cols[i as int]));
        let ghost old_out = cols_v@;
        cols_v.push(c);
        proof {
            lemma_jsons_dv(cols_v@);
            lemma_jsons_dv(old_out);
            crate::hayson::lemma_cols2j_len(gs.cols.take(i + 1));
            assert forall|k: int| 0 <= k < cols_v@.len() implies jsons_dv(cols_v@)[k] == cols2j(
                gs.cols.take(i + 1),
            )[k] by {
                crate::hayson::lemma_cols2j_index(gs.cols.take(i + 1), k);
                assert(gs.cols.take(i + 1)[k] == gs.cols[k]);
                if k < i {
                    assert(cols_v@[k] == old_out[k]);
                    crate::hayson::lemma_cols2j_index(gs.cols.take(i as int), k);
                } else {
                    assert(cols_v@[k] == c);
                }
            }
            assert(jsons_dv(cols_v@) =~= cols2j(gs.cols.take(i + 1)));
        }
        i = i + 1;
    }
    proof {
        assert(gs.cols.take(gs.cols.len() as int) =~= gs.cols);
        assert(jsons_dv(cols_v@) =~= cols2j(gs.cols));
    }
    let mut rows_v: Vec<Json> = Vec::new();
    let mut i2: usize = 0;
    while i2 < g.rows.len()
        invariant
            wf_grid(gs),
            gs == crate::value::grid_dv(*g),
            0 <= i2 <= g.rows@.len(),
            gs.rows.len() == g.rows@.len(),
            forall|k: int|
                0 <= k < g.rows@.len() ==> gs.rows[k] == crate::value::dict_dv(
                    #[trigger] g.rows@[k],
                ),
            jsons_dv(rows_v@) =~= rows2j(gs.rows.take(i2 as int)),
            rows_v@.len() == i2,
        decreases g.rows@.len() - i2,
    {
        proof {
            assert(decreases_to!(*g => g.rows));
            assert(decreases_to!(g.rows => g.rows@));
            assert(decreases_to!(g.rows@ => g.rows@[i2 as int]));
            assert(wf_dict(gs.rows[i2 as int]));
        }
        let rm = e_dict_members_of_meta(&g.rows[i2], Ghost(gs.rows[i2 as int]));
        let ghost rmv = jmembers_dv(rm@);
        let rj = Json::Obj(rm);
        let ghost old_out = rows_v@;
        rows_v.push(rj);
        proof {
            lemma_jsons_dv(rows_v@);
            lemma_jsons_dv(old_out);
            crate::hayson::lemma_rows2j_len(gs.rows.take(i2 + 1));
            assert forall|k: int| 0 <= k < rows_v@.len() implies jsons_dv(rows_v@)[k] == rows2j(
                gs.rows.take(i2 + 1),
            )[k] by {
                crate::hayson::lemma_rows2j_index(gs.rows.take(i2 + 1), k);
                assert(gs.rows.take(i2 + 1)[k] == gs.rows[k]);
                if k < i2 {
                    assert(rows_v@[k] == old_out[k]);
                    crate::hayson::lemma_rows2j_index(gs.rows.take(i2 as int), k);
                } else {
                    assert(rows_v@[k] == rj);
                    assert(rj@ == JsonS::Obj(ents2j(gs.rows[i2 as int].entries)));
                }
            }
            assert(jsons_dv(rows_v@) =~= rows2j(gs.rows.take(i2 + 1)));
        }
        i2 = i2 + 1;
    }
    proof {
        assert(gs.rows.take(gs.rows.len() as int) =~= gs.rows);
        assert(jsons_dv(rows_v@) =~= rows2j(gs.rows));
    }
    let mut ms: Vec<(String, Json)> = Vec::new();
    ms.push((key("_kind"), jstr("grid")));
    ms.push((key("meta"), Json::Obj(meta_ms)));
    ms.push((key("cols"), Json::Arr(cols_v)));
    ms.push((key("rows"), Json::Arr(rows_v)));
    proof {
        reveal_strlit("_kind");
        reveal_strlit("grid");
        reveal_strlit("meta");
        reveal_strlit("cols");
        reveal_strlit("rows");
        assert("_kind"@ =~= s_kind());
        assert("grid"@ =~= s_grid());
        assert("meta"@ =~= s_meta());
        assert("cols"@ =~= s_cols());
        assert("rows"@ =~= s_rows());
        lemma_jmembers_dv(ms@);
        assert(jmembers_dv(ms@).len() == 4);
        assert(jmembers_dv(ms@)[0] == (ms@[0].0@, crate::json::json_dv(ms@[0].1)));
        assert(jmembers_dv(ms@)[1] == (ms@[1].0@, crate::json::json_dv(ms@[1].1)));
        assert(jmembers_dv(ms@)[2] == (ms@[2].0@, crate::json::json_dv(ms@[2].1)));
        assert(jmembers_dv(ms@)[3] == (ms@[3].0@, crate::json::json_dv(ms@[3].1)));
        assert(jmembers_dv(ms@) =~= seq![
            (s_kind(), JsonS::Str(s_grid())),
            (s_meta(), JsonS::Obj(ents2j(gs.meta.entries))),
            (s_cols(), JsonS::Arr(cols2j(gs.cols))),
            (s_rows(), JsonS::Arr(rows2j(gs.rows))),
        ]);
    }
    Json::Obj(ms)
}

/// Encode a dict's entries, where the dict's view is supplied.
fn e_dict_members_of_meta(d: &Dict, view: Ghost<DictS>) -> (r: Vec<(String, Json)>)
    requires
        view@ == crate::value::dict_dv(*d),
        wf_dict(view@),
    ensures
        jmembers_dv(r@) == ents2j(view@.entries),
    decreases *d, 1int,
{
    proof {
        assert(wf_value(ValueS::Dict(crate::value::dict_dv(*d)))) by {
            assert(wf_dict(crate::value::dict_dv(*d)));
        }
    }
    e_dict_members(d)
}

/// Encode one column definition.
fn e_col2j(c: &Col, view: Ghost<ColS>) -> (r: Json)
    requires
        view@.name == c.name@,
        view@.meta == crate::value::dict_dv(c.meta),
        wf_dict(view@.meta),
    ensures
        r@ == col2j(view@),
    decreases *c, 2int,
{
    proof {
        assert(decreases_to!(*c => c.meta));
    }
    let mm = e_dict_members_of_meta(&c.meta, Ghost(view@.meta));
    let ghost mmv = mm@;
    let mut ms: Vec<(String, Json)> = Vec::new();
    ms.push((key("name"), jstr(c.name.as_str())));
    let ghost pre = ms@;
    let mut rest = mm;
    ms.append(&mut rest);
    proof {
        reveal_strlit("name");
        assert("name"@ =~= s_name());
        assert(ms@ =~= pre + mmv);
        lemma_jmembers_dv(ms@);
        lemma_jmembers_dv(mmv);
        crate::hayson::lemma_ents2j_len(view@.meta.entries);
        let lhs = jmembers_dv(ms@);
        let rhs = seq![(s_name(), JsonS::Str(view@.name))].add(ents2j(view@.meta.entries));
        assert(mmv.len() == view@.meta.entries.len());
        assert forall|k: int| 0 <= k < lhs.len() implies lhs[k] == rhs[k] by {
            if k == 0 {
                assert(ms@[0] == pre[0]);
            } else {
                assert(ms@[k] == mmv[k - 1]);
                assert(jmembers_dv(ms@)[k] == (mmv[k - 1].0@, crate::json::json_dv(mmv[k - 1].1)));
                assert(jmembers_dv(mmv)[k - 1] == (mmv[k - 1].0@, crate::json::json_dv(
                    mmv[k - 1].1,
                )));
                assert(rhs[k] == ents2j(view@.meta.entries)[k - 1]);
            }
        }
        assert(lhs =~= rhs);
    }
    Json::Obj(ms)
}


fn dig(c: char) -> (r: bool)
    ensures
        r == crate::strutil::is_digit(c),
{
    '0' <= c && c <= '9'
}

/// Read exactly `width` digit characters as a value; fails when a
/// non-digit appears.
fn read_fixed(cs: &Vec<char>, from: usize, width: usize) -> (r: Option<u32>)
    requires
        from + width <= cs@.len(),
        width <= 4,
    ensures
        r is Some <==> crate::dates::all_digits(cs@, from as int, from as int + width),
        r matches Some(v) ==> v == digits_val(
            cs@.subrange(from as int, from as int + width),
        ) && v < 10000,
{
    let ghost target = cs@.subrange(from as int, from as int + width);
    let n = cs.len();
    let mut val: u32 = 0;
    let mut k: usize = 0;
    while k < width
        invariant
            from + width <= cs@.len(),
            n == cs@.len(),
            width <= 4,
            0 <= k <= width,
            forall|m: int| from <= m < from + k ==> crate::strutil::is_digit(#[trigger] cs@[m]),
            val == digits_val(cs@.subrange(from as int, from as int + k)),
            val < 10000,
        decreases width - k,
    {
        let c = cs[from + k];
        if !dig(c) {
            proof {
                assert(!crate::dates::all_digits(cs@, from as int, from as int + width));
            }
            return None;
        }
        let d = char_to_digit(c);
        proof {
            let pre = cs@.subrange(from as int, from as int + k);
            crate::strutil::lemma_digits_val_push(pre, c);
            assert(cs@.subrange(from as int, from as int + k + 1) =~= pre.push(c));
            crate::strutil::lemma_digits_val_bound(pre.push(c));
            crate::dates::lemma_pow10_small();
            assert(crate::strutil::pow10(pre.push(c).len()) <= 10000) by {
                if pre.push(c).len() < 4 {
                    assert(crate::strutil::pow10(1) == 10);
                    assert(crate::strutil::pow10(2) == 100);
                    assert(crate::strutil::pow10(3) == 1000);
                }
            }
        }
        val = val * 10 + d as u32;
        k = k + 1;
    }
    proof {
        assert(cs@.subrange(from as int, from as int + width) =~= target);
    }
    Some(val)
}

pub(crate) fn e_days_in_month(year: u16, month: u8) -> (r: u32)
    ensures
        r == crate::value::days_in_month(year, month),
{
    if month == 2 {
        if (year % 4 == 0 && year % 100 != 0) || year % 400 == 0 {
            29
        } else {
            28
        }
    } else if month == 4 || month == 6 || month == 9 || month == 11 {
        30
    } else {
        31
    }
}

/// Parse `YYYY-MM-DD` at a position.
fn e_parse_date_at(cs: &Vec<char>, base: usize) -> (r: Option<Date>)
    requires
        base + 10 <= cs@.len(),
    ensures
        r == crate::dates::parse_date_str(cs@.subrange(base as int, base as int + 10)),
{
    let ghost s = cs@.subrange(base as int, base as int + 10);
    let n = cs.len();
    proof {
        assert(forall|m: int| 0 <= m < 10 ==> #[trigger] s[m] == cs@[base + m]);
    }
    if !(cs[base + 4] == '-' && cs[base + 7] == '-') {
        return None;
    }
    let y = read_fixed(cs, base, 4);
    let mo = read_fixed(cs, base + 5, 2);
    let d = read_fixed(cs, base + 8, 2);
    proof {
        assert(s.subrange(0, 4) =~= cs@.subrange(base as int, base as int + 4));
        assert(s.subrange(5, 7) =~= cs@.subrange(base as int + 5, base as int + 7));
        assert(s.subrange(8, 10) =~= cs@.subrange(base as int + 8, base as int + 10));
        assert(crate::dates::all_digits(s, 0, 4) == crate::dates::all_digits(
            cs@,
            base as int,
            base as int + 4,
        )) by {
            crate::dates::lemma_all_digits_sub(s, 0, 4);
            crate::dates::lemma_all_digits_sub(cs@, base as int, base as int + 4);
        }
        assert(crate::dates::all_digits(s, 5, 7) == crate::dates::all_digits(
            cs@,
            base as int + 5,
            base as int + 7,
        )) by {
            crate::dates::lemma_all_digits_sub(s, 5, 7);
            crate::dates::lemma_all_digits_sub(cs@, base as int + 5, base as int + 7);
        }
        assert(crate::dates::all_digits(s, 8, 10) == crate::dates::all_digits(
            cs@,
            base as int + 8,
            base as int + 10,
        )) by {
            crate::dates::lemma_all_digits_sub(s, 8, 10);
            crate::dates::lemma_all_digits_sub(cs@, base as int + 8, base as int + 10);
        }
    }
    match (y, mo, d) {
        (Some(yv), Some(mv), Some(dv)) => {
            if 1 <= yv && yv <= 9999 && 1 <= mv && mv <= 12 && 1 <= dv && dv
                <= e_days_in_month(yv as u16, mv as u8) {
                Some(Date { year: yv as u16, month: mv as u8, day: dv as u8 })
            } else {
                None
            }
        },
        _ => None,
    }
}

/// Parse a time at a position, of the given sub-length (8 or 12).
fn e_parse_time_at(cs: &Vec<char>, base: usize, tl: usize) -> (r: Option<Time>)
    requires
        base + tl <= cs@.len(),
        tl == 8 || tl == 12,
    ensures
        r == crate::dates::parse_time_str(cs@.subrange(base as int, base as int + tl)),
{
    let ghost s = cs@.subrange(base as int, base as int + tl);
    let n = cs.len();
    proof {
        assert(forall|m: int| 0 <= m < tl ==> #[trigger] s[m] == cs@[base + m]);
    }
    if !(cs[base + 2] == ':' && cs[base + 5] == ':') {
        return None;
    }
    if tl == 12 && cs[base + 8] != '.' {
        return None;
    }
    let h = read_fixed(cs, base, 2);
    let mi = read_fixed(cs, base + 3, 2);
    let sec = read_fixed(cs, base + 6, 2);
    let ms = if tl == 12 {
        read_fixed(cs, base + 9, 3)
    } else {
        Some(0)
    };
    proof {
        assert(s.subrange(0, 2) =~= cs@.subrange(base as int, base as int + 2));
        assert(s.subrange(3, 5) =~= cs@.subrange(base as int + 3, base as int + 5));
        assert(s.subrange(6, 8) =~= cs@.subrange(base as int + 6, base as int + 8));
        assert(crate::dates::all_digits(s, 0, 2) == crate::dates::all_digits(
            cs@,
            base as int,
            base as int + 2,
        )) by {
            crate::dates::lemma_all_digits_sub(s, 0, 2);
            crate::dates::lemma_all_digits_sub(cs@, base as int, base as int + 2);
        }
        assert(crate::dates::all_digits(s, 3, 5) == crate::dates::all_digits(
            cs@,
            base as int + 3,
            base as int + 5,
        )) by {
            crate::dates::lemma_all_digits_sub(s, 3, 5);
            crate::dates::lemma_all_digits_sub(cs@, base as int + 3, base as int + 5);
        }
        assert(crate::dates::all_digits(s, 6, 8) == crate::dates::all_digits(
            cs@,
            base as int + 6,
            base as int + 8,
        )) by {
            crate::dates::lemma_all_digits_sub(s, 6, 8);
            crate::dates::lemma_all_digits_sub(cs@, base as int + 6, base as int + 8);
        }
        if tl == 12 {
            assert(s.subrange(9, 12) =~= cs@.subrange(base as int + 9, base as int + 12));
            assert(crate::dates::all_digits(s, 9, 12) == crate::dates::all_digits(
            cs@,
            base as int + 9,
            base as int + 12,
        )) by {
            crate::dates::lemma_all_digits_sub(s, 9, 12);
            crate::dates::lemma_all_digits_sub(cs@, base as int + 9, base as int + 12);
        }
        }
    }
    match (h, mi, sec, ms) {
        (Some(hv), Some(mv), Some(sv), Some(msv)) => {
            if hv < 24 && mv < 60 && sv < 60 {
                Some(
                    Time {
                        hour: hv as u8,
                        minute: mv as u8,
                        second: sv as u8,
                        millis: msv as u16,
                    },
                )
            } else {
                None
            }
        },
        _ => None,
    }
}

/// Parse an offset at a position, covering the rest of the vector.
fn e_parse_offset_at(cs: &Vec<char>, base: usize) -> (r: Option<i32>)
    requires
        base <= cs@.len(),
    ensures
        r == crate::dates::parse_offset_str(cs@.subrange(base as int, cs@.len() as int)),
{
    let ghost s = cs@.subrange(base as int, cs@.len() as int);
    proof {
        assert(forall|m: int| 0 <= m < s.len() ==> #[trigger] s[m] == cs@[base + m]);
    }
    let n = cs.len() - base;
    if n == 1 && cs[base] == 'Z' {
        return Some(0);
    }
    if n == 6 && (cs[base] == '+' || cs[base] == '-') && cs[base + 3] == ':' {
        let h = read_fixed(cs, base + 1, 2);
        let m = read_fixed(cs, base + 4, 2);
        proof {
            assert(s.subrange(1, 3) =~= cs@.subrange(base as int + 1, base as int + 3));
            assert(s.subrange(4, 6) =~= cs@.subrange(base as int + 4, base as int + 6));
            assert(crate::dates::all_digits(s, 1, 3) == crate::dates::all_digits(
            cs@,
            base as int + 1,
            base as int + 3,
        )) by {
            crate::dates::lemma_all_digits_sub(s, 1, 3);
            crate::dates::lemma_all_digits_sub(cs@, base as int + 1, base as int + 3);
        }
            assert(crate::dates::all_digits(s, 4, 6) == crate::dates::all_digits(
            cs@,
            base as int + 4,
            base as int + 6,
        )) by {
            crate::dates::lemma_all_digits_sub(s, 4, 6);
            crate::dates::lemma_all_digits_sub(cs@, base as int + 4, base as int + 6);
        }
        }
        match (h, m) {
            (Some(hv), Some(mv)) => {
                let a = hv * 60 + mv;
                if mv < 60 && a <= 18 * 60 {
                    if cs[base] == '-' {
                        Some(-(a as i32))
                    } else {
                        Some(a as i32)
                    }
                } else {
                    None
                }
            },
            _ => None,
        }
    } else {
        None
    }
}

/// Parse a full timestamp string; the timezone name is supplied
/// separately.
fn e_parse_dt(vs: &str, tz: &str) -> (r: Option<DateTime>)
    ensures
        ({
            let sp = crate::dates::parse_dt_str(vs@, tz@);
            match r {
                Some(dt) => sp == Some(crate::value::datetime_dv(dt)),
                None => sp is None,
            }
        }),
{
    let cs = str_to_chars(vs);
    let n = cs.len();
    if n < 20 {
        return None;
    }
    if cs[10] != 'T' {
        return None;
    }
    let tl: usize = if n == 24 || n == 29 {
        12
    } else {
        8
    };
    if !(n == 11 + tl + 1 || n == 11 + tl + 6) {
        return None;
    }
    let tze = tz.to_owned();
    if tze.as_str().unicode_len() == 0 {
        proof {
            assert(tz@.len() == 0);
        }
        return None;
    }
    proof {
        assert(cs@.subrange(0, 10) =~= cs@.subrange(0int, 0int + 10));
        assert(cs@.subrange(11int, 11 + tl) =~= cs@.subrange(11 as int, 11 as int + tl));
    }
    let date = e_parse_date_at(&cs, 0);
    let time = e_parse_time_at(&cs, 11, tl);
    let off = e_parse_offset_at(&cs, 11 + tl);
    match (date, time, off) {
        (Some(d), Some(t), Some(o)) => {
            let dt = DateTime { date: d, time: t, offset_min: o, tz: tze };
            Some(dt)
        },
        _ => None,
    }
}

/// Check the `Ref` identifier grammar.
pub fn ref_id_check(s: &str) -> (r: bool)
    ensures
        r == crate::value::is_ref_id(s@),
{
    let cs = str_to_chars(s);
    if cs.len() == 0 {
        return false;
    }
    let mut i: usize = 0;
    while i < cs.len()
        invariant
            0 <= i <= cs@.len(),
            cs@ == s@,
            forall|j: int| 0 <= j < i ==> crate::value::is_ref_char(#[trigger] s@[j]),
        decreases cs@.len() - i,
    {
        let c = cs[i];
        let ok = ('a' <= c && c <= 'z') || ('A' <= c && c <= 'Z') || ('0' <= c && c <= '9') || c
            == '_' || c == ':' || c == '-' || c == '.' || c == '~';
        if !ok {
            return false;
        }
        i = i + 1;
    }
    true
}

/// Check the Xstr type-name grammar.
pub fn xstr_type_check(s: &str) -> (r: bool)
    ensures
        r == crate::value::is_xstr_type(s@),
{
    let cs = str_to_chars(s);
    if cs.len() == 0 {
        return false;
    }
    let c0 = cs[0];
    if !('A' <= c0 && c0 <= 'Z') {
        return false;
    }
    let mut i: usize = 0;
    while i < cs.len()
        invariant
            0 <= i <= cs@.len(),
            cs@ == s@,
            forall|j: int| 0 <= j < i ==> crate::tagname::is_tag_char(#[trigger] s@[j]),
        decreases cs@.len() - i,
    {
        let c = cs[i];
        let ok = ('a' <= c && c <= 'z') || ('A' <= c && c <= 'Z') || ('0' <= c && c <= '9') || c
            == '_';
        if !ok {
            return false;
        }
        i = i + 1;
    }
    true
}


fn err() -> (r: CodecError)
    ensures
        true,
{
    CodecError { row: None, col: None }
}

pub fn skey_is(a: &String, b: &str) -> (r: bool)
    ensures
        r == (a@ == b@),
{
    let bo = b.to_owned();
    *a == bo
}

/// Decode a JSON document as a value, mirroring the
/// specification-level decoder exactly.
#[verifier::rlimit(100)]
pub fn e_j2v(j: &Json) -> (r: Result<Value, CodecError>)
    ensures
        ({
            let sp = crate::hayson::j2v(j@);
            match r {
                Ok(v) => sp == Some(v@),
                Err(_) => sp is None,
            }
        }),
    decreases *j, 3int,
{
    match j {
        Json::Null => Err(err()),
        Json::Bool(b) => Ok(Value::Bool(*b)),
        Json::Num { neg, mag, scale } => {
            if (!*neg || *mag != 0) && *scale <= 20 {
                Ok(
                    Value::Num(
                        Number {
                            mag: NumMag::Dec { neg: *neg, mag: *mag, scale: *scale },
                            unit: None,
                        },
                    ),
                )
            } else {
                Err(err())
            }
        },
        Json::Str(s) => Ok(Value::Str(s.clone())),
        Json::Arr(items) => {
            let ghost dvs = jsons_dv(items@);
            proof {
                lemma_jsons_dv(items@);
            }
            let mut out: Vec<Value> = Vec::new();
            let mut i: usize = 0;
            while i < items.len()
                invariant
                    *j == Json::Arr(*items),
                    0 <= i <= items@.len(),
                    dvs == jsons_dv(items@),
                    dvs.len() == items@.len(),
                    forall|k: int|
                        0 <= k < items@.len() ==> dvs[k] == crate::json::json_dv(
                            #[trigger] items@[k],
                        ),
                    crate::hayson::js2v(dvs.take(i as int)) == Some(
                        crate::value::values_dv(out@),
                    ),
                    out@.len() == i,
                decreases items@.len() - i,
            {
                proof {
                    assert(decreases_to!(*j => j->Arr_0));
                    assert(*items == j->Arr_0);
                    assert(decreases_to!(*items => items@));
                    assert(decreases_to!(items@ => items@[i as int]));
                }
                let v = match e_j2v(&items[i]) {
                    Ok(v) => v,
                    Err(e) => {
                        proof {
                            lemma_js2v_prefix_none(dvs, i as int);
                        }
                        return Err(e);
                    },
                };
                let ghost old_out = out@;
                out.push(v);
                proof {
                    assert(dvs.take(i + 1).drop_last() =~= dvs.take(i as int));
                    assert(dvs.take(i + 1).last() == dvs[i as int]);
                    crate::value::lemma_values_dv(out@);
                    crate::value::lemma_values_dv(old_out);
                    assert(crate::value::values_dv(out@).drop_last() =~= crate::value::values_dv(
                        old_out,
                    )) by {
                        assert(out@.drop_last() =~= old_out);
                    }
                    assert(crate::value::values_dv(out@) =~= crate::value::values_dv(
                        old_out,
                    ).push(v@)) by {
                        assert(out@.last() == v);
                    }
                }
                i = i + 1;
            }
            proof {
                assert(dvs.take(dvs.len() as int) =~= dvs);
            }
            Ok(Value::List(out))
        },
        Json::Obj(ms) => e_obj2v(ms, Ghost(*j)),
    }
}

/// When one element fails to decode, the whole list fails.
pub proof fn lemma_js2v_prefix_none(dvs: Seq<JsonS>, i: int)
    requires
        0 <= i < dvs.len(),
        crate::hayson::j2v(dvs[i]) is None,
    ensures
        crate::hayson::js2v(dvs) is None,
    decreases dvs.len(),
{
    if dvs.len() > 0 {
        if i < dvs.len() - 1 {
            assert(dvs.drop_last()[i] == dvs[i]);
            lemma_js2v_prefix_none(dvs.drop_last(), i);
        } else {
            assert(dvs.last() == dvs[i]);
        }
    }
}

/// When one member fails to decode, the whole dict fails.
pub proof fn lemma_j2dict_prefix_none(jm: Seq<(Seq<char>, JsonS)>, i: int)
    requires
        0 <= i < jm.len(),
        crate::hayson::j2dict(jm.take(i)) is None || !(crate::tagname::is_tag_name(jm[i].0)
            && !crate::hayson::dict_has_key(
            crate::hayson::j2dict(jm.take(i))->Some_0,
            jm[i].0,
        )) || crate::hayson::j2v(jm[i].1) is None,
    ensures
        crate::hayson::j2dict(jm) is None,
    decreases jm.len(),
{
    if jm.len() > 0 {
        if i < jm.len() - 1 {
            assert(jm.drop_last()[i] == jm[i]);
            assert(jm.drop_last().take(i) =~= jm.take(i));
            lemma_j2dict_prefix_none(jm.drop_last(), i);
        } else {
            assert(jm.last() == jm[i]);
            assert(jm.take(i) =~= jm.drop_last());
        }
    }
}

/// Decode object members as a dict, from a starting member on.
#[verifier::rlimit(100)]
pub fn e_j2dict(ms: &Vec<(String, Json)>, start: usize) -> (r: Result<Dict, CodecError>)
    requires
        start <= ms@.len(),
    ensures
        ({
            let sp = crate::hayson::j2dict(jmembers_dv(ms@).skip(start as int));
            match r {
                Ok(d) => sp == Some(crate::value::dict_dv(d)),
                Err(_) => sp is None,
            }
        }),
    decreases *ms, 1int,
{
    let ghost jm0 = jmembers_dv(ms@);
    let ghost jm = jmembers_dv(ms@).skip(start as int);
    proof {
        lemma_jmembers_dv(ms@);
    }
    let mut out: Vec<(TagName, Value)> = Vec::new();
    let mut i: usize = start;
    while i < ms.len()
        invariant
            start <= i <= ms@.len(),
            jm0 == jmembers_dv(ms@),
            jm == jm0.skip(start as int),
            jm0.len() == ms@.len(),
            forall|k: int|
                0 <= k < ms@.len() ==> jm0[k] == ((#[trigger] ms@[k]).0@, crate::json::json_dv(
                    ms@[k].1,
                )),
            crate::hayson::j2dict(jm.take(i - start)) == Some(
                DictS { entries: crate::value::entries_dv(out@) },
            ),
            out@.len() == i - start,
        decreases ms@.len() - i,
    {
        proof {
            assert(decreases_to!(*ms => ms@));
            assert(decreases_to!(ms@ => ms@[i as int]));
            assert(decreases_to!(ms@[i as int] => ms@[i as int].1));
        }
        proof {
            assert(jm[i - start] == jm0[i as int]);
        }
        let tn = match TagName::parse(ms[i].0.as_str()) {
            Some(t) => t,
            None => {
                proof {
                    lemma_j2dict_prefix_none(jm, i - start);
                }
                return Err(CodecError { row: None, col: Some(ms[i].0.clone()) });
            },
        };
        if has_name(&out, &tn) {
            proof {
                crate::value::lemma_entries_dv(out@);
                lemma_j2dict_prefix_none(jm, i - start);
            }
            return Err(CodecError { row: None, col: Some(ms[i].0.clone()) });
        }
        let v = match e_j2v(&ms[i].1) {
            Ok(v) => v,
            Err(e) => {
                proof {
                    lemma_j2dict_prefix_none(jm, i - start);
                }
                let col = match e.col {
                    Some(c) => Some(c),
                    None => Some(ms[i].0.clone()),
                };
                return Err(CodecError { row: e.row, col });
            },
        };
        let ghost old_out = out@;
        out.push((tn, v));
        proof {
            assert(jm.take(i - start + 1).drop_last() =~= jm.take(i - start));
            assert(jm.take(i - start + 1).last() == jm[i - start]);
            crate::value::lemma_entries_dv(out@);
            crate::value::lemma_entries_dv(old_out);
            assert(crate::value::entries_dv(out@).drop_last() =~= crate::value::entries_dv(
                old_out,
            )) by {
                assert(out@.drop_last() =~= old_out);
            }
            assert(crate::value::entries_dv(out@) =~= crate::value::entries_dv(old_out).push(
                (tn@, v@),
            )) by {
                assert(out@.last() == (tn, v));
            }
        }
        i = i + 1;
    }
    proof {
        assert(jm.take(jm.len() as int) =~= jm);
        assert(jm.take(ms@.len() - start) =~= jm);
    }
    Ok(Dict { entries: out })
}

/// Whether a partial entry list already holds a name.
fn has_name(out: &Vec<(TagName, Value)>, tn: &TagName) -> (r: bool)
    ensures
        r == crate::hayson::dict_has_key(
            DictS { entries: crate::value::entries_dv(out@) },
            tn@,
        ),
{
    let ghost d = DictS { entries: crate::value::entries_dv(out@) };
    proof {
        crate::value::lemma_entries_dv(out@);
    }
    let mut i: usize = 0;
    while i < out.len()
        invariant
            0 <= i <= out@.len(),
            d == (DictS { entries: crate::value::entries_dv(out@) }),
            d.entries.len() == out@.len(),
            forall|k: int|
                0 <= k < out@.len() ==> d.entries[k] == ((#[trigger] out@[k]).0@,
                crate::value::value_dv(out@[k].1)),
            forall|k: int| 0 <= k < i ==> (#[trigger] d.entries[k]).0 != tn@,
        decreases out@.len() - i,
    {
        if skey_is(&out[i].0.s, tn.as_str()) {
            proof {
                assert(d.entries[i as int].0 == tn@);
            }
            return true;
        }
        i = i + 1;
    }
    proof {
        if crate::hayson::dict_has_key(d, tn@) {
            let k = choose|k: int| 0 <= k < d.entries.len() && (#[trigger] d.entries[k].0) == tn@;
            assert(false);
        }
    }
    false
}


/// Decode a sentinel or dict object, mirroring the positional,
/// canonical member layout.
#[verifier::rlimit(100)]
pub fn e_obj2v(ms: &Vec<(String, Json)>, owner: Ghost<Json>) -> (r: Result<Value, CodecError>)
    requires
        owner@ == Json::Obj(*ms),
    ensures
        ({
            let sp = crate::hayson::obj2v(jmembers_dv(ms@));
            match r {
                Ok(v) => sp == Some(v@),
                Err(_) => sp is None,
            }
        }),
    decreases owner@, 2int,
{
    let ghost jm = jmembers_dv(ms@);
    proof {
        lemma_jmembers_dv(ms@);
        assert(decreases_to!(owner@ => owner@->Obj_0));
        assert(owner@->Obj_0 == *ms);
        reveal_strlit("_kind");
        reveal_strlit("marker");
        reveal_strlit("remove");
        reveal_strlit("na");
        reveal_strlit("number");
        reveal_strlit("ref");
        reveal_strlit("uri");
        reveal_strlit("date");
        reveal_strlit("time");
        reveal_strlit("dateTime");
        reveal_strlit("coord");
        reveal_strlit("xstr");
        reveal_strlit("symbol");
        reveal_strlit("grid");
        assert("_kind"@ =~= s_kind());
        assert("marker"@ =~= s_marker());
        assert("remove"@ =~= s_remove());
        assert("na"@ =~= s_na());
        assert("number"@ =~= s_number());
        assert("ref"@ =~= s_ref());
        assert("uri"@ =~= s_uri());
        assert("date"@ =~= s_date());
        assert("time"@ =~= s_time());
        assert("dateTime"@ =~= s_datetime());
        assert("coord"@ =~= s_coord());
        assert("xstr"@ =~= s_xstr());
        assert("symbol"@ =~= s_symbol());
        assert("grid"@ =~= s_grid());
    }
    if ms.len() >= 1 && skey_is(&ms[0].0, "_kind") {
        proof {
            reveal_strlit("_kind");
            assert("_kind"@ =~= s_kind());
            assert(jm[0] == (ms@[0].0@, crate::json::json_dv(ms@[0].1)));
        }
        let k: &String = match &ms[0].1 {
            Json::Str(ks) => ks,
            _ => {
                return Err(err());
            },
        };
        proof {
            assert(jm[0].1 is Str && jm[0].1->Str_0 == k@);
        }
        if skey_is(k, "marker") {
            proof {
                reveal_strlit("marker");
                assert("marker"@ =~= s_marker());
            }
            if ms.len() == 1 {
                Ok(Value::Marker)
            } else {
                Err(err())
            }
        } else if skey_is(k, "remove") {
            proof {
                reveal_strlit("remove");
                assert("remove"@ =~= s_remove());
            }
            if ms.len() == 1 {
                Ok(Value::Remove)
            } else {
                Err(err())
            }
        } else if skey_is(k, "na") {
            proof {
                reveal_strlit("na");
                assert("na"@ =~= s_na());
            }
            if ms.len() == 1 {
                Ok(Value::Na)
            } else {
                Err(err())
            }
        } else if skey_is(k, "number") {
            proof {
                reveal_strlit("number");
                reveal_strlit("unit");
                reveal_strlit("val");
                assert("number"@ =~= s_number());
                assert("unit"@ =~= s_unit());
                assert("val"@ =~= s_val());
                if ms@.len() >= 2 {
                    assert(jm[1] == (ms@[1].0@, crate::json::json_dv(ms@[1].1)));
                }
                if ms@.len() >= 3 {
                    assert(jm[2] == (ms@[2].0@, crate::json::json_dv(ms@[2].1)));
                }
            }
            if ms.len() >= 2 && skey_is(&ms[1].0, "val") {
                proof {
                    reveal_strlit("val");
                    assert("val"@ =~= s_val());
                }
                match &ms[1].1 {
                    Json::Num { neg, mag, scale } => {
                        if (!*neg || *mag != 0) && *scale <= 20 {
                            if ms.len() == 2 {
                                Ok(
                                    Value::Num(
                                        Number {
                                            mag: NumMag::Dec {
                                                neg: *neg,
                                                mag: *mag,
                                                scale: *scale,
                                            },
                                            unit: None,
                                        },
                                    ),
                                )
                            } else if ms.len() == 3 && skey_is(&ms[2].0, "unit") {
                                proof {
                                    reveal_strlit("unit");
                                    assert("unit"@ =~= s_unit());
                                }
                                match &ms[2].1 {
                                    Json::Str(u) => {
                                        if u.as_str().unicode_len() > 0 {
                                            Ok(
                                                Value::Num(
                                                    Number {
                                                        mag: NumMag::Dec {
                                                            neg: *neg,
                                                            mag: *mag,
                                                            scale: *scale,
                                                        },
                                                        unit: Some(u.clone()),
                                                    },
                                                ),
                                            )
                                        } else {
                                            Err(err())
                                        }
                                    },
                                    _ => Err(err()),
                                }
                            } else {
                                Err(err())
                            }
                        } else {
                            Err(err())
                        }
                    },
                    Json::Str(sv) => {
                        if ms.len() == 2 {
                            proof {
                                reveal_strlit("INF");
                                reveal_strlit("-INF");
                                reveal_strlit("NaN");
                                assert("INF"@ =~= s_inf());
                                assert("-INF"@ =~= s_neginf());
                                assert("NaN"@ =~= s_nan());
                            }
                            if skey_is(sv, "INF") {
                                Ok(Value::Num(Number { mag: NumMag::PosInf, unit: None }))
                            } else if skey_is(sv, "-INF") {
                                Ok(Value::Num(Number { mag: NumMag::NegInf, unit: None }))
                            } else if skey_is(sv, "NaN") {
                                Ok(Value::Num(Number { mag: NumMag::NaN, unit: None }))
                            } else {
                                Err(err())
                            }
                        } else {
                            Err(err())
                        }
                    },
                    _ => {
                        proof {
                            match ms@[1].1 {
                                Json::Null => assert(jm[1].1 is Null),
                                Json::Bool(_) => assert(jm[1].1 is Bool),
                                Json::Arr(_) => assert(jm[1].1 is Arr),
                                Json::Obj(_) => assert(jm[1].1 is Obj),
                                _ => {},
                            }
                            assert(crate::hayson::obj2v(jm) is None);
                        }
                        Err(err())
                    },
                }
            } else {
                Err(err())
            }
        } else if skey_is(k, "ref") {
            proof {
                reveal_strlit("ref");
                reveal_strlit("val");
                reveal_strlit("dis");
                assert("ref"@ =~= s_ref());
                assert("val"@ =~= s_val());
                assert("dis"@ =~= s_dis());
                if ms@.len() >= 2 {
                    assert(jm[1] == (ms@[1].0@, crate::json::json_dv(ms@[1].1)));
                }
                if ms@.len() >= 3 {
                    assert(jm[2] == (ms@[2].0@, crate::json::json_dv(ms@[2].1)));
                }
            }
            if ms.len() == 2 && skey_is(&ms[1].0, "val") {
                match &ms[1].1 {
                    Json::Str(id) => {
                        if ref_id_check(id.as_str()) {
                            Ok(Value::Ref { id: id.clone(), dis: None })
                        } else {
                            Err(err())
                        }
                    },
                    _ => Err(err()),
                }
            } else if ms.len() == 3 && skey_is(&ms[1].0, "val") && skey_is(&ms[2].0, "dis") {
                match (&ms[1].1, &ms[2].1) {
                    (Json::Str(id), Json::Str(d)) => {
                        if ref_id_check(id.as_str()) {
                            Ok(Value::Ref { id: id.clone(), dis: Some(d.clone()) })
                        } else {
                            Err(err())
                        }
                    },
                    _ => Err(err()),
                }
            } else {
                Err(err())
            }
        } else if skey_is(k, "uri") {
            proof {
                reveal_strlit("uri");
                reveal_strlit("val");
                assert("uri"@ =~= s_uri());
                assert("val"@ =~= s_val());
                if ms@.len() >= 2 {
                    assert(jm[1] == (ms@[1].0@, crate::json::json_dv(ms@[1].1)));
                }
            }
            if ms.len() == 2 && skey_is(&ms[1].0, "val") {
                match &ms[1].1 {
                    Json::Str(u) => Ok(Value::Uri(u.clone())),
                    _ => Err(err()),
                }
            } else {
                Err(err())
            }
        } else if skey_is(k, "date") {
            proof {
                reveal_strlit("date");
                reveal_strlit("val");
                assert("date"@ =~= s_date());
                assert("val"@ =~= s_val());
                if ms@.len() >= 2 {
                    assert(jm[1] == (ms@[1].0@, crate::json::json_dv(ms@[1].1)));
                }
            }
            if ms.len() == 2 && skey_is(&ms[1].0, "val") {
                match &ms[1].1 {
                    Json::Str(vs) => {
                        let cs = str_to_chars(vs.as_str());
                        if cs.len() == 10 {
                            proof {
                                assert(cs@.subrange(0, 10) =~= vs@);
                            }
                            match e_parse_date_at(&cs, 0) {
                                Some(d) => Ok(Value::Date(d)),
                                None => Err(err()),
                            }
                        } else {
                            Err(err())
                        }
                    },
                    _ => Err(err()),
                }
            } else {
                Err(err())
            }
        } else if skey_is(k, "time") {
            proof {
                reveal_strlit("time");
                reveal_strlit("val");
                assert("time"@ =~= s_time());
                assert("val"@ =~= s_val());
                if ms@.len() >= 2 {
                    assert(jm[1] == (ms@[1].0@, crate::json::json_dv(ms@[1].1)));
                }
            }
            if ms.len() == 2 && skey_is(&ms[1].0, "val") {
                match &ms[1].1 {
                    Json::Str(vs) => {
                        let cs = str_to_chars(vs.as_str());
                        if cs.len() == 8 || cs.len() == 12 {
                            let tl = cs.len();
                            proof {
                                assert(cs@.subrange(0, tl as int) =~= vs@);
                            }
                            match e_parse_time_at(&cs, 0, tl) {
                                Some(t) => Ok(Value::Time(t)),
                                None => Err(err()),
                            }
                        } else {
                            proof {
                                assert(crate::dates::parse_time_str(vs@) is None);
                            }
                            Err(err())
                        }
                    },
                    _ => Err(err()),
                }
            } else {
                Err(err())
            }
        } else if skey_is(k, "dateTime") {
            proof {
                reveal_strlit("dateTime");
                reveal_strlit("val");
                reveal_strlit("tz");
                assert("dateTime"@ =~= s_datetime());
                assert("val"@ =~= s_val());
                assert("tz"@ =~= s_tz());
                if ms@.len() >= 2 {
                    assert(jm[1] == (ms@[1].0@, crate::json::json_dv(ms@[1].1)));
                }
                if ms@.len() >= 3 {
                    assert(jm[2] == (ms@[2].0@, crate::json::json_dv(ms@[2].1)));
                }
            }
            if ms.len() == 3 && skey_is(&ms[1].0, "val") && skey_is(&ms[2].0, "tz") {
                match (&ms[1].1, &ms[2].1) {
                    (Json::Str(vs), Json::Str(tz)) => {
                        match e_parse_dt(vs.as_str(), tz.as_str()) {
                            Some(dt) => Ok(Value::DateTime(dt)),
                            None => Err(err()),
                        }
                    },
                    _ => Err(err()),
                }
            } else {
                Err(err())
            }
        } else if skey_is(k, "coord") {
            proof {
                reveal_strlit("coord");
                reveal_strlit("lat");
                reveal_strlit("lng");
                assert("coord"@ =~= s_coord());
                assert("lat"@ =~= s_lat());
                assert("lng"@ =~= s_lng());
                if ms@.len() >= 2 {
                    assert(jm[1] == (ms@[1].0@, crate::json::json_dv(ms@[1].1)));
                }
                if ms@.len() >= 3 {
                    assert(jm[2] == (ms@[2].0@, crate::json::json_dv(ms@[2].1)));
                }
            }
            if ms.len() == 3 && skey_is(&ms[1].0, "lat") && skey_is(&ms[2].0, "lng") {
                match (e_coord_from(&ms[1].1, 90000000), e_coord_from(&ms[2].1, 180000000)) {
                    (Some(lat), Some(lng)) => Ok(
                        Value::Coord(Coord { lat_ud: lat, lng_ud: lng }),
                    ),
                    _ => Err(err()),
                }
            } else {
                Err(err())
            }
        } else if skey_is(k, "xstr") {
            proof {
                reveal_strlit("xstr");
                reveal_strlit("type");
                reveal_strlit("val");
                assert("xstr"@ =~= s_xstr());
                assert("type"@ =~= s_type());
                assert("val"@ =~= s_val());
                if ms@.len() >= 2 {
                    assert(jm[1] == (ms@[1].0@, crate::json::json_dv(ms@[1].1)));
                }
                if ms@.len() >= 3 {
                    assert(jm[2] == (ms@[2].0@, crate::json::json_dv(ms@[2].1)));
                }
            }
            if ms.len() == 3 && skey_is(&ms[1].0, "type") && skey_is(&ms[2].0, "val") {
                match (&ms[1].1, &ms[2].1) {
                    (Json::Str(t), Json::Str(v)) => {
                        if xstr_type_check(t.as_str()) {
                            Ok(Value::Xstr { typ: t.clone(), val: v.clone() })
                        } else {
                            Err(err())
                        }
                    },
                    _ => Err(err()),
                }
            } else {
                Err(err())
            }
        } else if skey_is(k, "symbol") {
            proof {
                reveal_strlit("symbol");
                reveal_strlit("val");
                assert("symbol"@ =~= s_symbol());
                assert("val"@ =~= s_val());
                if ms@.len() >= 2 {
                    assert(jm[1] == (ms@[1].0@, crate::json::json_dv(ms@[1].1)));
                }
            }
            if ms.len() == 2 && skey_is(&ms[1].0, "val") {
                match &ms[1].1 {
                    Json::Str(sv) => {
                        if ref_id_check(sv.as_str()) {
                            Ok(Value::Symbol(sv.clone()))
                        } else {
                            Err(err())
                        }
                    },
                    _ => Err(err()),
                }
            } else {
                Err(err())
            }
        } else if skey_is(k, "grid") {
            proof {
                reveal_strlit("grid");
                assert("grid"@ =~= s_grid());
            }
            match e_j2grid_members(ms, owner) {
                Ok(g) => Ok(Value::Grid(Box::new(g))),
                Err(e) => Err(e),
            }
        } else {
            Err(err())
        }
    } else {
        proof {
            reveal_strlit("_kind");
            assert("_kind"@ =~= s_kind());
            if ms@.len() >= 1 {
                assert(jm[0] == (ms@[0].0@, crate::json::json_dv(ms@[0].1)));
            }
            assert(jm.skip(0) =~= jm);
        }
        match e_j2dict(ms, 0) {
            Ok(d) => Ok(Value::Dict(d)),
            Err(e) => Err(e),
        }
    }
}

/// Decode a coordinate component.
fn e_coord_from(j: &Json, bound: u64) -> (r: Option<i64>)
    requires
        bound == 90000000 || bound == 180000000,
    ensures
        r == crate::hayson::j2coord_part(j@, bound as nat),
{
    match j {
        Json::Num { neg, mag, scale } => {
            if (!*neg || *mag != 0) && *scale <= 6 {
                let p = pow10_exec(6 - *scale);
                proof {
                    crate::dates::lemma_pow10_small();
                    crate::strutil::lemma_pow10_pos((6 - *scale) as nat);
                }
                if *mag > 200000000 {
                    proof {
                        let pp = crate::strutil::pow10((6 - *scale) as nat);
                        assert(*mag * pp >= *mag * 1) by (nonlinear_arith)
                            requires
                                pp >= 1,
                        ;
                    }
                    None
                } else {
                    proof {
                        assert(*mag * p <= 200000000 * 1000000) by (nonlinear_arith)
                            requires
                                0 <= *mag <= 200000000,
                                0 <= p <= 1000000,
                        ;
                    }
                    let ud = *mag * p;
                    if ud <= bound {
                        if *neg {
                            Some(-(ud as i64))
                        } else {
                            Some(ud as i64)
                        }
                    } else {
                        None
                    }
                }
            } else {
                None
            }
        },
        _ => None,
    }
}

fn pow10_exec(e: u32) -> (r: u64)
    requires
        e <= 6,
    ensures
        r == crate::strutil::pow10(e as nat),
        r <= 1000000,
{
    proof {
        crate::dates::lemma_pow10_small();
        assert(crate::strutil::pow10(0) == 1);
        assert(crate::strutil::pow10(1) == 10);
        assert(crate::strutil::pow10(5) == 100000);
        assert(crate::strutil::pow10(6) == 1000000);
    }
    match e {
        0 => 1,
        1 => 10,
        2 => 100,
        3 => 1000,
        4 => 10000,
        5 => 100000,
        _ => 1000000,
    }
}


/// Decode the canonical grid object members.
#[verifier::rlimit(100)]
fn e_j2grid_members(ms: &Vec<(String, Json)>, owner: Ghost<Json>) -> (r: Result<Grid, CodecError>)
    requires
        owner@ == Json::Obj(*ms),
    ensures
        ({
            let sp = crate::hayson::j2grid_parts(jmembers_dv(ms@));
            match r {
                Ok(g) => sp == Some(crate::value::grid_dv(g)),
                Err(_) => sp is None,
            }
        }),
    decreases owner@, 1int,
{
    let ghost jm = jmembers_dv(ms@);
    proof {
        lemma_jmembers_dv(ms@);
        reveal_strlit("meta");
        reveal_strlit("cols");
        reveal_strlit("rows");
        assert("meta"@ =~= s_meta());
        assert("cols"@ =~= s_cols());
        assert("rows"@ =~= s_rows());
        if ms@.len() == 4 {
            assert(jm[1] == (ms@[1].0@, crate::json::json_dv(ms@[1].1)));
            assert(jm[2] == (ms@[2].0@, crate::json::json_dv(ms@[2].1)));
            assert(jm[3] == (ms@[3].0@, crate::json::json_dv(ms@[3].1)));
        }
        assert(decreases_to!(owner@ => owner@->Obj_0));
        assert(owner@->Obj_0 == *ms);
    }
    if !(ms.len() == 4 && skey_is(&ms[1].0, "meta") && skey_is(&ms[2].0, "cols") && skey_is(
        &ms[3].0,
        "rows",
    )) {
        return Err(err());
    }
    let mm: &Vec<(String, Json)> = match &ms[1].1 {
        Json::Obj(mm) => mm,
        _ => {
            return Err(err());
        },
    };
    let colsj: &Vec<Json> = match &ms[2].1 {
        Json::Arr(a) => a,
        _ => {
            return Err(err());
        },
    };
    let rowsj: &Vec<Json> = match &ms[3].1 {
        Json::Arr(a) => a,
        _ => {
            return Err(err());
        },
    };
    proof {
        assert(decreases_to!(*ms => ms@));
        assert(decreases_to!(ms@ => ms@[1]));
        assert(decreases_to!(ms@[1] => ms@[1].1));
        assert(decreases_to!(ms@[1].1 => ms@[1].1->Obj_0));
        assert(*mm == ms@[1].1->Obj_0);
        assert(decreases_to!(ms@ => ms@[2]));
        assert(decreases_to!(ms@[2] => ms@[2].1));
        assert(decreases_to!(ms@[2].1 => ms@[2].1->Arr_0));
        assert(*colsj == ms@[2].1->Arr_0);
        assert(decreases_to!(ms@ => ms@[3]));
        assert(decreases_to!(ms@[3] => ms@[3].1));
        assert(decreases_to!(ms@[3].1 => ms@[3].1->Arr_0));
        assert(*rowsj == ms@[3].1->Arr_0);
        assert(jm[1].1->Obj_0 == jmembers_dv(mm@));
        assert(jm[2].1->Arr_0 == jsons_dv(colsj@));
        assert(jm[3].1->Arr_0 == jsons_dv(rowsj@));
    }
    proof {
        assert(jmembers_dv(mm@).skip(0) =~= jmembers_dv(mm@));
    }
    let meta = match e_j2dict(mm, 0) {
        Ok(d) => d,
        Err(e) => {
            return Err(e);
        },
    };
    let cols = match e_j2cols(colsj) {
        Ok(c) => c,
        Err(e) => {
            return Err(e);
        },
    };
    let rows = match e_j2rows(rowsj) {
        Ok(rv) => rv,
        Err(e) => {
            return Err(e);
        },
    };
    let g = Grid { meta, cols, rows };
    let ghost gs = crate::value::grid_dv(g);
    proof {
        crate::value::lemma_cols_dv(g.cols@);
        crate::value::lemma_rows_dv(g.rows@);
    }
    if !cols_distinct_check(&g.cols) {
        return Err(err());
    }
    if !rows_in_cols_check(&g.rows, &g.cols) {
        proof {
            let i2 = choose|i2: int, k2: int|
                0 <= i2 < gs.rows.len() && 0 <= k2 < gs.rows[i2].entries.len() && !has_col_in(
                    gs.cols,
                    (#[trigger] gs.rows[i2].entries[k2]).0,
                );
        }
        return Err(err());
    }
    proof {
        assert(gs == (GridS {
            meta: crate::value::dict_dv(g.meta),
            cols: crate::value::cols_dv(g.cols@),
            rows: crate::value::rows_dv(g.rows@),
        }));
        assert(jm[1].1 == crate::json::json_dv(ms@[1].1));
        assert(jm[1].1->Obj_0 == jmembers_dv(mm@));
        assert(jm[2].1->Arr_0 == jsons_dv(colsj@));
        assert(jm[3].1->Arr_0 == jsons_dv(rowsj@));
        assert forall|i2: int, k2: int|
            0 <= i2 < gs.rows.len() && 0 <= k2 < gs.rows[i2].entries.len()
                implies crate::value::grid_has_col(gs, #[trigger] gs.rows[i2].entries[k2].0) by {
            assert(has_col_in(gs.cols, (gs.rows[i2].entries[k2]).0));
            let m = choose|m: int|
                0 <= m < gs.cols.len() && (#[trigger] gs.cols[m].name)
                    == gs.rows[i2].entries[k2].0;
            assert(gs.cols[m].name == gs.rows[i2].entries[k2].0);
        }
        assert(crate::hayson::j2grid_parts(jm) == Some(gs));
    }
    Ok(g)
}

/// Whether the column names are pairwise distinct.
fn cols_distinct_check(cols: &Vec<Col>) -> (r: bool)
    ensures
        r == crate::hayson::cols_distinct(crate::value::cols_dv(cols@)),
{
    let ghost cv = crate::value::cols_dv(cols@);
    proof {
        crate::value::lemma_cols_dv(cols@);
    }
    let mut i: usize = 0;
    while i < cols.len()
        invariant
            0 <= i <= cols@.len(),
            cv == crate::value::cols_dv(cols@),
            cv.len() == cols@.len(),
            forall|k: int|
                0 <= k < cols@.len() ==> cv[k] == (ColS {
                    name: (#[trigger] cols@[k]).name@,
                    meta: crate::value::dict_dv(cols@[k].meta),
                }),
            forall|a: int, b: int|
                0 <= a < b < i ==> (#[trigger] cv[a].name) != (#[trigger] cv[b].name),
        decreases cols@.len() - i,
    {
        let mut jx: usize = 0;
        while jx < i
            invariant
                0 <= jx <= i < cols@.len(),
                cv == crate::value::cols_dv(cols@),
                cv.len() == cols@.len(),
                forall|k: int|
                    0 <= k < cols@.len() ==> cv[k] == (ColS {
                        name: (#[trigger] cols@[k]).name@,
                        meta: crate::value::dict_dv(cols@[k].meta),
                    }),
                forall|b: int| 0 <= b < jx ==> (#[trigger] cv[b].name) != cv[i as int].name,
            decreases i - jx,
        {
            if skey_is(&cols[jx].name.s, cols[i].name.as_str()) {
                proof {
                    assert(cv[jx as int].name == cv[i as int].name);
                    assert(!crate::hayson::cols_distinct(cv));
                }
                return false;
            }
            jx = jx + 1;
        }
        proof {
            assert forall|a: int, b: int|
                0 <= a < b < i + 1 implies (#[trigger] cv[a].name) != (#[trigger] cv[b].name) by {
                if b == i {
                    assert(cv[a].name != cv[i as int].name);
                }
            }
        }
        i = i + 1;
    }
    true
}

/// A name among the column definitions.
pub open spec fn has_col_in(cols: Seq<ColS>, name: Seq<char>) -> bool {
    exists|m: int| 0 <= m < cols.len() && (#[trigger] cols[m].name) == name
}

/// Every row key names a defined column.
pub open spec fn rows_ok(cols: Seq<ColS>, rows: Seq<DictS>) -> bool {
    forall|i: int, k: int|
        0 <= i < rows.len() && 0 <= k < rows[i].entries.len() ==> has_col_in(
            cols,
            (#[trigger] rows[i].entries[k]).0,
        )
}

/// Whether every row key names a defined column.
fn rows_in_cols_check(rows: &Vec<Dict>, cols: &Vec<Col>) -> (r: bool)
    ensures
        r == rows_ok(crate::value::cols_dv(cols@), crate::value::rows_dv(rows@)),
{
    let ghost cv = crate::value::cols_dv(cols@);
    let ghost rv = crate::value::rows_dv(rows@);
    proof {
        crate::value::lemma_cols_dv(cols@);
        crate::value::lemma_rows_dv(rows@);
    }
    let mut i: usize = 0;
    while i < rows.len()
        invariant
            0 <= i <= rows@.len(),
            cv == crate::value::cols_dv(cols@),
            rv == crate::value::rows_dv(rows@),
            cv.len() == cols@.len(),
            rv.len() == rows@.len(),
            forall|k: int|
                0 <= k < cols@.len() ==> cv[k] == (ColS {
                    name: (#[trigger] cols@[k]).name@,
                    meta: crate::value::dict_dv(cols@[k].meta),
                }),
            forall|k: int| 0 <= k < rows@.len() ==> rv[k] == crate::value::dict_dv(
                #[trigger] rows@[k],
            ),
            forall|a: int, k: int|
                0 <= a < i && 0 <= k < rv[a].entries.len() ==> has_col_in(
                    cv,
                    (#[trigger] rv[a].entries[k]).0,
                ),
        decreases rows@.len() - i,
    {
        let row = &rows[i];
        let ghost re = crate::value::entries_dv(row.entries@);
        proof {
            crate::value::lemma_entries_dv(row.entries@);
            assert(*row == rows@[i as int]);
            assert(rv[i as int] == crate::value::dict_dv(*row));
            assert(rv[i as int].entries == re);
        }
        let mut k: usize = 0;
        while k < row.entries.len()
            invariant
                0 <= k <= row.entries@.len(),
                0 <= i < rv.len(),
                cv == crate::value::cols_dv(cols@),
                rv == crate::value::rows_dv(rows@),
                cv.len() == cols@.len(),
                re == crate::value::entries_dv(row.entries@),
                re.len() == row.entries@.len(),
                rv[i as int].entries == re,
                forall|m: int|
                    0 <= m < cols@.len() ==> cv[m] == (ColS {
                        name: (#[trigger] cols@[m]).name@,
                        meta: crate::value::dict_dv(cols@[m].meta),
                    }),
                forall|m: int|
                    0 <= m < row.entries@.len() ==> re[m] == ((#[trigger] row.entries@[m]).0@,
                    crate::value::value_dv(row.entries@[m].1)),
                forall|m: int| 0 <= m < k ==> has_col_in(cv, (#[trigger] re[m]).0),
            decreases row.entries@.len() - k,
        {
            let name = &row.entries[k].0;
            let mut found = false;
            let mut c: usize = 0;
            while c < cols.len()
                invariant
                    0 <= c <= cols@.len(),
                    cv == crate::value::cols_dv(cols@),
                    cv.len() == cols@.len(),
                    forall|m: int|
                        0 <= m < cols@.len() ==> cv[m] == (ColS {
                            name: (#[trigger] cols@[m]).name@,
                            meta: crate::value::dict_dv(cols@[m].meta),
                        }),
                    found ==> has_col_in(cv, name@),
                    !found ==> forall|m: int| 0 <= m < c ==> (#[trigger] cv[m].name) != name@,
                decreases cols@.len() - c,
            {
                if skey_is(&cols[c].name.s, name.as_str()) {
                    proof {
                        assert(cv[c as int].name == name@);
                    }
                    found = true;
                }
                c = c + 1;
            }
            if !found {
                proof {
                    assert(re[k as int].0 == name@);
                    if has_col_in(cv, name@) {
                        let m = choose|m: int|
                            0 <= m < cv.len() && (#[trigger] cv[m].name) == name@;
                        assert(false);
                    }
                    assert(!has_col_in(cv, (rv[i as int].entries[k as int]).0));
                    assert(!rows_ok(cv, rv));
                }
                return false;
            }
            proof {
                assert(has_col_in(cv, re[k as int].0)) by {
                    assert(re[k as int].0 == name@);
                }
            }
            k = k + 1;
        }
        proof {
            assert forall|k2: int|
                0 <= k2 < rv[i as int].entries.len() implies has_col_in(
                cv,
                (#[trigger] rv[i as int].entries[k2]).0,
            ) by {
                assert(rv[i as int].entries[k2] == re[k2]);
                assert(has_col_in(cv, re[k2].0));
            }
        }
        i = i + 1;
    }
    true
}

/// Decode a column array.
#[verifier::rlimit(100)]
fn e_j2cols(items: &Vec<Json>) -> (r: Result<Vec<Col>, CodecError>)
    ensures
        ({
            let sp = crate::hayson::j2cols(jsons_dv(items@));
            match r {
                Ok(cs) => sp == Some(crate::value::cols_dv(cs@)),
                Err(_) => sp is None,
            }
        }),
    decreases *items, 2int,
{
    let ghost jv = jsons_dv(items@);
    proof {
        lemma_jsons_dv(items@);
    }
    let mut out: Vec<Col> = Vec::new();
    let mut i: usize = 0;
    while i < items.len()
        invariant
            0 <= i <= items@.len(),
            jv == jsons_dv(items@),
            jv.len() == items@.len(),
            forall|k: int|
                0 <= k < items@.len() ==> jv[k] == crate::json::json_dv(#[trigger] items@[k]),
            crate::hayson::j2cols(jv.take(i as int)) == Some(crate::value::cols_dv(out@)),
            out@.len() == i,
        decreases items@.len() - i,
    {
        proof {
            assert(decreases_to!(*items => items@));
            assert(decreases_to!(items@ => items@[i as int]));
        }
        let c = match e_j2col(&items[i]) {
            Ok(c) => c,
            Err(e) => {
                proof {
                    lemma_j2cols_prefix_none(jv, i as int);
                }
                return Err(e);
            },
        };
        let ghost old_out = out@;
        out.push(c);
        proof {
            assert(jv.take(i + 1).drop_last() =~= jv.take(i as int));
            assert(jv.take(i + 1).last() == jv[i as int]);
            crate::value::lemma_cols_dv(out@);
            crate::value::lemma_cols_dv(old_out);
            assert(crate::value::cols_dv(out@).drop_last() =~= crate::value::cols_dv(old_out)) by {
                assert(out@.drop_last() =~= old_out);
            }
            assert(crate::value::cols_dv(out@) =~= crate::value::cols_dv(old_out).push(
                ColS { name: c.name@, meta: crate::value::dict_dv(c.meta) },
            )) by {
                assert(out@.last() == c);
            }
        }
        i = i + 1;
    }
    proof {
        assert(jv.take(jv.len() as int) =~= jv);
    }
    Ok(out)
}

pub proof fn lemma_j2cols_prefix_none(jv: Seq<JsonS>, i: int)
    requires
        0 <= i < jv.len(),
        crate::hayson::j2col(jv[i]) is None,
    ensures
        crate::hayson::j2cols(jv) is None,
    decreases jv.len(),
{
    if jv.len() > 0 {
        if i < jv.len() - 1 {
            assert(jv.drop_last()[i] == jv[i]);
            lemma_j2cols_prefix_none(jv.drop_last(), i);
        } else {
            assert(jv.last() == jv[i]);
        }
    }
}

pub proof fn lemma_j2rows_prefix_none(jv: Seq<JsonS>, i: int)
    requires
        0 <= i < jv.len(),
        !(jv[i] is Obj) || crate::hayson::j2dict(jv[i]->Obj_0) is None,
    ensures
        crate::hayson::j2rows(jv) is None,
    decreases jv.len(),
{
    if jv.len() > 0 {
        if i < jv.len() - 1 {
            assert(jv.drop_last()[i] == jv[i]);
            lemma_j2rows_prefix_none(jv.drop_last(), i);
        } else {
            assert(jv.last() == jv[i]);
        }
    }
}

/// Decode one column object.
#[verifier::rlimit(100)]
fn e_j2col(j: &Json) -> (r: Result<Col, CodecError>)
    ensures
        ({
            let sp = crate::hayson::j2col(j@);
            match r {
                Ok(c) => sp == Some(
                    ColS { name: c.name@, meta: crate::value::dict_dv(c.meta) },
                ),
                Err(_) => sp is None,
            }
        }),
    decreases *j, 1int,
{
    let ms: &Vec<(String, Json)> = match j {
        Json::Obj(ms) => ms,
        _ => {
            return Err(err());
        },
    };
    let ghost jm = jmembers_dv(ms@);
    proof {
        lemma_jmembers_dv(ms@);
        reveal_strlit("name");
        assert("name"@ =~= s_name());
        if ms@.len() >= 1 {
            assert(jm[0] == (ms@[0].0@, crate::json::json_dv(ms@[0].1)));
        }
        assert(decreases_to!(*j => j->Obj_0));
        assert(*ms == j->Obj_0);
    }
    if !(ms.len() >= 1 && skey_is(&ms[0].0, "name")) {
        return Err(err());
    }
    let n: &String = match &ms[0].1 {
        Json::Str(n) => n,
        _ => {
            return Err(err());
        },
    };
    let tn = match TagName::parse(n.as_str()) {
        Some(t) => t,
        None => {
            return Err(err());
        },
    };
    proof {
        assert(jm.subrange(1, jm.len() as int) =~= jm.drop_first());
        assert(jm.skip(1) =~= jm.drop_first());
    }
    match e_j2dict(ms, 1) {
        Ok(meta) => Ok(Col { name: tn, meta }),
        Err(e) => Err(e),
    }
}

/// Decode a row array.
#[verifier::rlimit(100)]
fn e_j2rows(items: &Vec<Json>) -> (r: Result<Vec<Dict>, CodecError>)
    ensures
        ({
            let sp = crate::hayson::j2rows(jsons_dv(items@));
            match r {
                Ok(rs) => sp == Some(crate::value::rows_dv(rs@)),
                Err(_) => sp is None,
            }
        }),
    decreases *items, 2int,
{
    let ghost jv = jsons_dv(items@);
    proof {
        lemma_jsons_dv(items@);
    }
    let mut out: Vec<Dict> = Vec::new();
    let mut i: usize = 0;
    while i < items.len()
        invariant
            0 <= i <= items@.len(),
            jv == jsons_dv(items@),
            jv.len() == items@.len(),
            forall|k: int|
                0 <= k < items@.len() ==> jv[k] == crate::json::json_dv(#[trigger] items@[k]),
            crate::hayson::j2rows(jv.take(i as int)) == Some(crate::value::rows_dv(out@)),
            out@.len() == i,
        decreases items@.len() - i,
    {
        proof {
            assert(decreases_to!(*items => items@));
            assert(decreases_to!(items@ => items@[i as int]));
        }
        let rm: &Vec<(String, Json)> = match &items[i] {
            Json::Obj(rm) => rm,
            _ => {
                proof {
                    lemma_j2rows_prefix_none(jv, i as int);
                }
                return Err(err());
            },
        };
        proof {
            assert(decreases_to!(items@[i as int] => items@[i as int]->Obj_0));
            assert(*rm == items@[i as int]->Obj_0);
        }
        proof {
            assert(jmembers_dv(rm@).skip(0) =~= jmembers_dv(rm@));
        }
        let d = match e_j2dict(rm, 0) {
            Ok(d) => d,
            Err(e) => {
                proof {
                    lemma_j2rows_prefix_none(jv, i as int);
                }
                return Err(CodecError { row: Some(i as u64), col: e.col });
            },
        };
        let ghost old_out = out@;
        out.push(d);
        proof {
            assert(jv.take(i + 1).drop_last() =~= jv.take(i as int));
            assert(jv.take(i + 1).last() == jv[i as int]);
            crate::value::lemma_rows_dv(out@);
            crate::value::lemma_rows_dv(old_out);
            assert(crate::value::rows_dv(out@).drop_last() =~= crate::value::rows_dv(old_out)) by {
                assert(out@.drop_last() =~= old_out);
            }
            assert(crate::value::rows_dv(out@) =~= crate::value::rows_dv(old_out).push(
                crate::value::dict_dv(d),
            )) by {
                assert(out@.last() == d);
            }
        }
        i = i + 1;
    }
    proof {
        assert(jv.take(jv.len() as int) =~= jv);
    }
    Ok(out)
}

/// What decoding a whole response text denotes.
pub open spec fn spec_decode_grid(s: Seq<char>) -> Option<GridS> {
    match crate::parse::p_doc(s) {
        Some(jv) => j2grid_doc(jv),
        None => None,
    }
}

/// Encode a well-formed grid as its canonical wire text.
pub fn encode_grid(g: &Grid) -> (r: String)
    requires
        wf_grid(g@),
    ensures
        r@ == crate::json::jprint(grid2j(g@)),
{
    let j = e_grid2j(g);
    proof {
        lemma_wf_grid2j(g@);
    }
    crate::json::json_to_string(&j)
}

/// Decode a wire text as a grid; strict, failing on malformed text,
/// malformed values and non-grid documents.
pub fn decode_grid(s: &str) -> (r: Result<Grid, CodecError>)
    ensures
        ({
            let sp = spec_decode_grid(s@);
            match r {
                Ok(g) => sp == Some(g@),
                Err(_) => sp is None,
            }
        }),
{
    let j = match crate::parse::parse_json_text(s) {
        Some(j) => j,
        None => {
            return Err(err());
        },
    };
    match e_j2v(&j) {
        Ok(v) => {
            match v {
                Value::Grid(g) => Ok(*g),
                _ => Err(err()),
            }
        },
        Err(e) => Err(e),
    }
}

/// The decode-after-encode round trip, at the wire-document level:
/// any well-formed grid is recovered exactly from its encoding's
/// document.
pub proof fn lemma_codec_round_trip(g: GridS)
    requires
        wf_grid(g),
    ensures
        j2grid_doc(grid2j(g)) == Some(g),
{
    crate::hayson::lemma_grid_round_trip(g);
}

} // verus!
