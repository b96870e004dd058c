//! Request grids for the protocol operations, and the checks a client
//! applies to response grids: error-grid detection and read-by-ids
//! completeness.

use vstd::prelude::*;
use crate::tagname::{TagName, is_tag_name};
use crate::value::{
    Col, ColS, Date, DateTime, Dict, DictS, Grid, GridS, Number, Value, ValueS, datetime_dv,
    dict_get, dict_dv, grid_dv, is_ref_id, number_dv, wf_datetime, wf_date, wf_dict, wf_grid,
    wf_num, wf_value,
};
use crate::dates::{date_str, dt_str};
use crate::strutil::str_to_chars;

verus! {

broadcast use vstd::std_specs::vec::group_vec_axioms, vstd::seq::group_seq_axioms;

/// A syntactically valid response grid whose metadata marks an
/// operation failure, with the server's message.
pub struct ServerError {
    pub msg: String,
}

pub open spec fn s_err() -> Seq<char> {
    seq!['e', 'r', 'r']
}

pub open spec fn s_ver() -> Seq<char> {
    seq!['v', 'e', 'r']
}

pub open spec fn s_v30() -> Seq<char> {
    seq!['3', '.', '0']
}

pub open spec fn s_id() -> Seq<char> {
    seq!['i', 'd']
}

pub open spec fn s_ts() -> Seq<char> {
    seq!['t', 's']
}

pub open spec fn s_expr() -> Seq<char> {
    seq!['e', 'x', 'p', 'r']
}

pub open spec fn s_filter() -> Seq<char> {
    seq!['f', 'i', 'l', 't', 'e', 'r']
}

pub open spec fn s_limit() -> Seq<char> {
    seq!['l', 'i', 'm', 'i', 't']
}

pub open spec fn s_range() -> Seq<char> {
    seq!['r', 'a', 'n', 'g', 'e']
}

pub open spec fn s_nav_id() -> Seq<char> {
    seq!['n', 'a', 'v', 'I', 'd']
}

/// A tag name from a string already in the grammar.
fn tag(s: &str) -> (t: TagName)
    requires
        is_tag_name(s@),
    ensures
        t@ == s@,
        t.wf(),
{
    TagName { s: s.to_owned() }
}

/// Find the first entry bearing a key; `None` exactly when the dict
/// has no such key.
pub fn dict_index_of(d: &Dict, key: &str) -> (r: Option<usize>)
    ensures
        r matches Some(i) ==> 0 <= i < d@.entries.len() && (#[trigger] d@.entries[i as int]).0
            == key@ && dict_get(d@, key@) == Some(d@.entries[i as int].1),
        r is None ==> dict_get(d@, key@) is None,
{
    let ghost de = crate::value::entries_dv(d.entries@);
    proof {
        crate::value::lemma_entries_dv(d.entries@);
    }
    let mut i: usize = 0;
    while i < d.entries.len()
        invariant
            0 <= i <= d.entries@.len(),
            de == crate::value::entries_dv(d.entries@),
            de.len() == d.entries@.len(),
            forall|k: int|
                0 <= k < d.entries@.len() ==> de[k] == ((#[trigger] d.entries@[k]).0@,
                crate::value::value_dv(d.entries@[k].1)),
            forall|k: int| 0 <= k < i ==> (#[trigger] de[k]).0 != key@,
        decreases d.entries@.len() - i,
    {
        if crate::codec::skey_is(&d.entries[i].0.s, key) {
            proof {
                crate::value::lemma_dict_get_skip(de, key@, i as int);
                assert(de.skip(i as int)[0] == de[i as int]);
                assert(dict_get(DictS { entries: de.skip(i as int) }, key@) == Some(
                    de[i as int].1,
                ));
                assert(d@ == (DictS { entries: de }));
            }
            return Some(i);
        }
        i = i + 1;
    }
    proof {
        crate::value::lemma_dict_get_skip(de, key@, de.len() as int);
        assert(de.skip(de.len() as int) =~= Seq::<(Seq<char>, ValueS)>::empty());
        assert(dict_get(DictS { entries: Seq::empty() }, key@) is None);
        assert(d@ == (DictS { entries: de }));
    }
    None
}

/// Error-grid detection: a response grid whose meta carries the `err`
/// marker becomes a typed failure with the server's `dis` message; any
/// other grid passes through unchanged.
pub fn into_result(g: Grid) -> (r: Result<Grid, ServerError>)
    ensures
        r is Err <==> dict_get(g@.meta, s_err()) == Some(ValueS::Marker),
        r matches Ok(g2) ==> g2@ == g@,
        r matches Err(e) ==> (match dict_get(g@.meta, crate::hayson::s_dis()) {
            Some(ValueS::Str(m)) => e.msg@ == m,
            _ => e.msg@ =~= Seq::<char>::empty(),
        }),
{
    proof {
        reveal_strlit("err");
        reveal_strlit("dis");
        assert("err"@ =~= s_err());
        assert("dis"@ =~= crate::hayson::s_dis());
    }
    proof {
        crate::value::lemma_entries_dv(g.meta.entries@);
    }
    let is_err = match dict_index_of(&g.meta, "err") {
        Some(i) => {
            proof {
                crate::value::lemma_dv_marker(g.meta.entries@[i as int].1);
            }
            match &g.meta.entries[i].1 {
                Value::Marker => true,
                _ => false,
            }
        },
        None => false,
    };
    if !is_err {
        return Ok(g);
    }
    let msg: String = match dict_index_of(&g.meta, "dis") {
        Some(j) => {
            proof {
                crate::value::lemma_dv_str(g.meta.entries@[j as int].1);
            }
            match &g.meta.entries[j].1 {
                Value::Str(m) => m.clone(),
                _ => String::new(),
            }
        },
        None => String::new(),
    };
    Err(ServerError { msg })
}

/// A dict of one entry.
fn dict1(name: &str, v: Value) -> (d: Dict)
    requires
        is_tag_name(name@),
    ensures
        d@.entries =~= seq![(name@, crate::value::value_dv(v))],
{
    let ghost vv = crate::value::value_dv(v);
    let d = Dict { entries: vec![(tag(name), v)] };
    proof {
        crate::value::lemma_entries_dv(d.entries@);
        assert(d@.entries =~= seq![(name@, vv)]);
    }
    d
}

/// A dict of two entries.
fn dict2(n1: &str, v1: Value, n2: &str, v2: Value) -> (d: Dict)
    requires
        is_tag_name(n1@),
        is_tag_name(n2@),
    ensures
        d@.entries =~= seq![
            (n1@, crate::value::value_dv(v1)),
            (n2@, crate::value::value_dv(v2)),
        ],
{
    let ghost w1 = crate::value::value_dv(v1);
    let ghost w2 = crate::value::value_dv(v2);
    let d = Dict { entries: vec![(tag(n1), v1), (tag(n2), v2)] };
    proof {
        crate::value::lemma_entries_dv(d.entries@);
        assert(d@.entries =~= seq![(n1@, w1), (n2@, w2)]);
    }
    d
}

/// A column with empty metadata.
fn simple_col(name: &str) -> (c: Col)
    requires
        is_tag_name(name@),
    ensures
        c.name@ == name@,
        dict_dv(c.meta).entries =~= Seq::<(Seq<char>, ValueS)>::empty(),
{
    let c = Col { name: tag(name), meta: Dict { entries: Vec::new() } };
    proof {
        crate::value::lemma_entries_dv(c.meta.entries@);
    }
    c
}

/// The request-grid meta `{ver: "3.0"}`.
fn ver_meta() -> (d: Dict)
    ensures
        d@.entries =~= seq![(s_ver(), ValueS::Str(s_v30()))],
{
    proof {
        reveal_strlit("ver");
        reveal_strlit("3.0");
        assert("ver"@ =~= s_ver());
        assert(is_tag_name("ver"@));
        assert("3.0"@ =~= s_v30());
    }
    dict1("ver", Value::Str("3.0".to_owned()))
}

/// The canonical one-column, zero-or-more-row request grid.
pub open spec fn req_grid_spec(col: Seq<char>, rows: Seq<DictS>) -> GridS {
    GridS {
        meta: DictS { entries: seq![(s_ver(), ValueS::Str(s_v30()))] },
        cols: seq![ColS { name: col, meta: DictS { entries: Seq::empty() } }],
        rows,
    }
}

/// Assemble a one-column request grid and prove it well-formed; every
/// row must hold exactly one cell named by the column.
fn req_grid1(col_name: &str, rows: Vec<Dict>) -> (g: Grid)
    requires
        is_tag_name(col_name@),
        forall|i: int|
            0 <= i < rows@.len() ==> wf_dict(#[trigger] crate::value::rows_dv(rows@)[i]),
        forall|i: int, k: int|
            0 <= i < rows@.len() && 0 <= k < crate::value::rows_dv(rows@)[i].entries.len()
                ==> (#[trigger] crate::value::rows_dv(rows@)[i].entries[k]).0 == col_name@,
    ensures
        g@ == req_grid_spec(col_name@, crate::value::rows_dv(rows@)),
        wf_grid(g@),
{
    let ghost rv = crate::value::rows_dv(rows@);
    proof {
        crate::value::lemma_rows_dv(rows@);
        assert forall|i: int| 0 <= i < rv.len() implies wf_dict(#[trigger] rv[i]) by {
            assert(crate::value::rows_dv(rows@)[i] == rv[i]);
        }
        assert forall|i: int, k: int|
            0 <= i < rv.len() && 0 <= k < rv[i].entries.len() implies (
        #[trigger] rv[i].entries[k]).0 == col_name@ by {
            assert((crate::value::rows_dv(rows@)[i].entries[k]).0 == col_name@);
        }
    }
    let g = Grid { meta: ver_meta(), cols: vec![simple_col(col_name)], rows };
    proof {
        assert(g@.rows == rv);
        crate::value::lemma_cols_dv(g.cols@);
        assert(crate::value::cols_dv(g.cols@) =~= seq![
            ColS { name: col_name@, meta: DictS { entries: Seq::empty() } },
        ]);
        assert(g@ == req_grid_spec(col_name@, rv));
        reveal_strlit("ver");
        assert(is_tag_name(s_ver()));
        assert(is_tag_name(col_name@));
        let gs = g@;
        assert(wf_dict(gs.meta)) by {
            assert(forall|i: int|
                0 <= i < gs.meta.entries.len() ==> (#[trigger] gs.meta.entries[i]) == (
                s_ver(),
                ValueS::Str(s_v30()),
                ));
        }
        assert forall|i: int, k: int|
            0 <= i < gs.rows.len() && 0 <= k < gs.rows[i].entries.len()
                implies crate::value::grid_has_col(gs, (#[trigger] gs.rows[i].entries[k]).0) by {
            assert(gs.rows[i] == rv[i]);
            assert(rv[i].entries[k].0 == col_name@);
            assert(gs.cols[0].name == col_name@);
        }
        assert forall|i: int| 0 <= i < gs.rows.len() implies wf_dict(#[trigger] gs.rows[i]) by {
            assert(gs.rows[i] == rv[i]);
        }
        assert forall|i: int|
            0 <= i < gs.cols.len() implies is_tag_name((#[trigger] gs.cols[i]).name) && wf_dict(
            gs.cols[i].meta,
        ) by {
            assert(gs.cols[i] == gs.cols[0]);
            assert(gs.cols[0].meta.entries.len() == 0);
        }
    }
    g
}

/// The eval request: one `expr` cell holding the expression.
pub fn eval_req(expr: &str) -> (g: Grid)
    ensures
        g@ == req_grid_spec(
            s_expr(),
            seq![DictS { entries: seq![(s_expr(), ValueS::Str(expr@))] }],
        ),
        wf_grid(g@),
{
    proof {
        reveal_strlit("expr");
        assert("expr"@ =~= s_expr());
        assert(is_tag_name("expr"@));
    }
    let row = dict1("expr", Value::Str(expr.to_owned()));
    let rows = vec![row];
    proof {
        crate::value::lemma_rows_dv(rows@);
        assert(crate::value::rows_dv(rows@) =~= seq![
            DictS { entries: seq![(s_expr(), ValueS::Str(expr@))] },
        ]);
    }
    req_grid1("expr", rows)
}

/// The nav request: zero or one `navId` Ref cell.
pub fn nav_req(nav_id: Option<&str>) -> (g: Grid)
    requires
        nav_id matches Some(id) ==> is_ref_id(id@),
    ensures
        ({
            let rows: Seq<DictS> = match nav_id {
                Some(id) => seq![
                    DictS {
                        entries: seq![(s_nav_id(), ValueS::Ref { id: id@, dis: None })],
                    },
                ],
                None => Seq::empty(),
            };
            g@ == req_grid_spec(s_nav_id(), rows) && wf_grid(g@)
        }),
{
    proof {
        reveal_strlit("navId");
        assert("navId"@ =~= s_nav_id());
        assert(is_tag_name("navId"@));
    }
    let rows: Vec<Dict> = match nav_id {
        Some(id) => vec![dict1("navId", Value::Ref { id: id.to_owned(), dis: None })],
        None => Vec::new(),
    };
    proof {
        crate::value::lemma_rows_dv(rows@);
        if nav_id is Some {
            assert(crate::value::rows_dv(rows@) =~= seq![
                DictS {
                    entries: seq![
                        (s_nav_id(), ValueS::Ref { id: nav_id->Some_0@, dis: None }),
                    ],
                },
            ]);
        } else {
            assert(crate::value::rows_dv(rows@) =~= Seq::<DictS>::empty());
        }
    }
    req_grid1("navId", rows)
}

/// The read request: a `filter` cell and, when given, a `limit` cell.
pub fn read_req(filter: &str, limit: Option<u64>) -> (g: Grid)
    ensures
        ({
            let row: DictS = match limit {
                Some(n) => DictS {
                    entries: seq![
                        (s_filter(), ValueS::Str(filter@)),
                        (
                            s_limit(),
                            ValueS::Num(
                                crate::value::NumberS {
                                    mag: crate::value::NumMag::Dec {
                                        neg: false,
                                        mag: n,
                                        scale: 0,
                                    },
                                    unit: None,
                                },
                            ),
                        ),
                    ],
                },
                None => DictS { entries: seq![(s_filter(), ValueS::Str(filter@))] },
            };
            &&& g@.meta.entries == seq![(s_ver(), ValueS::Str(s_v30()))]
            &&& g@.rows == seq![row]
            &&& g@.cols.len() == (if limit is Some {
                2int
            } else {
                1int
            })
            &&& g@.cols[0].name == s_filter()
            &&& (limit is Some ==> g@.cols[1].name == s_limit())
            &&& wf_grid(g@)
        }),
{
    proof {
        reveal_strlit("filter");
        reveal_strlit("limit");
        reveal_strlit("ver");
        assert("filter"@ =~= s_filter());
        assert("limit"@ =~= s_limit());
        assert(is_tag_name("filter"@));
        assert(is_tag_name("limit"@));
        assert(is_tag_name(s_ver()));
        assert(s_filter() != s_limit()) by {
            assert(s_filter()[0] != s_limit()[0]);
        }
    }
    let g = match limit {
        Some(n) => {
            let row = dict2(
                "filter",
                Value::Str(filter.to_owned()),
                "limit",
                Value::Num(
                    Number {
                        mag: crate::value::NumMag::Dec { neg: false, mag: n, scale: 0 },
                        unit: None,
                    },
                ),
            );
            Grid {
                meta: ver_meta(),
                cols: vec![simple_col("filter"), simple_col("limit")],
                rows: vec![row],
            }
        },
        None => {
            let row = dict1("filter", Value::Str(filter.to_owned()));
            Grid { meta: ver_meta(), cols: vec![simple_col("filter")], rows: vec![row] }
        },
    };
    proof {
        crate::value::lemma_cols_dv(g.cols@);
        crate::value::lemma_rows_dv(g.rows@);
        crate::value::lemma_entries_dv(g.meta.entries@);
        assert(g@.meta.entries =~= seq![(s_ver(), ValueS::Str(s_v30()))]);
        let gs = g@;
        assert(wf_dict(gs.meta)) by {
            assert(forall|i: int|
                0 <= i < gs.meta.entries.len() ==> (#[trigger] gs.meta.entries[i]) == (
                s_ver(),
                ValueS::Str(s_v30()),
                ));
        }
        if limit is Some {
            assert(gs.rows =~= seq![crate::value::dict_dv(g.rows@[0])]);
        } else {
            assert(gs.rows =~= seq![crate::value::dict_dv(g.rows@[0])]);
        }
        assert forall|i: int, k: int|
            0 <= i < gs.rows.len() && 0 <= k < gs.rows[i].entries.len()
                implies crate::value::grid_has_col(gs, (#[trigger] gs.rows[i].entries[k]).0) by {
            if gs.rows[i].entries[k].0 == s_filter() {
                assert(gs.cols[0].name == s_filter());
            } else {
                assert(gs.cols[1].name == s_limit());
            }
        }
        assert forall|i: int| 0 <= i < gs.rows.len() implies wf_dict(#[trigger] gs.rows[i]) by {
            assert(gs.rows[i] == gs.rows[0]);
        }
        assert forall|i: int|
            0 <= i < gs.cols.len() implies is_tag_name((#[trigger] gs.cols[i]).name) && wf_dict(
            gs.cols[i].meta,
        ) by {
            if i == 0 {
                assert(gs.cols[0].name == s_filter());
            } else {
                assert(gs.cols[i] == gs.cols[1]);
                assert(gs.cols[1].name == s_limit());
            }
            assert(gs.cols[i].meta.entries.len() == 0);
        }
        assert forall|i: int, j: int|
            0 <= i < j < gs.cols.len() implies (#[trigger] gs.cols[i].name) != (
        #[trigger] gs.cols[j].name) by {
            assert(i == 0 && j == 1);
        }
    }
    g
}

/// The read-by-ids request: one row per id, each a single `id` Ref.
pub fn read_by_ids_req(ids: &Vec<String>) -> (g: Grid)
    requires
        forall|i: int| 0 <= i < ids@.len() ==> is_ref_id((#[trigger] ids@[i])@),
    ensures
        g@.meta.entries == seq![(s_ver(), ValueS::Str(s_v30()))],
        g@.cols.len() == 1 && g@.cols[0].name == s_id(),
        g@.rows.len() == ids@.len(),
        forall|i: int|
            0 <= i < ids@.len() ==> g@.rows[i] == (DictS {
                entries: seq![(s_id(), ValueS::Ref { id: (#[trigger] ids@[i])@, dis: None })],
            }),
        wf_grid(g@),
{
    proof {
        reveal_strlit("id");
        assert("id"@ =~= s_id());
        assert(is_tag_name("id"@));
    }
    let mut rows: Vec<Dict> = Vec::new();
    let mut i: usize = 0;
    while i < ids.len()
        invariant
            0 <= i <= ids@.len(),
            forall|k: int| 0 <= k < ids@.len() ==> is_ref_id((#[trigger] ids@[k])@),
            rows@.len() == i,
            forall|k: int|
                0 <= k < i ==> crate::value::rows_dv(rows@)[k] == (DictS {
                    entries: seq![
                        (s_id(), ValueS::Ref { id: (#[trigger] ids@[k])@, dis: None }),
                    ],
                }),
            crate::value::rows_dv(rows@).len() == i,
        decreases ids@.len() - i,
    {
        proof {
            reveal_strlit("id");
            assert("id"@ =~= s_id());
            assert(is_tag_name("id"@));
        }
        let row = dict1("id", Value::Ref { id: ids[i].clone(), dis: None });
        let ghost old_rows = rows@;
        rows.push(row);
        proof {
            crate::value::lemma_rows_dv(rows@);
            crate::value::lemma_rows_dv(old_rows);
            assert forall|k: int|
                0 <= k < i + 1 implies crate::value::rows_dv(rows@)[k] == (DictS {
                entries: seq![(s_id(), ValueS::Ref { id: (#[trigger] ids@[k])@, dis: None })],
            }) by {
                if k < i {
                    assert(rows@[k] == old_rows[k]);
                    assert(crate::value::rows_dv(rows@)[k] == crate::value::rows_dv(old_rows)[k]);
                } else {
                    assert(rows@[k] == row);
                    assert(dict_dv(row).entries =~= seq![
                        (s_id(), ValueS::Ref { id: ids@[k]@, dis: None }),
                    ]);
                }
            }
        }
        i = i + 1;
    }
    let ghost rv = crate::value::rows_dv(rows@);
    proof {
        assert forall|k: int| 0 <= k < rv.len() implies wf_dict(#[trigger] rv[k]) by {
            assert(rv[k].entries =~= seq![
                (s_id(), ValueS::Ref { id: ids@[k]@, dis: None }),
            ]);
        }
        assert forall|k: int, e: int|
            0 <= k < rv.len() && 0 <= e < rv[k].entries.len() implies (
        #[trigger] rv[k].entries[e]).0 == "id"@ by {
            assert(rv[k].entries =~= seq![
                (s_id(), ValueS::Ref { id: ids@[k]@, dis: None }),
            ]);
        }
    }
    req_grid1("id", rows)
}


/// The history-read range: a closed set of wire encodings.
pub enum HisReadRange {
    Today,
    Yesterday,
    Date(Date),
    DateSpan(Date, Date),
    DateTimeSpan(DateTime, DateTime),
}

pub open spec fn wf_range(r: HisReadRange) -> bool {
    match r {
        HisReadRange::Today => true,
        HisReadRange::Yesterday => true,
        HisReadRange::Date(d) => wf_date(d),
        HisReadRange::DateSpan(a, b) => wf_date(a) && wf_date(b),
        HisReadRange::DateTimeSpan(a, b) => wf_datetime(datetime_dv(a)) && wf_datetime(
            datetime_dv(b),
        ),
    }
}

/// The wire text of a range.
pub open spec fn range_str(r: HisReadRange) -> Seq<char> {
    match r {
        HisReadRange::Today => seq!['t', 'o', 'd', 'a', 'y'],
        HisReadRange::Yesterday => seq!['y', 'e', 's', 't', 'e', 'r', 'd', 'a', 'y'],
        HisReadRange::Date(d) => date_str(d),
        HisReadRange::DateSpan(a, b) => date_str(a) + seq![','] + date_str(b),
        HisReadRange::DateTimeSpan(a, b) => dt_str(datetime_dv(a)) + seq![','] + dt_str(
            datetime_dv(b),
        ),
    }
}

/// Format a range for the wire.
pub fn range_to_string(r: &HisReadRange) -> (s: String)
    requires
        wf_range(*r),
    ensures
        s@ == range_str(*r),
{
    match r {
        HisReadRange::Today => {
            let s = "today".to_owned();
            proof {
                reveal_strlit("today");
                assert(s@ =~= range_str(*r));
            }
            s
        },
        HisReadRange::Yesterday => {
            let s = "yesterday".to_owned();
            proof {
                reveal_strlit("yesterday");
                assert(s@ =~= range_str(*r));
            }
            s
        },
        HisReadRange::Date(d) => {
            let mut cs: Vec<char> = Vec::new();
            crate::codec::date_chars(*d, &mut cs);
            proof {
                assert(cs@ =~= range_str(*r));
            }
            crate::strutil::chars_to_string(&cs)
        },
        HisReadRange::DateSpan(a, b) => {
            let mut cs: Vec<char> = Vec::new();
            crate::codec::date_chars(*a, &mut cs);
            cs.push(',');
            crate::codec::date_chars(*b, &mut cs);
            proof {
                assert(cs@ =~= range_str(*r));
            }
            crate::strutil::chars_to_string(&cs)
        },
        HisReadRange::DateTimeSpan(a, b) => {
            let sa = crate::codec::dt_val_string(a);
            let sb = crate::codec::dt_val_string(b);
            let mut out = sa;
            out.push(',');
            let mut outb = out;
            outb.append(sb.as_str());
            proof {
                assert(outb@ =~= range_str(*r));
            }
            outb
        },
    }
}

/// The history-read request: an `id` Ref and a `range` string.
pub fn his_read_req(id: &str, range: &HisReadRange) -> (g: Grid)
    requires
        is_ref_id(id@),
        wf_range(*range),
    ensures
        g@.meta.entries == seq![(s_ver(), ValueS::Str(s_v30()))],
        g@.cols.len() == 2 && g@.cols[0].name == s_id() && g@.cols[1].name == s_range(),
        g@.rows == seq![
            DictS {
                entries: seq![
                    (s_id(), ValueS::Ref { id: id@, dis: None }),
                    (s_range(), ValueS::Str(range_str(*range))),
                ],
            },
        ],
        wf_grid(g@),
{
    proof {
        reveal_strlit("id");
        reveal_strlit("range");
        assert("id"@ =~= s_id());
        assert("range"@ =~= s_range());
        assert(is_tag_name("id"@));
        assert(is_tag_name("range"@));
        assert(s_id() != s_range()) by {
            assert(s_id().len() != s_range().len());
        }
    }
    let rs = range_to_string(range);
    let row = dict2(
        "id",
        Value::Ref { id: id.to_owned(), dis: None },
        "range",
        Value::Str(rs),
    );
    let g = Grid {
        meta: ver_meta(),
        cols: vec![simple_col("id"), simple_col("range")],
        rows: vec![row],
    };
    proof {
        two_col_wf(g@, s_id(), s_range());
    }
    g
}

/// Common well-formedness argument for the two-column request grids:
/// standard meta, two distinct simple columns, rows using only them.
proof fn two_col_wf(gs: GridS, c1: Seq<char>, c2: Seq<char>)
    requires
        gs.meta.entries == seq![(s_ver(), ValueS::Str(s_v30()))],
        is_tag_name(s_ver()),
        gs.cols.len() == 2,
        gs.cols[0] == (ColS { name: c1, meta: DictS { entries: Seq::empty() } }),
        gs.cols[1] == (ColS { name: c2, meta: DictS { entries: Seq::empty() } }),
        is_tag_name(c1),
        is_tag_name(c2),
        c1 != c2,
        forall|i: int| 0 <= i < gs.rows.len() ==> wf_dict(#[trigger] gs.rows[i]),
        forall|i: int, k: int|
            0 <= i < gs.rows.len() && 0 <= k < gs.rows[i].entries.len() ==> ((
            #[trigger] gs.rows[i].entries[k]).0 == c1 || gs.rows[i].entries[k].0 == c2),
    ensures
        wf_grid(gs),
{
    assert(wf_dict(gs.meta)) by {
        assert(forall|i: int|
            0 <= i < gs.meta.entries.len() ==> (#[trigger] gs.meta.entries[i]) == (
            s_ver(),
            ValueS::Str(s_v30()),
            ));
    }
    assert forall|i: int|
        0 <= i < gs.cols.len() implies is_tag_name((#[trigger] gs.cols[i]).name) && wf_dict(
        gs.cols[i].meta,
    ) by {
        if i == 0 {
            assert(gs.cols[0].name == c1);
        } else {
            assert(gs.cols[i] == gs.cols[1]);
        }
        assert(gs.cols[i].meta.entries.len() == 0);
    }
    assert forall|i: int, j: int|
        0 <= i < j < gs.cols.len() implies (#[trigger] gs.cols[i].name) != (
    #[trigger] gs.cols[j].name) by {
        assert(i == 0 && j == 1);
    }
    assert forall|i: int, k: int|
        0 <= i < gs.rows.len() && 0 <= k < gs.rows[i].entries.len()
            implies crate::value::grid_has_col(gs, (#[trigger] gs.rows[i].entries[k]).0) by {
        if gs.rows[i].entries[k].0 == c1 {
            assert(gs.cols[0].name == c1);
        } else {
            assert(gs.cols[1].name == c2);
        }
    }
}

/// One history sample row: a `ts` timestamp and a `val` cell.
pub open spec fn his_row(ts: crate::value::DateTimeS, v: ValueS) -> DictS {
    DictS {
        entries: seq![
            (s_ts(), ValueS::DateTime(ts)),
            (crate::hayson::s_val(), v),
        ],
    }
}

/// The history-write meta: `{ver: "3.0", id: <ref>}`.
pub open spec fn his_write_meta(id: Seq<char>) -> Seq<(Seq<char>, ValueS)> {
    seq![(s_ver(), ValueS::Str(s_v30())), (s_id(), ValueS::Ref { id, dis: None })]
}


/// Assemble a history-write grid around already-built sample rows.
fn his_write_core(id: &str, rows: Vec<Dict>) -> (g: Grid)
    requires
        is_ref_id(id@),
        forall|i: int|
            0 <= i < rows@.len() ==> wf_dict(#[trigger] crate::value::rows_dv(rows@)[i]),
        forall|i: int, k: int|
            0 <= i < rows@.len() && 0 <= k < crate::value::rows_dv(rows@)[i].entries.len() ==> ((
            #[trigger] crate::value::rows_dv(rows@)[i].entries[k]).0 == s_ts()
                || crate::value::rows_dv(rows@)[i].entries[k].0 == crate::hayson::s_val()),
    ensures
        g@.meta.entries == his_write_meta(id@),
        g@.cols.len() == 2 && g@.cols[0].name == s_ts() && g@.cols[1].name
            == crate::hayson::s_val(),
        g@.rows == crate::value::rows_dv(rows@),
        wf_grid(g@),
{
    proof {
        reveal_strlit("ver");
        reveal_strlit("3.0");
        reveal_strlit("id");
        reveal_strlit("ts");
        reveal_strlit("val");
        assert("ver"@ =~= s_ver());
        assert("3.0"@ =~= s_v30());
        assert("id"@ =~= s_id());
        assert("ts"@ =~= s_ts());
        assert("val"@ =~= crate::hayson::s_val());
        assert(is_tag_name("ver"@));
        assert(is_tag_name("id"@));
        assert(is_tag_name("ts"@));
        assert(is_tag_name("val"@));
        assert(s_ts() != crate::hayson::s_val()) by {
            assert(s_ts().len() != crate::hayson::s_val().len());
        }
        assert(s_ver() != s_id()) by {
            assert(s_ver().len() != s_id().len());
        }
    }
    let ghost rv = crate::value::rows_dv(rows@);
    proof {
        crate::value::lemma_rows_dv(rows@);
        assert forall|i: int| 0 <= i < rv.len() implies wf_dict(#[trigger] rv[i]) by {
            assert(crate::value::rows_dv(rows@)[i] == rv[i]);
        }
        assert forall|i: int, k: int|
            0 <= i < rv.len() && 0 <= k < rv[i].entries.len() implies ((
        #[trigger] rv[i].entries[k]).0 == s_ts() || rv[i].entries[k].0
            == crate::hayson::s_val()) by {
            assert((crate::value::rows_dv(rows@)[i].entries[k]).0 == rv[i].entries[k].0);
        }
    }
    let meta = dict2(
        "ver",
        Value::Str("3.0".to_owned()),
        "id",
        Value::Ref { id: id.to_owned(), dis: None },
    );
    let g = Grid { meta, cols: vec![simple_col("ts"), simple_col("val")], rows };
    proof {
        assert(g@.rows == rv);
        assert(g@.meta.entries =~= his_write_meta(id@));
        let gs = g@;
        assert(wf_dict(gs.meta)) by {
            assert forall|i: int|
                0 <= i < gs.meta.entries.len() implies is_tag_name(
                (#[trigger] gs.meta.entries[i]).0,
            ) && wf_value(gs.meta.entries[i].1) by {
                if i == 0 {
                    assert(gs.meta.entries[0] == (s_ver(), ValueS::Str(s_v30())));
                } else {
                    assert(gs.meta.entries[i] == (
                        s_id(),
                        ValueS::Ref { id: id@, dis: None },
                    ));
                }
            }
            assert forall|i: int, j: int|
                0 <= i < j < gs.meta.entries.len() implies (#[trigger] gs.meta.entries[i]).0 != (
            #[trigger] gs.meta.entries[j]).0 by {
                assert(i == 0 && j == 1);
            }
        }
        assert forall|i: int|
            0 <= i < gs.cols.len() implies is_tag_name((#[trigger] gs.cols[i]).name) && wf_dict(
            gs.cols[i].meta,
        ) by {
            if i == 0 {
                assert(gs.cols[0].name == s_ts());
            } else {
                assert(gs.cols[i] == gs.cols[1]);
            }
            assert(gs.cols[i].meta.entries.len() == 0);
        }
        assert forall|i: int, j: int|
            0 <= i < j < gs.cols.len() implies (#[trigger] gs.cols[i].name) != (
        #[trigger] gs.cols[j].name) by {
            assert(i == 0 && j == 1);
        }
        assert forall|i: int| 0 <= i < gs.rows.len() implies wf_dict(#[trigger] gs.rows[i]) by {
            assert(gs.rows[i] == rv[i]);
        }
        assert forall|i: int, k: int|
            0 <= i < gs.rows.len() && 0 <= k < gs.rows[i].entries.len()
                implies crate::value::grid_has_col(gs, (#[trigger] gs.rows[i].entries[k]).0) by {
            assert(gs.rows[i] == rv[i]);
            if rv[i].entries[k].0 == s_ts() {
                assert(gs.cols[0].name == s_ts());
            } else {
                assert(gs.cols[1].name == crate::hayson::s_val());
            }
        }
    }
    g
}

/// One sample row, built from a timestamp and a cell value.
fn his_row_dict(ts: &DateTime, v: Value) -> (d: Dict)
    requires
        wf_datetime(datetime_dv(*ts)),
        wf_value(crate::value::value_dv(v)),
    ensures
        d@ == his_row(datetime_dv(*ts), crate::value::value_dv(v)),
        wf_dict(d@),
{
    proof {
        reveal_strlit("ts");
        reveal_strlit("val");
        assert("ts"@ =~= s_ts());
        assert("val"@ =~= crate::hayson::s_val());
        assert(is_tag_name("ts"@));
        assert(is_tag_name("val"@));
    }
    let ghost vv = crate::value::value_dv(v);
    let d = dict2("ts", Value::DateTime(ts.clone()), "val", v);
    proof {
        assert(d@ == his_row(datetime_dv(*ts), vv));
        assert forall|i: int|
            0 <= i < d@.entries.len() implies is_tag_name((#[trigger] d@.entries[i]).0)
            && wf_value(d@.entries[i].1) by {
            if i == 0 {
                assert(d@.entries[0] == (s_ts(), ValueS::DateTime(datetime_dv(*ts))));
            } else {
                assert(d@.entries[i] == (crate::hayson::s_val(), vv));
            }
        }
        assert forall|i: int, j: int|
            0 <= i < j < d@.entries.len() implies (#[trigger] d@.entries[i]).0 != (
        #[trigger] d@.entries[j]).0 by {
            assert(i == 0 && j == 1);
            assert(s_ts() != crate::hayson::s_val()) by {
                assert(s_ts().len() != crate::hayson::s_val().len());
            }
        }
    }
    d
}

/// The boolean history-write request: each sample row carries a `ts`
/// timestamp and a boolean `val` cell.
pub fn his_write_bool_req(id: &str, samples: &Vec<(DateTime, bool)>) -> (g: Grid)
    requires
        is_ref_id(id@),
        forall|i: int|
            0 <= i < samples@.len() ==> wf_datetime(datetime_dv((#[trigger] samples@[i]).0)),
    ensures
        g@.meta.entries == his_write_meta(id@),
        g@.cols.len() == 2 && g@.cols[0].name == s_ts() && g@.cols[1].name
            == crate::hayson::s_val(),
        g@.rows.len() == samples@.len(),
        forall|i: int|
            0 <= i < samples@.len() ==> g@.rows[i] == his_row(
                datetime_dv((#[trigger] samples@[i]).0),
                ValueS::Bool(samples@[i].1),
            ),
        wf_grid(g@),
{
    let mut rows: Vec<Dict> = Vec::new();
    let mut i: usize = 0;
    while i < samples.len()
        invariant
            0 <= i <= samples@.len(),
            forall|k: int|
                0 <= k < samples@.len() ==> wf_datetime(
                    datetime_dv((#[trigger] samples@[k]).0),
                ),
            rows@.len() == i,
            crate::value::rows_dv(rows@).len() == i,
            forall|k: int|
                0 <= k < i ==> crate::value::rows_dv(rows@)[k] == his_row(
                    datetime_dv((#[trigger] samples@[k]).0),
                    ValueS::Bool(samples@[k].1),
                ),
            forall|k: int| 0 <= k < i ==> wf_dict(#[trigger] crate::value::rows_dv(rows@)[k]),
        decreases samples@.len() - i,
    {
        let row = his_row_dict(&samples[i].0, Value::Bool(samples[i].1));
        let ghost old_rows = rows@;
        rows.push(row);
        proof {
            crate::value::lemma_rows_dv(rows@);
            crate::value::lemma_rows_dv(old_rows);
            assert forall|k: int|
                0 <= k < i + 1 implies crate::value::rows_dv(rows@)[k] == his_row(
                datetime_dv((#[trigger] samples@[k]).0),
                ValueS::Bool(samples@[k].1),
            ) && wf_dict(crate::value::rows_dv(rows@)[k]) by {
                if k < i {
                    assert(rows@[k] == old_rows[k]);
                    assert(crate::value::rows_dv(rows@)[k] == crate::value::rows_dv(old_rows)[k]);
                } else {
                    assert(rows@[k] == row);
                }
            }
            assert forall|k: int|
                0 <= k < i + 1 implies wf_dict(#[trigger] crate::value::rows_dv(rows@)[k]) by {
                assert(crate::value::rows_dv(rows@)[k] == his_row(
                    datetime_dv(samples@[k].0),
                    ValueS::Bool(samples@[k].1),
                ));
            }
        }
        i = i + 1;
    }
    proof {
        let ghost rv = crate::value::rows_dv(rows@);
        assert forall|k: int|
            0 <= k < rv.len() implies ((#[trigger] rv[k]).entries.len() == 2 && rv[k].entries[0].0
            == s_ts() && rv[k].entries[1].0 == crate::hayson::s_val()) by {
            assert(rv[k] == his_row(datetime_dv(samples@[k].0), ValueS::Bool(samples@[k].1)));
        }
        lemma_sample_rows_keys(rv);
    }
    his_write_core(id, rows)
}

/// The numeric history-write request: each sample row carries a `ts`
/// timestamp and a `val` number with its unit.
pub fn his_write_num_req(id: &str, samples: &Vec<(DateTime, Number)>) -> (g: Grid)
    requires
        is_ref_id(id@),
        forall|i: int|
            0 <= i < samples@.len() ==> wf_datetime(datetime_dv((#[trigger] samples@[i]).0)),
        forall|i: int| 0 <= i < samples@.len() ==> wf_num(number_dv((#[trigger] samples@[i]).1)),
    ensures
        g@.meta.entries == his_write_meta(id@),
        g@.cols.len() == 2 && g@.cols[0].name == s_ts() && g@.cols[1].name
            == crate::hayson::s_val(),
        g@.rows.len() == samples@.len(),
        forall|i: int|
            0 <= i < samples@.len() ==> g@.rows[i] == his_row(
                datetime_dv((#[trigger] samples@[i]).0),
                ValueS::Num(number_dv(samples@[i].1)),
            ),
        wf_grid(g@),
{
    let mut rows: Vec<Dict> = Vec::new();
    let mut i: usize = 0;
    while i < samples.len()
        invariant
            0 <= i <= samples@.len(),
            forall|k: int|
                0 <= k < samples@.len() ==> wf_datetime(
                    datetime_dv((#[trigger] samples@[k]).0),
                ),
            forall|k: int|
                0 <= k < samples@.len() ==> wf_num(number_dv((#[trigger] samples@[k]).1)),
            rows@.len() == i,
            crate::value::rows_dv(rows@).len() == i,
            forall|k: int|
                0 <= k < i ==> crate::value::rows_dv(rows@)[k] == his_row(
                    datetime_dv((#[trigger] samples@[k]).0),
                    ValueS::Num(number_dv(samples@[k].1)),
                ),
            forall|k: int| 0 <= k < i ==> wf_dict(#[trigger] crate::value::rows_dv(rows@)[k]),
        decreases samples@.len() - i,
    {
        let row = his_row_dict(&samples[i].0, Value::Num(samples[i].1.clone()));
        let ghost old_rows = rows@;
        rows.push(row);
        proof {
            crate::value::lemma_rows_dv(rows@);
            crate::value::lemma_rows_dv(old_rows);
            assert forall|k: int|
                0 <= k < i + 1 implies crate::value::rows_dv(rows@)[k] == his_row(
                datetime_dv((#[trigger] samples@[k]).0),
                ValueS::Num(number_dv(samples@[k].1)),
            ) && wf_dict(crate::value::rows_dv(rows@)[k]) by {
                if k < i {
                    assert(rows@[k] == old_rows[k]);
                    assert(crate::value::rows_dv(rows@)[k] == crate::value::rows_dv(old_rows)[k]);
                } else {
                    assert(rows@[k] == row);
                }
            }
            assert forall|k: int|
                0 <= k < i + 1 implies wf_dict(#[trigger] crate::value::rows_dv(rows@)[k]) by {
                assert(crate::value::rows_dv(rows@)[k] == his_row(
                    datetime_dv(samples@[k].0),
                    ValueS::Num(number_dv(samples@[k].1)),
                ));
            }
        }
        i = i + 1;
    }
    proof {
        let ghost rv = crate::value::rows_dv(rows@);
        assert forall|k: int|
            0 <= k < rv.len() implies ((#[trigger] rv[k]).entries.len() == 2 && rv[k].entries[0].0
            == s_ts() && rv[k].entries[1].0 == crate::hayson::s_val()) by {
            assert(rv[k] == his_row(datetime_dv(samples@[k].0), ValueS::Num(number_dv(samples@[k].1))));
        }
        lemma_sample_rows_keys(rv);
    }
    his_write_core(id, rows)
}

/// The string history-write request: each sample row carries a `ts`
/// timestamp and a string `val` cell.
pub fn his_write_str_req(id: &str, samples: &Vec<(DateTime, String)>) -> (g: Grid)
    requires
        is_ref_id(id@),
        forall|i: int|
            0 <= i < samples@.len() ==> wf_datetime(datetime_dv((#[trigger] samples@[i]).0)),
    ensures
        g@.meta.entries == his_write_meta(id@),
        g@.cols.len() == 2 && g@.cols[0].name == s_ts() && g@.cols[1].name
            == crate::hayson::s_val(),
        g@.rows.len() == samples@.len(),
        forall|i: int|
            0 <= i < samples@.len() ==> g@.rows[i] == his_row(
                datetime_dv((#[trigger] samples@[i]).0),
                ValueS::Str((samples@[i].1)@),
            ),
        wf_grid(g@),
{
    let mut rows: Vec<Dict> = Vec::new();
    let mut i: usize = 0;
    while i < samples.len()
        invariant
            0 <= i <= samples@.len(),
            forall|k: int|
                0 <= k < samples@.len() ==> wf_datetime(
                    datetime_dv((#[trigger] samples@[k]).0),
                ),
            rows@.len() == i,
            crate::value::rows_dv(rows@).len() == i,
            forall|k: int|
                0 <= k < i ==> crate::value::rows_dv(rows@)[k] == his_row(
                    datetime_dv((#[trigger] samples@[k]).0),
                    ValueS::Str((samples@[k].1)@),
                ),
            forall|k: int| 0 <= k < i ==> wf_dict(#[trigger] crate::value::rows_dv(rows@)[k]),
        decreases samples@.len() - i,
    {
        let row = his_row_dict(&samples[i].0, Value::Str(samples[i].1.clone()));
        let ghost old_rows = rows@;
        rows.push(row);
        proof {
            crate::value::lemma_rows_dv(rows@);
            crate::value::lemma_rows_dv(old_rows);
            assert forall|k: int|
                0 <= k < i + 1 implies crate::value::rows_dv(rows@)[k] == his_row(
                datetime_dv((#[trigger] samples@[k]).0),
                ValueS::Str((samples@[k].1)@),
            ) && wf_dict(crate::value::rows_dv(rows@)[k]) by {
                if k < i {
                    assert(rows@[k] == old_rows[k]);
                    assert(crate::value::rows_dv(rows@)[k] == crate::value::rows_dv(old_rows)[k]);
                } else {
                    assert(rows@[k] == row);
                }
            }
            assert forall|k: int|
                0 <= k < i + 1 implies wf_dict(#[trigger] crate::value::rows_dv(rows@)[k]) by {
                assert(crate::value::rows_dv(rows@)[k] == his_row(
                    datetime_dv(samples@[k].0),
                    ValueS::Str((samples@[k].1)@),
                ));
            }
        }
        i = i + 1;
    }
    proof {
        let ghost rv = crate::value::rows_dv(rows@);
        assert forall|k: int|
            0 <= k < rv.len() implies ((#[trigger] rv[k]).entries.len() == 2 && rv[k].entries[0].0
            == s_ts() && rv[k].entries[1].0 == crate::hayson::s_val()) by {
            assert(rv[k] == his_row(datetime_dv(samples@[k].0), ValueS::Str((samples@[k].1)@)));
        }
        lemma_sample_rows_keys(rv);
    }
    his_write_core(id, rows)
}

/// Sample rows only carry the `ts` and `val` keys.
proof fn lemma_sample_rows_keys(rv: Seq<DictS>)
    requires
        forall|k: int|
            0 <= k < rv.len() ==> ((#[trigger] rv[k]).entries.len() == 2 && rv[k].entries[0].0
                == s_ts() && rv[k].entries[1].0 == crate::hayson::s_val()),
    ensures
        forall|i: int, k: int|
            0 <= i < rv.len() && 0 <= k < rv[i].entries.len() ==> ((
            #[trigger] rv[i].entries[k]).0 == s_ts() || rv[i].entries[k].0
                == crate::hayson::s_val()),
{
    assert forall|i: int, k: int|
        0 <= i < rv.len() && 0 <= k < rv[i].entries.len() implies ((
    #[trigger] rv[i].entries[k]).0 == s_ts() || rv[i].entries[k].0
        == crate::hayson::s_val()) by {
        assert(rv[i].entries.len() == 2);
        if k == 0 {
            assert(rv[i].entries[0].0 == s_ts());
        } else {
            assert(rv[i].entries[1].0 == crate::hayson::s_val());
        }
    }
}


/// Some row's `id` cell holds a Ref bearing the given identifier.
pub open spec fn row_has_id(rows: Seq<DictS>, id: Seq<char>) -> bool {
    exists|j: int|
        0 <= j < rows.len() && ((#[trigger] dict_get(rows[j], s_id())) matches Some(
            ValueS::Ref { id: id2, dis },
        ) && id2 == id)
}

/// Read-by-ids completeness: the response covers every requested id,
/// or a typed failure names one it does not.
pub fn check_read_by_ids(ids: &Vec<String>, g: &Grid) -> (r: Result<(), ServerError>)
    ensures
        r is Ok <==> (forall|i: int|
            0 <= i < ids@.len() ==> row_has_id(g@.rows, (#[trigger] ids@[i])@)),
{
    let ghost rv = crate::value::rows_dv(g.rows@);
    proof {
        crate::value::lemma_rows_dv(g.rows@);
        reveal_strlit("id");
        assert("id"@ =~= s_id());
    }
    let mut i: usize = 0;
    while i < ids.len()
        invariant
            0 <= i <= ids@.len(),
            rv == crate::value::rows_dv(g.rows@),
            rv == g@.rows,
            rv.len() == g.rows@.len(),
            forall|k: int| 0 <= k < g.rows@.len() ==> rv[k] == crate::value::dict_dv(
                #[trigger] g.rows@[k],
            ),
            "id"@ == s_id(),
            forall|k: int| 0 <= k < i ==> row_has_id(g@.rows, (#[trigger] ids@[k])@),
        decreases ids@.len() - i,
    {
        let mut found = false;
        let mut j: usize = 0;
        while j < g.rows.len()
            invariant
                0 <= j <= g.rows@.len(),
                rv == crate::value::rows_dv(g.rows@),
                rv == g@.rows,
                rv.len() == g.rows@.len(),
                0 <= i < ids@.len(),
                forall|k: int| 0 <= k < g.rows@.len() ==> rv[k] == crate::value::dict_dv(
                    #[trigger] g.rows@[k],
                ),
                "id"@ == s_id(),
                found ==> row_has_id(g@.rows, ids@[i as int]@),
                !found ==> forall|k: int|
                    0 <= k < j ==> !((#[trigger] dict_get(rv[k], s_id())) matches Some(
                        ValueS::Ref { id: id2, dis },
                    ) && id2 == ids@[i as int]@),
            decreases g.rows@.len() - j,
        {
            proof {
                assert(rv[j as int] == crate::value::dict_dv(g.rows@[j as int]));
            }
            match dict_index_of(&g.rows[j], "id") {
                Some(e) => {
                    proof {
                        crate::value::lemma_entries_dv(g.rows@[j as int].entries@);
                        crate::value::lemma_dv_ref(g.rows@[j as int].entries@[e as int].1);
                    }
                    match &g.rows[j].entries[e].1 {
                        Value::Ref { id, dis } => {
                            if crate::codec::skey_is(id, ids[i].as_str()) {
                                proof {
                                    assert((dict_get(rv[j as int], s_id()) matches Some(
                                        ValueS::Ref { id: id2, dis: dis2 },
                                    ) && id2 == ids@[i as int]@));
                                }
                                found = true;
                            }
                        },
                        _ => {},
                    }
                },
                None => {},
            }
            j = j + 1;
        }
        if !found {
            proof {
                assert(!row_has_id(g@.rows, ids@[i as int]@)) by {
                    if row_has_id(g@.rows, ids@[i as int]@) {
                        let w = choose|w: int|
                            0 <= w < g@.rows.len() && ((#[trigger] dict_get(
                                g@.rows[w],
                                s_id(),
                            )) matches Some(ValueS::Ref { id: id2, dis }) && id2
                                == ids@[i as int]@);
                        assert(!((dict_get(rv[w], s_id())) matches Some(
                            ValueS::Ref { id: id2, dis },
                        ) && id2 == ids@[i as int]@));
                        assert(false);
                    }
                }
                assert(!(forall|k: int|
                    0 <= k < ids@.len() ==> row_has_id(g@.rows, (#[trigger] ids@[k])@)));
            }
            return Err(
                ServerError { msg: ids[i].clone() },
            );
        }
        i = i + 1;
    }
    Ok(())
}

} // verus!
