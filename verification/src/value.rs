//! The Haystack value model: scalar kinds, dicts and grids, with their
//! well-formedness invariants and deep (mathematical) views.

use vstd::prelude::*;
use crate::tagname::TagName;
use crate::tagname::is_tag_name;

verus! {

broadcast use vstd::std_specs::vec::group_vec_axioms, vstd::seq::group_seq_axioms;

/// The magnitude of a Haystack number: a signed decimal
/// `(-1)^neg * mag / 10^scale`, or one of the special sentinels.
#[derive(Clone, Copy, PartialEq, Eq, Structural, Debug)]
pub enum NumMag {
    Dec { neg: bool, mag: u64, scale: u32 },
    PosInf,
    NegInf,
    NaN,
}

/// A number with an optional unit string.
pub struct Number {
    pub mag: NumMag,
    pub unit: Option<String>,
}

/// The mathematical view of a `Number`.
pub struct NumberS {
    pub mag: NumMag,
    pub unit: Option<Seq<char>>,
}

/// A calendar date.
#[derive(Clone, Copy, PartialEq, Eq, Structural, Debug)]
pub struct Date {
    pub year: u16,
    pub month: u8,
    pub day: u8,
}

/// A time of day with millisecond precision.
#[derive(Clone, Copy, PartialEq, Eq, Structural, Debug)]
pub struct Time {
    pub hour: u8,
    pub minute: u8,
    pub second: u8,
    pub millis: u16,
}

/// A date and time with a fixed UTC offset and a named timezone.
pub struct DateTime {
    pub date: Date,
    pub time: Time,
    /// Offset from UTC in minutes, east positive.
    pub offset_min: i32,
    /// The Haystack timezone name, such as `New_York`.
    pub tz: String,
}

/// The mathematical view of a `DateTime`.
pub struct DateTimeS {
    pub date: Date,
    pub time: Time,
    pub offset_min: i32,
    pub tz: Seq<char>,
}

/// A geographic coordinate in millionths of a decimal degree.
#[derive(Clone, Copy, PartialEq, Eq, Structural, Debug)]
pub struct Coord {
    pub lat_ud: i64,
    pub lng_ud: i64,
}

/// A Haystack scalar or container value.
pub enum Value {
    Marker,
    Remove,
    Na,
    Bool(bool),
    Num(Number),
    Str(String),
    Ref { id: String, dis: Option<String> },
    Uri(String),
    Date(Date),
    Time(Time),
    DateTime(DateTime),
    Coord(Coord),
    Xstr { typ: String, val: String },
    Symbol(String),
    List(Vec<Value>),
    Dict(Dict),
    Grid(Box<Grid>),
}

/// An ordered mapping of tag names to values; absent tags are simply
/// not present.
pub struct Dict {
    pub entries: Vec<(TagName, Value)>,
}

/// A column definition: a name plus column-level metadata.
pub struct Col {
    pub name: TagName,
    pub meta: Dict,
}

/// The Haystack grid: grid metadata, ordered column definitions and
/// ordered rows of sparse cells.
pub struct Grid {
    pub meta: Dict,
    pub cols: Vec<Col>,
    pub rows: Vec<Dict>,
}

/// The mathematical view of a `Value`.
pub enum ValueS {
    Marker,
    Remove,
    Na,
    Bool(bool),
    Num(NumberS),
    Str(Seq<char>),
    Ref { id: Seq<char>, dis: Option<Seq<char>> },
    Uri(Seq<char>),
    Date(Date),
    Time(Time),
    DateTime(DateTimeS),
    Coord(Coord),
    Xstr { typ: Seq<char>, val: Seq<char> },
    Symbol(Seq<char>),
    List(Seq<ValueS>),
    Dict(DictS),
    Grid(GridS),
}

pub struct DictS {
    pub entries: Seq<(Seq<char>, ValueS)>,
}

pub struct ColS {
    pub name: Seq<char>,
    pub meta: DictS,
}

pub struct GridS {
    pub meta: DictS,
    pub cols: Seq<ColS>,
    pub rows: Seq<DictS>,
}

pub open spec fn number_dv(n: Number) -> NumberS {
    NumberS {
        mag: n.mag,
        unit: match n.unit {
            Some(u) => Some(u@),
            None => None,
        },
    }
}

pub open spec fn datetime_dv(d: DateTime) -> DateTimeS {
    DateTimeS { date: d.date, time: d.time, offset_min: d.offset_min, tz: d.tz@ }
}

/// The deep view of a value: every string becomes a `Seq<char>`,
/// every vector a `Seq`.
pub open spec fn value_dv(v: Value) -> ValueS
    decreases v,
{
    match v {
        Value::Marker => ValueS::Marker,
        Value::Remove => ValueS::Remove,
        Value::Na => ValueS::Na,
        Value::Bool(b) => ValueS::Bool(b),
        Value::Num(n) => ValueS::Num(number_dv(n)),
        Value::Str(s) => ValueS::Str(s@),
        Value::Ref { id, dis } => ValueS::Ref {
            id: id@,
            dis: match dis {
                Some(d) => Some(d@),
                None => None,
            },
        },
        Value::Uri(s) => ValueS::Uri(s@),
        Value::Date(d) => ValueS::Date(d),
        Value::Time(t) => ValueS::Time(t),
        Value::DateTime(dt) => ValueS::DateTime(datetime_dv(dt)),
        Value::Coord(c) => ValueS::Coord(c),
        Value::Xstr { typ, val } => ValueS::Xstr { typ: typ@, val: val@ },
        Value::Symbol(s) => ValueS::Symbol(s@),
        Value::List(items) => ValueS::List(values_dv(items@)),
        Value::Dict(d) => ValueS::Dict(dict_dv(d)),
        Value::Grid(g) => ValueS::Grid(grid_dv(*g)),
    }
}

pub open spec fn values_dv(items: Seq<Value>) -> Seq<ValueS>
    decreases items,
{
    if items.len() == 0 {
        Seq::empty()
    } else {
        values_dv(items.drop_last()).push(value_dv(items.last()))
    }
}

pub open spec fn entries_dv(entries: Seq<(TagName, Value)>) -> Seq<(Seq<char>, ValueS)>
    decreases entries,
{
    if entries.len() == 0 {
        Seq::empty()
    } else {
        entries_dv(entries.drop_last()).push(
            (entries.last().0@, value_dv(entries.last().1)),
        )
    }
}

pub open spec fn dict_dv(d: Dict) -> DictS
    decreases d,
{
    DictS { entries: entries_dv(d.entries@) }
}

pub open spec fn cols_dv(cols: Seq<Col>) -> Seq<ColS>
    decreases cols,
{
    if cols.len() == 0 {
        Seq::empty()
    } else {
        cols_dv(cols.drop_last()).push(
            ColS { name: cols.last().name@, meta: dict_dv(cols.last().meta) },
        )
    }
}

pub open spec fn rows_dv(rows: Seq<Dict>) -> Seq<DictS>
    decreases rows,
{
    if rows.len() == 0 {
        Seq::empty()
    } else {
        rows_dv(rows.drop_last()).push(dict_dv(rows.last()))
    }
}

pub open spec fn grid_dv(g: Grid) -> GridS
    decreases g,
{
    GridS { meta: dict_dv(g.meta), cols: cols_dv(g.cols@), rows: rows_dv(g.rows@) }
}

/// Index characterisation of the sequence views.
pub proof fn lemma_values_dv(items: Seq<Value>)
    ensures
        values_dv(items).len() == items.len(),
        forall|i: int| 0 <= i < items.len() ==> values_dv(items)[i] == value_dv(#[trigger] items[i]),
    decreases items,
{
    if items.len() > 0 {
        lemma_values_dv(items.drop_last());
        assert forall|i: int| 0 <= i < items.len() implies values_dv(items)[i] == value_dv(
            #[trigger] items[i],
        ) by {
            if i < items.len() - 1 {
                assert(items.drop_last()[i] == items[i]);
                assert(values_dv(items)[i] == values_dv(items.drop_last())[i]);
            } else {
                assert(items.last() == items[i]);
            }
        }
    }
}

pub proof fn lemma_entries_dv(entries: Seq<(TagName, Value)>)
    ensures
        entries_dv(entries).len() == entries.len(),
        forall|i: int|
            0 <= i < entries.len() ==> entries_dv(entries)[i] == ((#[trigger] entries[i]).0@,
            value_dv(entries[i].1)),
    decreases entries,
{
    if entries.len() > 0 {
        lemma_entries_dv(entries.drop_last());
        assert forall|i: int|
            0 <= i < entries.len() implies entries_dv(entries)[i] == ((#[trigger] entries[i]).0@,
        value_dv(entries[i].1)) by {
            if i < entries.len() - 1 {
                assert(entries.drop_last()[i] == entries[i]);
                assert(entries_dv(entries)[i] == entries_dv(entries.drop_last())[i]);
            } else {
                assert(entries.last() == entries[i]);
            }
        }
    }
}

pub proof fn lemma_cols_dv(cols: Seq<Col>)
    ensures
        cols_dv(cols).len() == cols.len(),
        forall|i: int|
            0 <= i < cols.len() ==> cols_dv(cols)[i] == (ColS {
                name: (#[trigger] cols[i]).name@,
                meta: dict_dv(cols[i].meta),
            }),
    decreases cols,
{
    if cols.len() > 0 {
        lemma_cols_dv(cols.drop_last());
        assert forall|i: int|
            0 <= i < cols.len() implies cols_dv(cols)[i] == (ColS {
                name: (#[trigger] cols[i]).name@,
                meta: dict_dv(cols[i].meta),
            }) by {
            if i < cols.len() - 1 {
                assert(cols.drop_last()[i] == cols[i]);
                assert(cols_dv(cols)[i] == cols_dv(cols.drop_last())[i]);
            } else {
                assert(cols.last() == cols[i]);
            }
        }
    }
}

pub proof fn lemma_rows_dv(rows: Seq<Dict>)
    ensures
        rows_dv(rows).len() == rows.len(),
        forall|i: int| 0 <= i < rows.len() ==> rows_dv(rows)[i] == dict_dv(#[trigger] rows[i]),
    decreases rows,
{
    if rows.len() > 0 {
        lemma_rows_dv(rows.drop_last());
        assert forall|i: int| 0 <= i < rows.len() implies rows_dv(rows)[i] == dict_dv(
            #[trigger] rows[i],
        ) by {
            if i < rows.len() - 1 {
                assert(rows.drop_last()[i] == rows[i]);
                assert(rows_dv(rows)[i] == rows_dv(rows.drop_last())[i]);
            } else {
                assert(rows.last() == rows[i]);
            }
        }
    }
}

impl View for Value {
    type V = ValueS;

    open spec fn view(&self) -> ValueS {
        value_dv(*self)
    }
}

impl View for Dict {
    type V = DictS;

    open spec fn view(&self) -> DictS {
        dict_dv(*self)
    }
}

impl View for Grid {
    type V = GridS;

    open spec fn view(&self) -> GridS {
        grid_dv(*self)
    }
}

/// A character allowed in a `Ref` identifier.
pub open spec fn is_ref_char(c: char) -> bool {
    ('a' <= c && c <= 'z') || ('A' <= c && c <= 'Z') || ('0' <= c && c <= '9') || c == '_' || c
        == ':' || c == '-' || c == '.' || c == '~'
}

/// The `Ref` identifier grammar: non-empty, reference characters only.
pub open spec fn is_ref_id(s: Seq<char>) -> bool {
    s.len() > 0 && forall|i: int| 0 <= i < s.len() ==> is_ref_char(#[trigger] s[i])
}

/// The Xstr type-name grammar: an uppercase letter followed by
/// letters, digits or underscores.
pub open spec fn is_xstr_type(s: Seq<char>) -> bool {
    &&& s.len() > 0
    &&& 'A' <= s[0] && s[0] <= 'Z'
    &&& forall|i: int| 0 <= i < s.len() ==> crate::tagname::is_tag_char(#[trigger] s[i])
}

pub open spec fn days_in_month(year: u16, month: u8) -> int {
    if month == 2 {
        if (year % 4 == 0 && year % 100 != 0) || year % 400 == 0 {
            29
        } else {
            28
        }
    } else if month == 4 || month == 6 || month == 9 || month == 11 {
        30
    } else {
        31
    }
}

pub open spec fn wf_date(d: Date) -> bool {
    &&& 1 <= d.year <= 9999
    &&& 1 <= d.month <= 12
    &&& 1 <= d.day <= days_in_month(d.year, d.month)
}

pub open spec fn wf_time(t: Time) -> bool {
    t.hour < 24 && t.minute < 60 && t.second < 60 && t.millis < 1000
}

pub open spec fn wf_num(n: NumberS) -> bool {
    &&& match n.mag {
        NumMag::Dec { neg, mag, scale } => (neg ==> mag != 0) && scale <= 20,
        _ => n.unit is None,
    }
    &&& match n.unit {
        Some(u) => u.len() > 0,
        None => true,
    }
}

pub open spec fn wf_datetime(d: DateTimeS) -> bool {
    &&& wf_date(d.date)
    &&& wf_time(d.time)
    &&& -18 * 60 <= d.offset_min <= 18 * 60
    &&& d.tz.len() > 0
}

pub open spec fn wf_coord(c: Coord) -> bool {
    -90000000 <= c.lat_ud <= 90000000 && -180000000 <= c.lng_ud <= 180000000
}

/// Well-formedness of a value: identifier grammars hold, numbers are
/// canonical, dates and times are in range, dict keys are distinct
/// tag names, and grid rows only use defined columns.
pub open spec fn wf_value(v: ValueS) -> bool
    decreases v,
{
    match v {
        ValueS::Marker => true,
        ValueS::Remove => true,
        ValueS::Na => true,
        ValueS::Bool(_) => true,
        ValueS::Num(n) => wf_num(n),
        ValueS::Str(_) => true,
        ValueS::Ref { id, dis } => is_ref_id(id),
        ValueS::Uri(_) => true,
        ValueS::Date(d) => wf_date(d),
        ValueS::Time(t) => wf_time(t),
        ValueS::DateTime(dt) => wf_datetime(dt),
        ValueS::Coord(c) => wf_coord(c),
        ValueS::Xstr { typ, val } => is_xstr_type(typ),
        ValueS::Symbol(s) => is_ref_id(s),
        ValueS::List(items) => forall|i: int|
            0 <= i < items.len() ==> wf_value(#[trigger] items[i]),
        ValueS::Dict(d) => wf_dict(d),
        ValueS::Grid(g) => wf_grid(g),
    }
}

pub open spec fn wf_dict(d: DictS) -> bool
    decreases d,
{
    &&& forall|i: int| 0 <= i < d.entries.len() ==> is_tag_name((#[trigger] d.entries[i]).0)
    &&& forall|i: int, j: int|
        0 <= i < j < d.entries.len() ==> (#[trigger] d.entries[i]).0 != (#[trigger] d.entries[j]).0
    &&& forall|i: int| 0 <= i < d.entries.len() ==> wf_value((#[trigger] d.entries[i]).1)
}

pub open spec fn grid_has_col(g: GridS, name: Seq<char>) -> bool {
    exists|i: int| 0 <= i < g.cols.len() && (#[trigger] g.cols[i].name) == name
}

pub open spec fn wf_grid(g: GridS) -> bool
    decreases g,
{
    &&& wf_dict(g.meta)
    &&& forall|i: int| 0 <= i < g.cols.len() ==> is_tag_name(#[trigger] g.cols[i].name)
    &&& forall|i: int, j: int|
        0 <= i < j < g.cols.len() ==> (#[trigger] g.cols[i].name) != (#[trigger] g.cols[j].name)
    &&& forall|i: int| 0 <= i < g.cols.len() ==> wf_dict(#[trigger] g.cols[i].meta)
    &&& forall|i: int| 0 <= i < g.rows.len() ==> wf_dict(#[trigger] g.rows[i])
    &&& forall|i: int, k: int|
        0 <= i < g.rows.len() && 0 <= k < g.rows[i].entries.len() ==> grid_has_col(
            g,
            #[trigger] g.rows[i].entries[k].0,
        )
}

/// Look up a key in a dict view: the value of the first entry whose
/// name matches.
pub open spec fn dict_get(d: DictS, name: Seq<char>) -> Option<ValueS>
    decreases d.entries.len(),
{
    if d.entries.len() == 0 {
        None
    } else if d.entries[0].0 == name {
        Some(d.entries[0].1)
    } else {
        dict_get(DictS { entries: d.entries.drop_first() }, name)
    }
}

impl Dict {
    /// An empty dict.
    pub fn new() -> (r: Dict)
        ensures
            r@.entries.len() == 0,
            wf_dict(r@),
    {
        let d = Dict { entries: Vec::new() };
        proof {
            assert(d@.entries =~= Seq::<(Seq<char>, ValueS)>::empty());
        }
        d
    }
}


impl Clone for DateTime {
    fn clone(&self) -> (r: Self)
        ensures
            datetime_dv(r) == datetime_dv(*self),
    {
        DateTime {
            date: self.date,
            time: self.time,
            offset_min: self.offset_min,
            tz: self.tz.clone(),
        }
    }
}

impl Clone for Number {
    fn clone(&self) -> (r: Self)
        ensures
            number_dv(r) == number_dv(*self),
    {
        Number {
            mag: self.mag,
            unit: match &self.unit {
                Some(u) => Some(u.clone()),
                None => None,
            },
        }
    }
}

/// Looking a key up skips entries that do not bear it.
pub proof fn lemma_dict_get_skip(entries: Seq<(Seq<char>, ValueS)>, key: Seq<char>, i: int)
    requires
        0 <= i <= entries.len(),
        forall|k: int| 0 <= k < i ==> (#[trigger] entries[k]).0 != key,
    ensures
        dict_get(DictS { entries }, key) == dict_get(DictS { entries: entries.skip(i) }, key),
    decreases i,
{
    if i > 0 {
        assert(entries[0].0 != key);
        assert(dict_get(DictS { entries }, key) == dict_get(
            DictS { entries: entries.drop_first() },
            key,
        ));
        let rest = entries.drop_first();
        assert forall|k: int| 0 <= k < i - 1 implies (#[trigger] rest[k]).0 != key by {
            assert(rest[k] == entries[k + 1]);
        }
        lemma_dict_get_skip(rest, key, i - 1);
        assert(rest.skip(i - 1) =~= entries.skip(i));
    } else {
        assert(entries.skip(0) =~= entries);
    }
}


/// Only the marker maps to the marker view.
pub proof fn lemma_dv_marker(v: Value)
    ensures
        (value_dv(v) == ValueS::Marker) <==> (v == Value::Marker),
{
    match v {
        Value::Marker => {},
        Value::Remove => {},
        Value::Na => {},
        Value::Bool(_) => {},
        Value::Num(_) => {},
        Value::Str(_) => {},
        Value::Ref { .. } => {},
        Value::Uri(_) => {},
        Value::Date(_) => {},
        Value::Time(_) => {},
        Value::DateTime(_) => {},
        Value::Coord(_) => {},
        Value::Xstr { .. } => {},
        Value::Symbol(_) => {},
        Value::List(_) => {},
        Value::Dict(_) => {},
        Value::Grid(_) => {},
    }
}

/// Only refs map to ref views.
pub proof fn lemma_dv_ref(v: Value)
    ensures
        (value_dv(v) is Ref) <==> (v is Ref),
{
    match v {
        Value::Marker => {},
        Value::Remove => {},
        Value::Na => {},
        Value::Bool(_) => {},
        Value::Num(_) => {},
        Value::Str(_) => {},
        Value::Ref { .. } => {},
        Value::Uri(_) => {},
        Value::Date(_) => {},
        Value::Time(_) => {},
        Value::DateTime(_) => {},
        Value::Coord(_) => {},
        Value::Xstr { .. } => {},
        Value::Symbol(_) => {},
        Value::List(_) => {},
        Value::Dict(_) => {},
        Value::Grid(_) => {},
    }
}

/// Only strings map to string views.
pub proof fn lemma_dv_str(v: Value)
    ensures
        (value_dv(v) is Str) <==> (v is Str),
{
    match v {
        Value::Marker => {},
        Value::Remove => {},
        Value::Na => {},
        Value::Bool(_) => {},
        Value::Num(_) => {},
        Value::Str(_) => {},
        Value::Ref { .. } => {},
        Value::Uri(_) => {},
        Value::Date(_) => {},
        Value::Time(_) => {},
        Value::DateTime(_) => {},
        Value::Coord(_) => {},
        Value::Xstr { .. } => {},
        Value::Symbol(_) => {},
        Value::List(_) => {},
        Value::Dict(_) => {},
        Value::Grid(_) => {},
    }
}

} // verus!
