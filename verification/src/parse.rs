//! A strict parser for the compact JSON text the codec emits and the
//! server sends: no whitespace between tokens, no exponent notation,
//! no `\u` escapes.  The executable parser returns exactly what the
//! specification-level parser denotes.

use vstd::prelude::*;
use crate::json::{Json, JsonS};
use crate::strutil::{digits_val, is_digit, char_to_digit};

verus! {

broadcast use vstd::std_specs::vec::group_vec_axioms, vstd::seq::group_seq_axioms;

/// The number of leading decimal digits.
pub open spec fn p_digits(s: Seq<char>) -> nat
    decreases s.len(),
{
    if s.len() > 0 && is_digit(s[0]) {
        1 + p_digits(s.skip(1))
    } else {
        0
    }
}

/// Parse a number literal: optional sign, integer digits without a
/// superfluous leading zero, optional fraction.  Returns sign,
/// magnitude digits as a value, fraction length, characters consumed.
pub open spec fn p_num(s: Seq<char>) -> Option<(bool, u64, u32, nat)> {
    let neg = s.len() > 0 && s[0] == '-';
    let t = if neg {
        s.skip(1)
    } else {
        s
    };
    let nd = p_digits(t);
    if nd == 0 {
        None
    } else if t[0] == '0' && nd > 1 {
        None
    } else {
        let frac = nd < t.len() && t[nd as int] == '.';
        let fd = if frac {
            p_digits(t.skip(nd as int + 1))
        } else {
            0
        };
        if frac && fd == 0 {
            None
        } else {
            let ds = if frac {
                t.take(nd as int) + t.skip(nd as int + 1).take(fd as int)
            } else {
                t.take(nd as int)
            };
            let mag = digits_val(ds);
            if mag > u64::MAX || fd > 20 {
                None
            } else {
                let used = (if neg {
                    1nat
                } else {
                    0nat
                }) + nd + (if frac {
                    1 + fd
                } else {
                    0
                });
                Some((neg, mag as u64, fd as u32, used))
            }
        }
    }
}

/// The character an escape letter stands for, if the letter is
/// accepted.
pub open spec fn unescape(e: char) -> Option<char> {
    if e == '"' {
        Some('"')
    } else if e == '\\' {
        Some('\\')
    } else if e == '/' {
        Some('/')
    } else if e == 'n' {
        Some('\n')
    } else if e == 'r' {
        Some('\r')
    } else if e == 't' {
        Some('\t')
    } else if e == 'b' {
        Some('\u{0008}')
    } else if e == 'f' {
        Some('\u{000C}')
    } else {
        None
    }
}

/// Parse the body of a string literal after the opening quote, up to
/// and including the closing quote.
pub open spec fn p_strbody(s: Seq<char>) -> Option<(Seq<char>, nat)>
    decreases s.len(),
{
    if s.len() == 0 {
        None
    } else if s[0] == '"' {
        Some((Seq::empty(), 1))
    } else if s[0] == '\\' {
        if s.len() < 2 {
            None
        } else {
            match unescape(s[1]) {
                None => None,
                Some(c) => match p_strbody(s.skip(2)) {
                    None => None,
                    Some((r, n)) => Some((seq![c] + r, 2 + n)),
                },
            }
        }
    } else if (s[0] as u32) < 32 {
        None
    } else {
        match p_strbody(s.skip(1)) {
            None => None,
            Some((r, n)) => Some((seq![s[0]] + r, 1 + n)),
        }
    }
}

/// Parse one JSON value.
pub open spec fn p_value(s: Seq<char>) -> Option<(JsonS, nat)>
    decreases s.len(), 1int,
{
    if s.len() == 0 {
        None
    } else if s[0] == 'n' {
        if s.len() >= 4 && s[1] == 'u' && s[2] == 'l' && s[3] == 'l' {
            Some((JsonS::Null, 4))
        } else {
            None
        }
    } else if s[0] == 't' {
        if s.len() >= 4 && s[1] == 'r' && s[2] == 'u' && s[3] == 'e' {
            Some((JsonS::Bool(true), 4))
        } else {
            None
        }
    } else if s[0] == 'f' {
        if s.len() >= 5 && s[1] == 'a' && s[2] == 'l' && s[3] == 's' && s[4] == 'e' {
            Some((JsonS::Bool(false), 5))
        } else {
            None
        }
    } else if s[0] == '"' {
        match p_strbody(s.skip(1)) {
            None => None,
            Some((r, n)) => Some((JsonS::Str(r), 1 + n)),
        }
    } else if s[0] == '[' {
        if s.len() >= 2 && s[1] == ']' {
            Some((JsonS::Arr(Seq::empty()), 2))
        } else {
            match p_arr_rest(s.skip(1)) {
                None => None,
                Some((vs, n)) => Some((JsonS::Arr(vs), 1 + n)),
            }
        }
    } else if s[0] == '{' {
        if s.len() >= 2 && s[1] == '}' {
            Some((JsonS::Obj(Seq::empty()), 2))
        } else {
            match p_members_rest(s.skip(1)) {
                None => None,
                Some((ms, n)) => Some((JsonS::Obj(ms), 1 + n)),
            }
        }
    } else if s[0] == '-' || is_digit(s[0]) {
        match p_num(s) {
            None => None,
            Some((neg, mag, scale, n)) => Some((JsonS::Num { neg, mag, scale }, n)),
        }
    } else {
        None
    }
}

/// Parse the elements of a non-empty array, from the first element up
/// to and including the closing bracket.
pub open spec fn p_arr_rest(s: Seq<char>) -> Option<(Seq<JsonS>, nat)>
    decreases s.len(), 2int,
{
    match p_value(s) {
        None => None,
        Some((v, n)) => if n < s.len() && s[n as int] == ',' {
            match p_arr_rest(s.skip(n as int + 1)) {
                None => None,
                Some((vs, m)) => Some((seq![v] + vs, n + 1 + m)),
            }
        } else if n < s.len() && s[n as int] == ']' {
            Some((seq![v], n + 1))
        } else {
            None
        },
    }
}

/// Parse the members of a non-empty object, from the first key up to
/// and including the closing brace.
pub open spec fn p_members_rest(s: Seq<char>) -> Option<(Seq<(Seq<char>, JsonS)>, nat)>
    decreases s.len(), 2int,
{
    if s.len() > 0 && s[0] == '"' {
        match p_strbody(s.skip(1)) {
            None => None,
            Some((k, n)) => {
                let j = 1 + n;
                if j < s.len() && s[j as int] == ':' {
                    match p_value(s.skip(j as int + 1)) {
                        None => None,
                        Some((v, m)) => {
                            let e = j + 1 + m;
                            if e < s.len() && s[e as int] == ',' {
                                match p_members_rest(s.skip(e as int + 1)) {
                                    None => None,
                                    Some((ms, q)) => Some((seq![(k, v)] + ms, e + 1 + q)),
                                }
                            } else if e < s.len() && s[e as int] == '}' {
                                Some((seq![(k, v)], e + 1))
                            } else {
                                None
                            }
                        },
                    }
                } else {
                    None
                }
            },
        }
    } else {
        None
    }
}

/// A whole document: one value covering the entire text.
pub open spec fn p_doc(s: Seq<char>) -> Option<JsonS> {
    match p_value(s) {
        Some((j, n)) => if n == s.len() {
            Some(j)
        } else {
            None
        },
        None => None,
    }
}


/// `digits_val` over a concatenation.
pub proof fn lemma_digits_val_concat(a: Seq<char>, b: Seq<char>)
    ensures
        digits_val(a + b) == digits_val(a) * crate::strutil::pow10(b.len()) + digits_val(b),
    decreases b.len(),
{
    if b.len() == 0 {
        assert(a + b =~= a);
        assert(crate::strutil::pow10(0) == 1);
    } else {
        lemma_digits_val_concat(a, b.drop_last());
        assert((a + b).drop_last() =~= a + b.drop_last());
        assert((a + b).last() == b.last());
        let va = digits_val(a);
        let p = crate::strutil::pow10((b.len() - 1) as nat);
        assert(crate::strutil::pow10(b.len()) == 10 * p);
        assert((va * p) * 10 == va * (10 * p)) by (nonlinear_arith);
    }
}

/// Count the leading digits.
pub fn e_digits(cs: &Vec<char>, i: usize) -> (n: usize)
    requires
        i <= cs@.len(),
    ensures
        n == p_digits(cs@.skip(i as int)),
        i + n <= cs@.len(),
    decreases cs@.len() - i,
{
    if i < cs.len() && '0' <= cs[i] && cs[i] <= '9' {
        proof {
            assert(cs@.skip(i as int)[0] == cs@[i as int]);
            assert(cs@.skip(i as int).skip(1) =~= cs@.skip(i + 1));
        }
        let m = e_digits(cs, i + 1);
        m + 1
    } else {
        proof {
            if i < cs.len() {
                assert(cs@.skip(i as int)[0] == cs@[i as int]);
            }
        }
        0
    }
}

/// Accumulate the value of the digit characters in `[from, to)` onto
/// `acc`, reporting overflow past `u64::MAX`.
#[verifier::rlimit(100)]
pub fn e_digits_val(cs: &Vec<char>, from: usize, to: usize, pre: Ghost<Seq<char>>, acc: u64) -> (r:
    Option<u64>)
    requires
        from <= to <= cs@.len(),
        forall|k: int| from <= k < to ==> is_digit(#[trigger] cs@[k]),
        forall|k: int| 0 <= k < pre@.len() ==> is_digit(#[trigger] pre@[k]),
        acc == digits_val(pre@),
    ensures
        ({
            let ds = pre@ + cs@.subrange(from as int, to as int);
            match r {
                Some(v) => v == digits_val(ds) && digits_val(ds) <= u64::MAX,
                None => digits_val(ds) > u64::MAX,
            }
        }),
    decreases to - from,
{
    if from == to {
        proof {
            assert(pre@ + cs@.subrange(from as int, to as int) =~= pre@);
        }
        Some(acc)
    } else {
        let c = cs[from];
        let d = char_to_digit(c);
        let ghost ds_full = pre@ + cs@.subrange(from as int, to as int);
        let ghost pre1 = pre@.push(c);
        proof {
            crate::strutil::lemma_digits_val_push(pre@, c);
            assert(pre1 =~= pre@ + cs@.subrange(from as int, from + 1));
            assert(forall|k: int| 0 <= k < pre1.len() ==> is_digit(#[trigger] pre1[k]));
        }
        if acc > (u64::MAX - d as u64) / 10 {
            proof {
                let q = (u64::MAX - d as u64) / 10;
                vstd::arithmetic::div_mod::lemma_fundamental_div_mod(
                    (u64::MAX - d as u64) as int,
                    10,
                );
                assert(acc as int * 10 >= (q + 1) * 10) by (nonlinear_arith)
                    requires
                        acc as int >= q + 1,
                ;
                assert(digits_val(pre1) > u64::MAX);
                // more digits only grow the value
                assert(ds_full =~= pre1 + cs@.subrange(from + 1, to as int));
                lemma_digits_val_concat(pre1, cs@.subrange(from + 1, to as int));
                let p = crate::strutil::pow10(cs@.subrange(from + 1, to as int).len());
                crate::strutil::lemma_pow10_pos(cs@.subrange(from + 1, to as int).len());
                assert(digits_val(pre1) * p >= digits_val(pre1)) by (nonlinear_arith)
                    requires
                        p >= 1,
                        digits_val(pre1) >= 0,
                ;
            }
            None
        } else {
            proof {
                let q = (u64::MAX - d as u64) / 10;
                vstd::arithmetic::div_mod::lemma_fundamental_div_mod(
                    (u64::MAX - d as u64) as int,
                    10,
                );
                assert(acc as int * 10 <= q * 10) by (nonlinear_arith)
                    requires
                        acc as int <= q,
                ;
            }
            let res = e_digits_val(cs, from + 1, to, Ghost(pre1), acc * 10 + d as u64);
            proof {
                assert(pre1 + cs@.subrange(from + 1, to as int) =~= pre@ + cs@.subrange(
                    from as int,
                    to as int,
                ));
            }
            res
        }
    }
}

/// Parse a number literal.
#[verifier::rlimit(100)]
pub fn e_num(cs: &Vec<char>, i: usize) -> (r: Option<(bool, u64, u32, usize)>)
    requires
        i <= cs@.len(),
    ensures
        ({
            let sp = p_num(cs@.skip(i as int));
            match r {
                Some(q) => sp == Some((q.0, q.1, q.2, (q.3 - i) as nat)) && i < q.3 <= cs@.len(),
                None => sp is None,
            }
        }),
{
    let ghost s0 = cs@.skip(i as int);
    let neg = i < cs.len() && cs[i] == '-';
    proof {
        if i < cs.len() {
            assert(s0[0] == cs@[i as int]);
        }
    }
    let j = if neg {
        i + 1
    } else {
        i
    };
    let ghost t = if neg {
        s0.skip(1)
    } else {
        s0
    };
    proof {
        assert(t =~= cs@.skip(j as int));
    }
    let nd = e_digits(cs, j);
    if nd == 0 {
        return None;
    }
    proof {
        assert(t[0] == cs@[j as int]);
        assert forall|k: int| j <= k < j + nd implies is_digit(#[trigger] cs@[k]) by {
            lemma_p_digits_range(t, k - j);
            assert(t[k - j] == cs@[k]);
        }
    }
    if cs[j] == '0' && nd > 1 {
        return None;
    }
    let frac = j + nd < cs.len() && cs[j + nd] == '.';
    proof {
        if j + nd < cs.len() {
            assert(t[nd as int] == cs@[(j + nd) as int]);
        }
    }
    let fd = if frac {
        e_digits(cs, j + nd + 1)
    } else {
        0
    };
    proof {
        if frac {
            assert(t.skip(nd as int + 1) =~= cs@.skip((j + nd + 1) as int));
            assert forall|k: int| j + nd + 1 <= k < j + nd + 1 + fd implies is_digit(
                #[trigger] cs@[k],
            ) by {
                lemma_p_digits_range(t.skip(nd as int + 1), k - (j + nd + 1));
                assert(t.skip(nd as int + 1)[k - (j + nd + 1)] == cs@[k]);
            }
        }
    }
    if frac && fd == 0 {
        return None;
    }
    if fd > 20 {
        proof {
            let ds = t.take(nd as int) + t.skip(nd as int + 1).take(fd as int);
            assert(p_num(s0) is None);
        }
        return None;
    }
    let ghost ds = if frac {
        t.take(nd as int) + t.skip(nd as int + 1).take(fd as int)
    } else {
        t.take(nd as int)
    };
    let intpart = e_digits_val(cs, j, j + nd, Ghost(Seq::empty()), 0);
    proof {
        assert(Seq::<char>::empty() + cs@.subrange(j as int, (j + nd) as int) =~= cs@.subrange(
            j as int,
            (j + nd) as int,
        ));
        assert(cs@.subrange(j as int, (j + nd) as int) =~= t.take(nd as int));
    }
    match intpart {
        None => {
            proof {
                if frac {
                    lemma_digits_val_concat(t.take(nd as int), t.skip(nd as int + 1).take(fd as int));
                    let p = crate::strutil::pow10(fd as nat);
                    crate::strutil::lemma_pow10_pos(fd as nat);
                    assert(t.skip(nd as int + 1).take(fd as int).len() == fd);
                    assert(digits_val(t.take(nd as int)) * p >= digits_val(t.take(nd as int)))
                        by (nonlinear_arith)
                        requires
                            p >= 1,
                            digits_val(t.take(nd as int)) >= 0,
                    ;
                }
            }
            None
        },
        Some(vi) => {
            if frac {
                let full = e_digits_val(
                    cs,
                    j + nd + 1,
                    j + nd + 1 + fd,
                    Ghost(t.take(nd as int)),
                    vi,
                );
                proof {
                    assert(cs@.subrange((j + nd + 1) as int, (j + nd + 1 + fd) as int) =~= t.skip(
                        nd as int + 1,
                    ).take(fd as int));
                    assert(t.take(nd as int) + cs@.subrange(
                        (j + nd + 1) as int,
                        (j + nd + 1 + fd) as int,
                    ) =~= ds);
                }
                match full {
                    None => None,
                    Some(v) => Some((neg, v, fd as u32, j + nd + 1 + fd)),
                }
            } else {
                Some((neg, vi, 0, j + nd))
            }
        },
    }
}

/// Every position below the digit count holds a digit.
pub proof fn lemma_p_digits_range(s: Seq<char>, k: int)
    requires
        0 <= k < p_digits(s),
    ensures
        p_digits(s) <= s.len(),
        is_digit(s[k]),
    decreases s.len(),
{
    lemma_p_digits_len(s);
    if s.len() > 0 && is_digit(s[0]) {
        if k > 0 {
            lemma_p_digits_range(s.skip(1), k - 1);
            assert(s.skip(1)[k - 1] == s[k]);
        }
    }
}

pub proof fn lemma_p_digits_len(s: Seq<char>)
    ensures
        p_digits(s) <= s.len(),
    decreases s.len(),
{
    if s.len() > 0 && is_digit(s[0]) {
        lemma_p_digits_len(s.skip(1));
    }
}


/// Parse a string body.
pub fn e_strbody(cs: &Vec<char>, i: usize) -> (r: Option<(Vec<char>, usize)>)
    requires
        i <= cs@.len(),
    ensures
        ({
            let sp = p_strbody(cs@.skip(i as int));
            match r {
                Some(q) => sp == Some((q.0@, (q.1 - i) as nat)) && i < q.1 <= cs@.len(),
                None => sp is None,
            }
        }),
    decreases cs@.len() - i,
{
    let ghost s0 = cs@.skip(i as int);
    if i >= cs.len() {
        return None;
    }
    let c = cs[i];
    proof {
        assert(s0[0] == cs@[i as int]);
    }
    if c == '"' {
        let v: Vec<char> = Vec::new();
        proof {
            assert(v@ =~= Seq::<char>::empty());
        }
        Some((v, i + 1))
    } else if c == '\\' {
        if i + 1 >= cs.len() {
            return None;
        }
        let e = cs[i + 1];
        proof {
            assert(s0[1] == cs@[i + 1]);
        }
        let u: char = if e == '"' {
            '"'
        } else if e == '\\' {
            '\\'
        } else if e == '/' {
            '/'
        } else if e == 'n' {
            '\n'
        } else if e == 'r' {
            '\r'
        } else if e == 't' {
            '\t'
        } else if e == 'b' {
            '\u{0008}'
        } else if e == 'f' {
            '\u{000C}'
        } else {
            return None;
        };
        proof {
            assert(unescape(e) == Some(u));
            assert(s0.skip(2) =~= cs@.skip(i + 2));
        }
        match e_strbody(cs, i + 2) {
            None => None,
            Some((mut v, k)) => {
                let ghost vv = v@;
                v.insert(0, u);
                proof {
                    assert(v@ =~= seq![u] + vv);
                    assert(p_strbody(s0.skip(2)) == Some((vv, (k - (i + 2)) as nat)));
                    assert(p_strbody(s0) == Some((seq![u] + vv, (k - i) as nat)));
                }
                Some((v, k))
            },
        }
    } else if (c as u32) < 32 {
        None
    } else {
        proof {
            assert(s0.skip(1) =~= cs@.skip(i + 1));
        }
        match e_strbody(cs, i + 1) {
            None => None,
            Some((mut v, k)) => {
                let ghost vv = v@;
                v.insert(0, c);
                proof {
                    assert(v@ =~= seq![c] + vv);
                    assert(p_strbody(s0.skip(1)) == Some((vv, (k - (i + 1)) as nat)));
                    assert(p_strbody(s0) == Some((seq![c] + vv, (k - i) as nat)));
                }
                Some((v, k))
            },
        }
    }
}

/// Parse one JSON value.
#[verifier::rlimit(50)]
pub fn e_value(cs: &Vec<char>, i: usize) -> (r: Option<(Json, usize)>)
    requires
        i <= cs@.len(),
    ensures
        ({
            let sp = p_value(cs@.skip(i as int));
            match r {
                Some(q) => sp matches Some(w) && q.0@ == w.0 && q.1 - i == w.1 && i < q.1
                    <= cs@.len(),
                None => sp is None,
            }
        }),
    decreases cs@.len() - i, 1int,
{
    let ghost s0 = cs@.skip(i as int);
    if i >= cs.len() {
        return None;
    }
    let c = cs[i];
    proof {
        assert(s0[0] == cs@[i as int]);
        assert(forall|k: int| 0 <= k < s0.len() ==> #[trigger] s0[k] == cs@[i + k]);
    }
    if c == 'n' {
        if cs.len() - i >= 4 && cs[i + 1] == 'u' && cs[i + 2] == 'l' && cs[i + 3] == 'l' {
            Some((Json::Null, i + 4))
        } else {
            None
        }
    } else if c == 't' {
        if cs.len() - i >= 4 && cs[i + 1] == 'r' && cs[i + 2] == 'u' && cs[i + 3] == 'e' {
            Some((Json::Bool(true), i + 4))
        } else {
            None
        }
    } else if c == 'f' {
        if cs.len() - i >= 5 && cs[i + 1] == 'a' && cs[i + 2] == 'l' && cs[i + 3] == 's' && cs[i
            + 4] == 'e' {
            Some((Json::Bool(false), i + 5))
        } else {
            None
        }
    } else if c == '"' {
        proof {
            assert(s0.skip(1) =~= cs@.skip(i + 1));
        }
        match e_strbody(cs, i + 1) {
            None => None,
            Some((v, k)) => Some((Json::Str(crate::strutil::chars_to_string(&v)), k)),
        }
    } else if c == '[' {
        if i + 1 < cs.len() && cs[i + 1] == ']' {
            let v: Vec<Json> = Vec::new();
            proof {
                assert(crate::json::jsons_dv(v@) =~= Seq::<JsonS>::empty());
            }
            Some((Json::Arr(v), i + 2))
        } else {
            proof {
                assert(s0.skip(1) =~= cs@.skip(i + 1));
                if s0.len() >= 2 {
                    assert(s0[1] == cs@[i + 1]);
                }
            }
            match e_arr_rest(cs, i + 1) {
                None => None,
                Some((vs, k)) => Some((Json::Arr(vs), k)),
            }
        }
    } else if c == '{' {
        if i + 1 < cs.len() && cs[i + 1] == '}' {
            let v: Vec<(String, Json)> = Vec::new();
            proof {
                assert(crate::json::jmembers_dv(v@) =~= Seq::<(Seq<char>, JsonS)>::empty());
            }
            Some((Json::Obj(v), i + 2))
        } else {
            proof {
                assert(s0.skip(1) =~= cs@.skip(i + 1));
                if s0.len() >= 2 {
                    assert(s0[1] == cs@[i + 1]);
                }
            }
            match e_members_rest(cs, i + 1) {
                None => None,
                Some((ms, k)) => Some((Json::Obj(ms), k)),
            }
        }
    } else if c == '-' || ('0' <= c && c <= '9') {
        match e_num(cs, i) {
            None => None,
            Some((neg, mag, scale, k)) => Some((Json::Num { neg, mag, scale }, k)),
        }
    } else {
        None
    }
}

/// Parse the elements of a non-empty array.
#[verifier::rlimit(50)]
pub fn e_arr_rest(cs: &Vec<char>, i: usize) -> (r: Option<(Vec<Json>, usize)>)
    requires
        i <= cs@.len(),
    ensures
        ({
            let sp = p_arr_rest(cs@.skip(i as int));
            match r {
                Some(q) => sp matches Some(w) && crate::json::jsons_dv(q.0@) == w.0 && q.1 - i
                    == w.1 && i < q.1 <= cs@.len(),
                None => sp is None,
            }
        }),
    decreases cs@.len() - i, 2int,
{
    let ghost s0 = cs@.skip(i as int);
    match e_value(cs, i) {
        None => None,
        Some((v, n)) => {
            proof {
                if n < cs.len() {
                    assert(s0[n - i] == cs@[n as int]);
                }
            }
            if n < cs.len() && cs[n] == ',' {
                proof {
                    assert(s0.skip(n - i + 1) =~= cs@.skip(n + 1));
                }
                match e_arr_rest(cs, n + 1) {
                    None => None,
                    Some((mut vs, m)) => {
                        let ghost tail = vs@;
                        vs.insert(0, v);
                        proof {
                            assert(vs@ =~= seq![v] + tail);
                            assert(vs@[0] == v);
                            assert(vs@.skip(1) =~= tail);
                            lemma_jsons_dv_cons(vs@);
                        }
                        Some((vs, m))
                    },
                }
            } else if n < cs.len() && cs[n] == ']' {
                let mut vs: Vec<Json> = Vec::new();
                vs.push(v);
                proof {
                    assert(vs@.drop_last() =~= Seq::<Json>::empty());
                    assert(crate::json::jsons_dv(Seq::<Json>::empty())
                        =~= Seq::<JsonS>::empty());
                    assert(vs@.last() == v);
                    assert(crate::json::jsons_dv(vs@) =~= seq![v@]);
                }
                Some((vs, n + 1))
            } else {
                None
            }
        },
    }
}

/// `jsons_dv` of a sequence in terms of its first element.
pub proof fn lemma_jsons_dv_cons(items: Seq<Json>)
    requires
        items.len() > 0,
    ensures
        crate::json::jsons_dv(items) == seq![crate::json::json_dv(items[0])]
            + crate::json::jsons_dv(items.skip(1)),
    decreases items.len(),
{
    crate::json::lemma_jsons_dv(items);
    crate::json::lemma_jsons_dv(items.skip(1));
    let lhs = crate::json::jsons_dv(items);
    let rhs = seq![crate::json::json_dv(items[0])] + crate::json::jsons_dv(items.skip(1));
    assert forall|k: int| 0 <= k < lhs.len() implies lhs[k] == rhs[k] by {
        if k > 0 {
            assert(items.skip(1)[k - 1] == items[k]);
        }
    }
    assert(lhs =~= rhs);
}

pub proof fn lemma_jmembers_dv_cons(ms: Seq<(String, Json)>)
    requires
        ms.len() > 0,
    ensures
        crate::json::jmembers_dv(ms) == seq![(ms[0].0@, crate::json::json_dv(ms[0].1))]
            + crate::json::jmembers_dv(ms.skip(1)),
{
    crate::json::lemma_jmembers_dv(ms);
    crate::json::lemma_jmembers_dv(ms.skip(1));
    let lhs = crate::json::jmembers_dv(ms);
    let rhs = seq![(ms[0].0@, crate::json::json_dv(ms[0].1))] + crate::json::jmembers_dv(
        ms.skip(1),
    );
    assert forall|k: int| 0 <= k < lhs.len() implies lhs[k] == rhs[k] by {
        if k > 0 {
            assert(ms.skip(1)[k - 1] == ms[k]);
        }
    }
    assert(lhs =~= rhs);
}

/// Parse the members of a non-empty object.
#[verifier::rlimit(80)]
pub fn e_members_rest(cs: &Vec<char>, i: usize) -> (r: Option<(Vec<(String, Json)>, usize)>)
    requires
        i <= cs@.len(),
    ensures
        ({
            let sp = p_members_rest(cs@.skip(i as int));
            match r {
                Some(q) => sp matches Some(w) && crate::json::jmembers_dv(q.0@) == w.0 && q.1 - i
                    == w.1 && i < q.1 <= cs@.len(),
                None => sp is None,
            }
        }),
    decreases cs@.len() - i, 2int,
{
    let ghost s0 = cs@.skip(i as int);
    if i >= cs.len() {
        return None;
    }
    proof {
        assert(s0[0] == cs@[i as int]);
    }
    if cs[i] != '"' {
        return None;
    }
    proof {
        assert(s0.skip(1) =~= cs@.skip(i + 1));
    }
    match e_strbody(cs, i + 1) {
        None => None,
        Some((kv, j)) => {
            proof {
                if j < cs.len() {
                    assert(s0[j - i] == cs@[j as int]);
                }
            }
            if j < cs.len() && cs[j] == ':' {
                proof {
                    assert(s0.skip(j - i + 1) =~= cs@.skip(j + 1));
                }
                match e_value(cs, j + 1) {
                    None => None,
                    Some((v, e)) => {
                        proof {
                            if e < cs.len() {
                                assert(s0[e - i] == cs@[e as int]);
                            }
                        }
                        let key = crate::strutil::chars_to_string(&kv);
                        if e < cs.len() && cs[e] == ',' {
                            proof {
                                assert(s0.skip(e - i + 1) =~= cs@.skip(e + 1));
                            }
                            match e_members_rest(cs, e + 1) {
                                None => None,
                                Some((mut ms, q)) => {
                                    let ghost tail = ms@;
                                    ms.insert(0, (key, v));
                                    proof {
                                        assert(ms@ =~= seq![(key, v)] + tail);
                                        assert(ms@[0] == (key, v));
                                        assert(ms@.skip(1) =~= tail);
                                        lemma_jmembers_dv_cons(ms@);
                                    }
                                    Some((ms, q))
                                },
                            }
                        } else if e < cs.len() && cs[e] == '}' {
                            let mut ms: Vec<(String, Json)> = Vec::new();
                            ms.push((key, v));
                            proof {
                                assert(ms@.drop_last() =~= Seq::<(String, Json)>::empty());
                                assert(crate::json::jmembers_dv(Seq::<(String, Json)>::empty())
                                    =~= Seq::<(Seq<char>, JsonS)>::empty());
                                assert(ms@.last() == (key, v));
                                assert(crate::json::jmembers_dv(ms@) =~= seq![(key@, v@)]);
                            }
                            Some((ms, e + 1))
                        } else {
                            None
                        }
                    },
                }
            } else {
                None
            }
        },
    }
}

/// Parse a whole document; the entire text must be one value.
pub fn parse_json_text(s: &str) -> (r: Option<Json>)
    ensures
        ({
            let sp = p_doc(s@);
            match r {
                Some(j) => sp == Some(j@),
                None => sp is None,
            }
        }),
{
    let cs = crate::strutil::str_to_chars(s);
    proof {
        assert(cs@.skip(0) =~= s@);
    }
    match e_value(&cs, 0) {
        None => None,
        Some((j, n)) => if n == cs.len() {
            Some(j)
        } else {
            None
        },
    }
}

} // verus!
