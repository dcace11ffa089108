//! The predicate evaluator: interprets a query object against a document,
//! returning whether the document matches.
//!
//! Per top-level query key the evaluation is an implicit AND that stops at
//! the first non-match, except that a logical key (`$and`/`$or`) decides
//! the whole evaluation, and an `$in`/`$nin` comparison (an accepted
//! token that never matches) evaluates to false without stopping the
//! scan.

use vstd::prelude::*;

use crate::errors::Error;
use crate::utils::{
    has_comparison_op, is_key_valid_op, is_logical_op, spec_classify, spec_is_op,
    spec_parse_log_op, spec_split, spec_validate_key, split_key, spec_str_views, CmpOp, LogOp,
};
use crate::value::{
    deep_copy, spec_as_i64, spec_as_u64, spec_model_field, spec_model_fields, spec_model_list,
    value_eq, SpecValue, Value,
};

verus! {

broadcast use vstd::seq::group_seq_axioms;

/// The first value bound to `key` in a field list, scanning from entry `i`.
pub open spec fn spec_obj_get_from(
    fs: Seq<(Seq<char>, SpecValue)>,
    key: Seq<char>,
    i: int,
) -> Option<SpecValue>
    decreases fs.len() - i,
{
    if i >= fs.len() {
        None
    } else if fs[i].0 == key {
        Some(fs[i].1)
    } else {
        spec_obj_get_from(fs, key, i + 1)
    }
}

/// The value bound to `key` in a field list, if any.
pub open spec fn spec_obj_get(fs: Seq<(Seq<char>, SpecValue)>, key: Seq<char>) -> Option<
    SpecValue,
> {
    spec_obj_get_from(fs, key, 0)
}

/// The target value a path resolves to, descending from segment `i`: a
/// missing field or a non-object step resolves to `Null`, never an error.
pub open spec fn spec_lookup_path(doc: SpecValue, path: Seq<Seq<char>>, i: int) -> SpecValue
    decreases path.len() - i,
{
    if i >= path.len() {
        doc
    } else {
        match doc {
            SpecValue::Obj(fs) => match spec_obj_get(fs, path[i]) {
                Some(child) => spec_lookup_path(child, path, i + 1),
                None => SpecValue::Null,
            },
            _ => SpecValue::Null,
        }
    }
}

/// The target value a key resolves to in a document.
pub open spec fn spec_target(doc: SpecValue, key: Seq<char>) -> SpecValue {
    spec_lookup_path(doc, spec_split(key), 0)
}

/// Whether `x op y` holds for unsigned numbers, the document value on the
/// left.
pub open spec fn spec_cmp_u64(op: CmpOp, x: u64, y: u64) -> bool {
    match op {
        CmpOp::Gt => x > y,
        CmpOp::Gte => x >= y,
        CmpOp::Lt => x < y,
        CmpOp::Lte => x <= y,
        CmpOp::Ne => x != y,
        CmpOp::Eq => x == y,
        _ => false,
    }
}

/// Whether `x op y` holds for signed numbers.
pub open spec fn spec_cmp_i64(op: CmpOp, x: i64, y: i64) -> bool {
    match op {
        CmpOp::Gt => x > y,
        CmpOp::Gte => x >= y,
        CmpOp::Lt => x < y,
        CmpOp::Lte => x <= y,
        CmpOp::Ne => x != y,
        CmpOp::Eq => x == y,
        _ => false,
    }
}

/// Strict lexicographic order on strings, by character code point.
pub open spec fn spec_str_lt(a: Seq<char>, b: Seq<char>) -> bool
    decreases a.len(),
{
    if b.len() == 0 {
        false
    } else if a.len() == 0 {
        true
    } else if (a[0] as u32) < (b[0] as u32) {
        true
    } else if (a[0] as u32) > (b[0] as u32) {
        false
    } else {
        spec_str_lt(a.drop_first(), b.drop_first())
    }
}

/// Whether `a op b` holds for strings, the document value on the left.
pub open spec fn spec_cmp_str(op: CmpOp, a: Seq<char>, b: Seq<char>) -> bool {
    match op {
        CmpOp::Gt => spec_str_lt(b, a),
        CmpOp::Gte => !spec_str_lt(a, b),
        CmpOp::Lt => spec_str_lt(a, b),
        CmpOp::Lte => !spec_str_lt(b, a),
        CmpOp::Ne => a != b,
        CmpOp::Eq => a == b,
        _ => false,
    }
}

/// Scalar comparison of two numbers in their narrowest common
/// representation: unsigned first, then signed; numbers with no common
/// representation are a type error.
pub open spec fn spec_cmp_nums(op: CmpOp, d: SpecValue, c: SpecValue) -> Result<bool, Error> {
    if spec_as_u64(d) is Some && spec_as_u64(c) is Some {
        Ok(spec_cmp_u64(op, spec_as_u64(d)->Some_0, spec_as_u64(c)->Some_0))
    } else if spec_as_i64(d) is Some && spec_as_i64(c) is Some {
        Ok(spec_cmp_i64(op, spec_as_i64(d)->Some_0, spec_as_i64(c)->Some_0))
    } else {
        Err(Error::InvalidType)
    }
}

/// Array-to-array comparison from element `i` on: each element of the
/// target array is compared for equality or inequality against the whole
/// operand array, and any match decides; ordering operators are invalid
/// here.
pub open spec fn spec_arr_to_arr_from(
    op: CmpOp,
    dd: Seq<SpecValue>,
    c: SpecValue,
    i: int,
) -> Result<bool, Error>
    decreases dd.len() - i,
{
    if i >= dd.len() {
        Ok(false)
    } else {
        let cur = match op {
            CmpOp::Ne => Ok(dd[i] != c),
            CmpOp::Eq => Ok(dd[i] == c),
            _ => Err(Error::InvalidOperator),
        };
        match cur {
            Err(e) => Err(e),
            Ok(b) => match spec_arr_to_arr_from(op, dd, c, i + 1) {
                Err(e) => Err(e),
                Ok(rest) => Ok(b || rest),
            },
        }
    }
}

/// Array-to-array comparison: two structurally identical arrays match
/// whatever the operator; otherwise each target element is compared to the
/// whole operand array.
pub open spec fn spec_arr_to_arr(op: CmpOp, d: SpecValue, c: SpecValue) -> Result<bool, Error> {
    if d == c {
        Ok(true)
    } else {
        spec_arr_to_arr_from(op, d->Arr_0, c, 0)
    }
}

/// Array-to-scalar comparison from element `i` on: each non-array element
/// of the target array is compared to the scalar operand; nested arrays
/// are skipped, never descended.
pub open spec fn spec_arr_to_val_from(
    op: CmpOp,
    c: SpecValue,
    dd: Seq<SpecValue>,
    i: int,
) -> Result<bool, Error>
    decreases dd, dd.len() - i, 0int,
        when 0 <= i
    via spec_arr_to_val_from_dec
{
    if i >= dd.len() {
        Ok(false)
    } else {
        let cur = if dd[i] is Arr {
            Ok(false)
        } else {
            spec_value_compares(op, c, dd[i])
        };
        match cur {
            Err(e) => Err(e),
            Ok(b) => match spec_arr_to_val_from(op, c, dd, i + 1) {
                Err(e) => Err(e),
                Ok(rest) => Ok(b || rest),
            },
        }
    }
}

#[via_fn]
proof fn spec_arr_to_val_from_dec(op: CmpOp, c: SpecValue, dd: Seq<SpecValue>, i: int) {
    if 0 <= i < dd.len() {
        assert(decreases_to!(dd => dd[i]));
    }
}

/// Scalar and array comparison of a comparison operand `c` against a
/// target document value `d`: an object operand is invalid, numbers and
/// strings compare by their kind's rule, arrays compare by the array
/// rules, and any other pairing is a type error.
pub open spec fn spec_value_compares(op: CmpOp, c: SpecValue, d: SpecValue) -> Result<
    bool,
    Error,
>
    decreases d, 0int, 0int,
{
    if c is Obj {
        Err(Error::InvalidValue)
    } else {
        match d {
            SpecValue::Int(_) | SpecValue::Uint(_) => if c is Int || c is Uint {
                spec_cmp_nums(op, d, c)
            } else {
                Err(Error::InvalidType)
            },
            SpecValue::Str(ds) => if c is Str {
                Ok(spec_cmp_str(op, ds, c->Str_0))
            } else {
                Err(Error::InvalidType)
            },
            SpecValue::Arr(dd) => match c {
                SpecValue::Arr(_) => spec_arr_to_arr(op, d, c),
                SpecValue::Int(_) | SpecValue::Uint(_) | SpecValue::Str(_) => spec_arr_to_val_from(
                    op,
                    c,
                    dd,
                    0,
                ),
                _ => Err(Error::InvalidType),
            },
            _ => Err(Error::InvalidType),
        }
    }
}

/// A comparison-operator application: `$in` and `$nin` are accepted
/// tokens that always evaluate to false; every other operator compares
/// by `spec_value_compares`.
pub open spec fn spec_apply_cmp(op: CmpOp, c: SpecValue, d: SpecValue) -> Result<bool, Error> {
    if op is In || op is Nin {
        Ok(false)
    } else {
        spec_value_compares(op, c, d)
    }
}

/// The result of a logical operator over a list of sub-queries, from
/// element `i` on: AND of all results, or OR of them; sub-query errors
/// propagate.
pub open spec fn spec_eval_list(
    lop: LogOp,
    list: Seq<SpecValue>,
    doc: SpecValue,
    i: int,
) -> Result<bool, Error>
    decreases list, list.len() - i, 0int,
        when 0 <= i
    via spec_eval_list_dec
{
    if i >= list.len() {
        Ok(
            match lop {
                LogOp::And => true,
                LogOp::Or => false,
            },
        )
    } else {
        match spec_eval(list[i], doc) {
            Err(e) => Err(e),
            Ok(b) => match spec_eval_list(lop, list, doc, i + 1) {
                Err(e) => Err(e),
                Ok(rest) => Ok(
                    match lop {
                        LogOp::And => b && rest,
                        LogOp::Or => b || rest,
                    },
                ),
            },
        }
    }
}

#[via_fn]
proof fn spec_eval_list_dec(lop: LogOp, list: Seq<SpecValue>, doc: SpecValue, i: int) {
    if 0 <= i < list.len() {
        assert(decreases_to!(list => list[i]));
    }
}

/// A logical operator application: the operator's value must be an array
/// of sub-queries.
pub open spec fn spec_eval_logical(lop: LogOp, v: SpecValue, doc: SpecValue) -> Result<
    bool,
    Error,
>
    decreases v, 0int, 1int,
{
    match v {
        SpecValue::Arr(list) => spec_eval_list(lop, list, doc, 0),
        _ => Err(Error::InvalidValue),
    }
}

/// The evaluation of the query entries from index `i` on.  An exhausted
/// entry list matches; each entry is validated, then interpreted as a
/// logical operator (which decides the whole evaluation), a comparison
/// (a non-match stops the scan with false, except `$in`/`$nin`), or a
/// literal (a mismatch stops the scan with false).
pub open spec fn spec_eval_entries(
    entries: Seq<(Seq<char>, SpecValue)>,
    doc: SpecValue,
    i: int,
) -> Result<bool, Error>
    decreases entries, entries.len() - i, 0int,
        when 0 <= i
    via spec_eval_entries_dec
{
    if i >= entries.len() {
        Ok(true)
    } else {
        let key = entries[i].0;
        let v = entries[i].1;
        match spec_validate_key(key) {
            Some(e) => Err(e),
            None => if spec_parse_log_op(key) is Some {
                spec_eval_logical(spec_parse_log_op(key)->Some_0, v, doc)
            } else {
                let target = spec_target(doc, key);
                match spec_classify(v) {
                    Some(cls) => match spec_apply_cmp(cls.0, cls.1, target) {
                        Err(e) => Err(e),
                        Ok(m) => if !m && !(cls.0 is In || cls.0 is Nin) {
                            Ok(false)
                        } else if i + 1 >= entries.len() {
                            Ok(m)
                        } else {
                            spec_eval_entries(entries, doc, i + 1)
                        },
                    },
                    None => if v == target {
                        if i + 1 >= entries.len() {
                            Ok(true)
                        } else {
                            spec_eval_entries(entries, doc, i + 1)
                        }
                    } else {
                        Ok(false)
                    },
                }
            },
        }
    }
}

#[via_fn]
proof fn spec_eval_entries_dec(entries: Seq<(Seq<char>, SpecValue)>, doc: SpecValue, i: int) {
    if 0 <= i < entries.len() {
        assert(decreases_to!(entries => entries[i]));
        assert(decreases_to!(entries[i] => entries[i].1));
    }
}

/// The evaluation of a query against a document.  A query that is not an
/// object is rejected; an empty query object matches every document.
pub open spec fn spec_eval(query: SpecValue, doc: SpecValue) -> Result<bool, Error>
    decreases query, 0int, 2int,
{
    match query {
        SpecValue::Obj(entries) => spec_eval_entries(entries, doc, 0),
        _ => Err(Error::NotAnObject),
    }
}

/// Look up the first field bound to `key` in an object's field list.
fn obj_get<'a>(fs: &'a Vec<(String, Value)>, key: &str) -> (r: Option<&'a Value>)
    ensures
        match spec_obj_get(spec_model_fields(fs@), key@) {
            Some(sv) => r is Some && r->0@ == sv,
            None => r is None,
        },
{
    let ghost m = spec_model_fields(fs@);
    let mut j: usize = 0;
    while j < fs.len()
        invariant
            j <= fs@.len(),
            m == spec_model_fields(fs@),
            m.len() == fs@.len(),
            forall|t: int| 0 <= t < fs@.len() ==> #[trigger] m[t] == spec_model_field(fs@[t]),
            spec_obj_get_from(m, key@, 0) == spec_obj_get_from(m, key@, j as int),
        decreases fs@.len() - j,
    {
        if crate::utils::str_eq(fs[j].0.as_str(), key) {
            proof {
                assert(m[j as int].0 == key@);
            }
            return Some(&fs[j].1);
        }
        proof {
            assert(m[j as int].0 != key@);
        }
        j = j + 1;
    }
    None
}

/// Resolve the target value of a (possibly dotted) key in a document: a
/// structurally equal copy of the value the path reaches, or `Null` where
/// the path is absent.
pub fn get_document_value(key: &str, document: &Value) -> (r: Value)
    ensures
        r@ == spec_target(document@, key@),
{
    let segs = split_key(key);
    let ghost path = spec_split(key@);
    let mut cur: &Value = document;
    let mut i: usize = 0;
    while i < segs.len()
        invariant
            i <= segs@.len(),
            path == spec_split(key@),
            spec_str_views(segs@) == path,
            path.len() == segs@.len(),
            spec_lookup_path(document@, path, 0) == spec_lookup_path(cur@, path, i as int),
        decreases segs@.len() - i,
    {
        proof {
            assert(spec_str_views(segs@)[i as int] == segs@[i as int]@);
        }
        match cur {
            Value::Obj(fs) => {
                proof {
                    assert(cur@->Obj_0 == spec_model_fields(fs@));
                }
                match obj_get(fs, segs[i].as_str()) {
                    Some(child) => {
                        cur = child;
                    },
                    None => {
                        return Value::Null;
                    },
                }
            },
            _ => {
                return Value::Null;
            },
        }
        i = i + 1;
    }
    deep_copy(cur)
}

/// Compare a scalar or array operand against a target document value.
pub fn perform_value_compares(op: CmpOp, compare_to_value: &Value, doc_value: &Value) -> (r:
    Result<bool, Error>)
    ensures
        r == spec_value_compares(op, compare_to_value@, doc_value@),
    decreases *doc_value, 1int,
{
    if compare_to_value.is_object() {
        return Err(Error::InvalidValue);
    }
    match (doc_value, compare_to_value) {
        (Value::Int(_), Value::Int(_))
        | (Value::Int(_), Value::Uint(_))
        | (Value::Uint(_), Value::Int(_))
        | (Value::Uint(_), Value::Uint(_)) => {
            match (doc_value.as_u64(), compare_to_value.as_u64()) {
                (Some(x), Some(y)) => Ok(cmp_u64(op, x, y)),
                _ => match (doc_value.as_i64(), compare_to_value.as_i64()) {
                    (Some(x), Some(y)) => Ok(cmp_i64(op, x, y)),
                    _ => Err(Error::InvalidType),
                },
            }
        },
        (Value::Str(d), Value::Str(c)) => Ok(cmp_str(op, d, c)),
        (Value::Arr(_), Value::Arr(_)) => perform_array_to_array_compare(
            op,
            doc_value,
            compare_to_value,
        ),
        (Value::Arr(dd), Value::Int(_))
        | (Value::Arr(dd), Value::Uint(_))
        | (Value::Arr(dd), Value::Str(_)) => {
            proof {
                assert(decreases_to!(*doc_value => doc_value->Arr_0));
            }
            perform_array_to_value_compare(op, compare_to_value, dd)
        },
        _ => Err(Error::InvalidType),
    }
}

/// Decide one comparison operator on unsigned numbers.
fn cmp_u64(op: CmpOp, x: u64, y: u64) -> (r: bool)
    ensures
        r == spec_cmp_u64(op, x, y),
{
    match op {
        CmpOp::Gt => x > y,
        CmpOp::Gte => x >= y,
        CmpOp::Lt => x < y,
        CmpOp::Lte => x <= y,
        CmpOp::Ne => x != y,
        CmpOp::Eq => x == y,
        _ => false,
    }
}

/// Decide one comparison operator on signed numbers.
fn cmp_i64(op: CmpOp, x: i64, y: i64) -> (r: bool)
    ensures
        r == spec_cmp_i64(op, x, y),
{
    match op {
        CmpOp::Gt => x > y,
        CmpOp::Gte => x >= y,
        CmpOp::Lt => x < y,
        CmpOp::Lte => x <= y,
        CmpOp::Ne => x != y,
        CmpOp::Eq => x == y,
        _ => false,
    }
}

/// Three-way lexicographic comparison of two strings by character code
/// point: negative, zero, or positive as `a` is below, equal to, or above
/// `b`.
fn str_three_way(a: &String, b: &String) -> (r: i32)
    ensures
        (r == 0) == (a@ == b@),
        (r < 0) == spec_str_lt(a@, b@),
        (r > 0) == spec_str_lt(b@, a@),
{
    let sa = a.as_str();
    let sb = b.as_str();
    let n = sa.unicode_len();
    let m = sb.unicode_len();
    let mut i: usize = 0;
    proof {
        assert(a@.skip(0) =~= a@);
        assert(b@.skip(0) =~= b@);
    }
    while i < n && i < m
        invariant
            i <= n,
            i <= m,
            n as int == a@.len(),
            m as int == b@.len(),
            sa@ == a@,
            sb@ == b@,
            forall|j: int| 0 <= j < i ==> a@[j] == b@[j],
            spec_str_lt(a@, b@) == spec_str_lt(a@.skip(i as int), b@.skip(i as int)),
            spec_str_lt(b@, a@) == spec_str_lt(b@.skip(i as int), a@.skip(i as int)),
        decreases n - i,
    {
        let ca = sa.get_char(i);
        let cb = sb.get_char(i);
        if (ca as u32) < (cb as u32) {
            proof {
                lemma_str_lt_skip_step(a@, b@, i as int);
            }
            return -1;
        }
        if (ca as u32) > (cb as u32) {
            proof {
                lemma_str_lt_skip_step(b@, a@, i as int);
            }
            return 1;
        }
        proof {
            lemma_str_lt_skip_eq(a@, b@, i as int);
            lemma_str_lt_skip_eq(b@, a@, i as int);
        }
        i = i + 1;
    }
    if n == m {
        proof {
            assert(a@ =~= b@);
            assert(a@.skip(i as int).len() == 0);
            assert(b@.skip(i as int).len() == 0);
        }
        0
    } else if n < m {
        proof {
            assert(i == n);
            assert(a@.skip(i as int).len() == 0);
            assert(b@.skip(i as int).len() > 0);
            assert(spec_str_lt(a@.skip(i as int), b@.skip(i as int)));
            assert(!spec_str_lt(b@.skip(i as int), a@.skip(i as int)));
            assert(a@ != b@) by {
                assert(a@.len() != b@.len());
            }
        }
        -1
    } else {
        proof {
            assert(i == m);
            assert(b@.skip(i as int).len() == 0);
            assert(a@.skip(i as int).len() > 0);
            assert(spec_str_lt(b@.skip(i as int), a@.skip(i as int)));
            assert(!spec_str_lt(a@.skip(i as int), b@.skip(i as int)));
            assert(a@ != b@) by {
                assert(a@.len() != b@.len());
            }
        }
        1
    }
}

/// One step of the lexicographic order: with the first `i` characters
/// equal and a strictly smaller character at `i`, the order is decided.
proof fn lemma_str_lt_skip_step(a: Seq<char>, b: Seq<char>, i: int)
    requires
        0 <= i < a.len(),
        i < b.len(),
        forall|j: int| 0 <= j < i ==> a[j] == b[j],
        (a[i] as u32) < (b[i] as u32),
    ensures
        spec_str_lt(a.skip(i), b.skip(i)),
        !spec_str_lt(b.skip(i), a.skip(i)),
{
    assert(a.skip(i)[0] == a[i]);
    assert(b.skip(i)[0] == b[i]);
}

/// One step of the lexicographic order: equal characters at `i` carry the
/// comparison to the next position.
proof fn lemma_str_lt_skip_eq(a: Seq<char>, b: Seq<char>, i: int)
    requires
        0 <= i < a.len(),
        i < b.len(),
        a[i] == b[i],
    ensures
        spec_str_lt(a.skip(i), b.skip(i)) == spec_str_lt(a.skip(i + 1), b.skip(i + 1)),
{
    assert(a.skip(i)[0] == a[i]);
    assert(b.skip(i)[0] == b[i]);
    assert(a.skip(i).drop_first() =~= a.skip(i + 1));
    assert(b.skip(i).drop_first() =~= b.skip(i + 1));
}

/// Decide one comparison operator on strings.
fn cmp_str(op: CmpOp, d: &String, c: &String) -> (r: bool)
    ensures
        r == spec_cmp_str(op, d@, c@),
{
    let three = str_three_way(d, c);
    match op {
        CmpOp::Gt => three > 0,
        CmpOp::Gte => three >= 0,
        CmpOp::Lt => three < 0,
        CmpOp::Lte => three <= 0,
        CmpOp::Ne => three != 0,
        CmpOp::Eq => three == 0,
        _ => false,
    }
}

/// Compare a target array against a whole operand array: identical arrays
/// match outright; otherwise any target element equal (or unequal, for
/// `$ne`) to the operand array decides; ordering operators are invalid.
fn perform_array_to_array_compare(op: CmpOp, doc_value: &Value, compare_value: &Value) -> (r:
    Result<bool, Error>)
    requires
        doc_value@ is Arr,
    ensures
        r == spec_arr_to_arr(op, doc_value@, compare_value@),
{
    if value_eq(doc_value, compare_value) {
        return Ok(true);
    }
    let dd: &Vec<Value> = match doc_value {
        Value::Arr(dd) => dd,
        _ => {
            return Err(Error::InvalidType);
        },
    };
    let ghost m = spec_model_list(dd@);
    let mut matched = false;
    let mut i: usize = 0;
    while i < dd.len()
        invariant
            i <= dd@.len(),
            *doc_value == Value::Arr(*dd),
            doc_value@ != compare_value@,
            m == spec_model_list(dd@),
            m.len() == dd@.len(),
            forall|t: int| 0 <= t < dd@.len() ==> #[trigger] m[t] == dd@[t]@,
            match spec_arr_to_arr_from(op, m, compare_value@, i as int) {
                Ok(rest) => spec_arr_to_arr_from(op, m, compare_value@, 0) == Ok::<
                    bool,
                    Error,
                >(matched || rest),
                Err(e) => spec_arr_to_arr_from(op, m, compare_value@, 0) == Err::<
                    bool,
                    Error,
                >(e),
            },
        decreases dd@.len() - i,
    {
        let is_match = match op {
            CmpOp::Ne => !value_eq(&dd[i], compare_value),
            CmpOp::Eq => value_eq(&dd[i], compare_value),
            _ => {
                return Err(Error::InvalidOperator);
            },
        };
        matched = matched || is_match;
        i = i + 1;
    }
    Ok(matched)
}

/// Compare a scalar operand against each non-array element of a target
/// array; nested arrays are skipped, never descended.
fn perform_array_to_value_compare(op: CmpOp, compare_value: &Value, dd: &Vec<Value>) -> (r:
    Result<bool, Error>)
    ensures
        r == spec_arr_to_val_from(op, compare_value@, spec_model_list(dd@), 0),
    decreases *dd, 0int,
{
    let ghost m = spec_model_list(dd@);
    let mut matched = false;
    let mut i: usize = 0;
    while i < dd.len()
        invariant
            i <= dd@.len(),
            m == spec_model_list(dd@),
            m.len() == dd@.len(),
            forall|t: int| 0 <= t < dd@.len() ==> #[trigger] m[t] == dd@[t]@,
            match spec_arr_to_val_from(op, compare_value@, m, i as int) {
                Ok(rest) => spec_arr_to_val_from(op, compare_value@, m, 0) == Ok::<
                    bool,
                    Error,
                >(matched || rest),
                Err(e) => spec_arr_to_val_from(op, compare_value@, m, 0) == Err::<
                    bool,
                    Error,
                >(e),
            },
        decreases dd@.len() - i,
    {
        let elem = &dd[i];
        let elem_is_arr = match elem {
            Value::Arr(_) => true,
            _ => false,
        };
        let is_match = if elem_is_arr {
            false
        } else {
            proof {
                assert(decreases_to!(*dd => dd@));
                assert(decreases_to!(dd@ => dd@[i as int]));
            }
            match perform_value_compares(op, compare_value, elem) {
                Ok(b) => b,
                Err(e) => {
                    return Err(e);
                },
            }
        };
        matched = matched || is_match;
        i = i + 1;
    }
    Ok(matched)
}

/// Apply a comparison operator: `$in` and `$nin` are accepted tokens that
/// always evaluate to false; the rest compare operand and target.
pub fn perform_comparison_op(op: CmpOp, compare_to_value: &Value, doc_value: &Value) -> (r:
    Result<bool, Error>)
    ensures
        r == spec_apply_cmp(op, compare_to_value@, doc_value@),
{
    match op {
        CmpOp::In | CmpOp::Nin => Ok(false),
        _ => perform_value_compares(op, compare_to_value, doc_value),
    }
}

/// Evaluate a logical operator: its value must be an array of sub-queries,
/// each evaluated against the document and combined with AND or OR.
fn perform_logical_op(lop: LogOp, logical_op_list: &Value, document: &Value) -> (r: Result<
    bool,
    Error,
>)
    ensures
        r == spec_eval_logical(lop, logical_op_list@, document@),
    decreases *logical_op_list, 0int,
{
    let list: &Vec<Value> = match logical_op_list {
        Value::Arr(list) => list,
        _ => {
            return Err(Error::InvalidValue);
        },
    };
    let ghost m = spec_model_list(list@);
    let mut acc = match lop {
        LogOp::And => true,
        LogOp::Or => false,
    };
    let mut i: usize = 0;
    while i < list.len()
        invariant
            i <= list@.len(),
            *logical_op_list == Value::Arr(*list),
            m == spec_model_list(list@),
            m.len() == list@.len(),
            forall|t: int| 0 <= t < list@.len() ==> #[trigger] m[t] == list@[t]@,
            match spec_eval_list(lop, m, document@, i as int) {
                Ok(rest) => spec_eval_list(lop, m, document@, 0) == Ok::<bool, Error>(
                    match lop {
                        LogOp::And => acc && rest,
                        LogOp::Or => acc || rest,
                    },
                ),
                Err(e) => spec_eval_list(lop, m, document@, 0) == Err::<bool, Error>(e),
            },
        decreases list@.len() - i,
    {
        proof {
            assert(decreases_to!(*logical_op_list => logical_op_list->Arr_0));
            assert(decreases_to!(*list => list@));
            assert(decreases_to!(list@ => list@[i as int]));
        }
        let b = match evaluate(&list[i], document) {
            Ok(b) => b,
            Err(e) => {
                return Err(e);
            },
        };
        acc = match lop {
            LogOp::And => acc && b,
            LogOp::Or => acc || b,
        };
        i = i + 1;
    }
    Ok(acc)
}

/// Evaluate a query against a document: whether the document matches.
///
/// A query that is not an object is rejected with `NotAnObject`; an empty
/// query object matches every document.  Each top-level key is validated
/// and then interpreted as a logical operator (whose result decides the
/// whole evaluation), a comparison-operator object, or a literal equality
/// requirement on the key's target value.
pub fn evaluate(query: &Value, document: &Value) -> (r: Result<bool, Error>)
    ensures
        r == spec_eval(query@, document@),
    decreases *query, 1int,
{
    let entries: &Vec<(String, Value)> = match query {
        Value::Obj(entries) => entries,
        _ => {
            return Err(Error::NotAnObject);
        },
    };
    let ghost m = spec_model_fields(entries@);
    let mut is_found = true;
    let mut i: usize = 0;
    while i < entries.len()
        invariant
            i <= entries@.len(),
            *query == Value::Obj(*entries),
            m == spec_model_fields(entries@),
            m.len() == entries@.len(),
            forall|t: int| 0 <= t < entries@.len() ==> #[trigger] m[t] == spec_model_field(
                entries@[t],
            ),
            i < entries@.len() ==> spec_eval_entries(m, document@, 0) == spec_eval_entries(
                m,
                document@,
                i as int,
            ),
            i >= entries@.len() ==> spec_eval_entries(m, document@, 0) == Ok::<bool, Error>(
                is_found,
            ),
        decreases entries@.len() - i,
    {
        let key: &String = &entries[i].0;
        let v: &Value = &entries[i].1;
        proof {
            assert(m[i as int] == spec_model_field(entries@[i as int]));
        }
        if let Err(e) = is_key_valid_op(key.as_str()) {
            return Err(e);
        }
        if is_logical_op(key.as_str()) {
            let lop = if crate::utils::str_eq(key.as_str(), "$and") {
                LogOp::And
            } else {
                LogOp::Or
            };
            proof {
                assert(decreases_to!(*query => query->Obj_0));
                assert(decreases_to!(*entries => entries@));
                assert(decreases_to!(entries@ => entries@[i as int]));
                assert(decreases_to!(entries@[i as int] => entries@[i as int].1));
            }
            return perform_logical_op(lop, v, document);
        }
        let target = get_document_value(key.as_str(), document);
        match has_comparison_op(v) {
            Some((op, operand)) => {
                let mr = perform_comparison_op(op, operand, &target);
                match mr {
                    Err(e) => {
                        return Err(e);
                    },
                    Ok(mv) => {
                        let is_in_op = match op {
                            CmpOp::In | CmpOp::Nin => true,
                            _ => false,
                        };
                        if !mv && !is_in_op {
                            return Ok(false);
                        }
                        is_found = mv;
                    },
                }
            },
            None => {
                if !value_eq(v, &target) {
                    return Ok(false);
                }
                is_found = true;
            },
        }
        i = i + 1;
    }
    Ok(is_found)
}

/// Law: the empty query matches every document.
pub proof fn lemma_empty_query_matches(doc: SpecValue)
    ensures
        spec_eval(SpecValue::Obj(Seq::empty()), doc) == Ok::<bool, Error>(true),
{
}

/// Law: a query of one literal entry matches exactly the documents whose
/// target value for that key structurally equals the literal.
pub proof fn lemma_literal_equality(key: Seq<char>, v: SpecValue, doc: SpecValue)
    requires
        spec_validate_key(key) is None,
        spec_parse_log_op(key) is None,
        spec_classify(v) is None,
    ensures
        spec_eval(SpecValue::Obj(seq![(key, v)]), doc) == Ok::<bool, Error>(
            spec_target(doc, key) == v,
        ),
{
    let entries = seq![(key, v)];
    assert(entries[0] == (key, v));
    assert(entries.len() == 1);
}

/// Law: `$and` of two literal sub-queries is conjunctive: it evaluates as
/// the query holding both literal entries.
pub proof fn lemma_and_conjunctive(
    k1: Seq<char>,
    v1: SpecValue,
    k2: Seq<char>,
    v2: SpecValue,
    doc: SpecValue,
)
    requires
        spec_validate_key(k1) is None,
        spec_parse_log_op(k1) is None,
        spec_classify(v1) is None,
        spec_validate_key(k2) is None,
        spec_parse_log_op(k2) is None,
        spec_classify(v2) is None,
    ensures
        spec_eval(
            SpecValue::Obj(
                seq![
                    (
                        "$and"@,
                        SpecValue::Arr(
                            seq![
                                SpecValue::Obj(seq![(k1, v1)]),
                                SpecValue::Obj(seq![(k2, v2)]),
                            ],
                        ),
                    ),
                ],
            ),
            doc,
        ) == spec_eval(SpecValue::Obj(seq![(k1, v1), (k2, v2)]), doc),
{
    reveal_strlit("$and");
    assert forall|i: int| 0 <= i < "$and"@.len() implies "$and"@[i] != '.' by {
        assert("$and"@.len() == 4);
        assert("$and"@[0] == '$');
        assert("$and"@[1] == 'a');
        assert("$and"@[2] == 'n');
        assert("$and"@[3] == 'd');
    }
    crate::utils::lemma_split_no_dot("$and"@);
    assert(spec_is_op("$and"@));
    assert(spec_parse_log_op("$and"@) == Some(LogOp::And));
    assert(spec_validate_key("$and"@) is None);
    lemma_literal_equality(k1, v1, doc);
    lemma_literal_equality(k2, v2, doc);
    let b1 = spec_target(doc, k1) == v1;
    let b2 = spec_target(doc, k2) == v2;
    let o1 = SpecValue::Obj(seq![(k1, v1)]);
    let o2 = SpecValue::Obj(seq![(k2, v2)]);
    let list = seq![o1, o2];
    assert(list[0] == o1);
    assert(list[1] == o2);
    assert(list.len() == 2);
    assert(spec_eval_list(LogOp::And, list, doc, 2) == Ok::<bool, Error>(true));
    assert(spec_eval_list(LogOp::And, list, doc, 1) == Ok::<bool, Error>(b2));
    assert(spec_eval_list(LogOp::And, list, doc, 0) == Ok::<bool, Error>(b1 && b2));
    let lhs_entries = seq![
        (
            "$and"@,
            SpecValue::Arr(list),
        ),
    ];
    assert(lhs_entries[0].0 == "$and"@);
    assert(lhs_entries[0].1 == SpecValue::Arr(list));
    assert(spec_eval_entries(lhs_entries, doc, 0) == Ok::<bool, Error>(b1 && b2));
    let rhs_entries = seq![(k1, v1), (k2, v2)];
    assert(rhs_entries[0] == (k1, v1));
    assert(rhs_entries[1] == (k2, v2));
    assert(rhs_entries.len() == 2);
    if b1 {
        assert(spec_eval_entries(rhs_entries, doc, 1) == Ok::<bool, Error>(b2));
        assert(spec_eval_entries(rhs_entries, doc, 0) == Ok::<bool, Error>(b1 && b2));
    } else {
        assert(spec_eval_entries(rhs_entries, doc, 0) == Ok::<bool, Error>(false));
    }
}

/// Law: `$or` of two literal sub-queries is disjunctive: it matches
/// exactly when at least one of the literal entries matches.
pub proof fn lemma_or_disjunctive(
    k1: Seq<char>,
    v1: SpecValue,
    k2: Seq<char>,
    v2: SpecValue,
    doc: SpecValue,
)
    requires
        spec_validate_key(k1) is None,
        spec_parse_log_op(k1) is None,
        spec_classify(v1) is None,
        spec_validate_key(k2) is None,
        spec_parse_log_op(k2) is None,
        spec_classify(v2) is None,
    ensures
        spec_eval(
            SpecValue::Obj(
                seq![
                    (
                        "$or"@,
                        SpecValue::Arr(
                            seq![
                                SpecValue::Obj(seq![(k1, v1)]),
                                SpecValue::Obj(seq![(k2, v2)]),
                            ],
                        ),
                    ),
                ],
            ),
            doc,
        ) == Ok::<bool, Error>(spec_target(doc, k1) == v1 || spec_target(doc, k2) == v2),
{
    reveal_strlit("$or");
    assert forall|i: int| 0 <= i < "$or"@.len() implies "$or"@[i] != '.' by {
        assert("$or"@.len() == 3);
        assert("$or"@[0] == '$');
        assert("$or"@[1] == 'o');
        assert("$or"@[2] == 'r');
    }
    crate::utils::lemma_split_no_dot("$or"@);
    assert(spec_is_op("$or"@));
    reveal_strlit("$and");
    assert("$or"@ != "$and"@) by {
        assert("$or"@.len() == 3);
        assert("$and"@.len() == 4);
    }
    assert(spec_parse_log_op("$or"@) == Some(LogOp::Or));
    assert(spec_validate_key("$or"@) is None);
    lemma_literal_equality(k1, v1, doc);
    lemma_literal_equality(k2, v2, doc);
    let b1 = spec_target(doc, k1) == v1;
    let b2 = spec_target(doc, k2) == v2;
    let o1 = SpecValue::Obj(seq![(k1, v1)]);
    let o2 = SpecValue::Obj(seq![(k2, v2)]);
    let list = seq![o1, o2];
    assert(list[0] == o1);
    assert(list[1] == o2);
    assert(list.len() == 2);
    assert(spec_eval_list(LogOp::Or, list, doc, 2) == Ok::<bool, Error>(false));
    assert(spec_eval_list(LogOp::Or, list, doc, 1) == Ok::<bool, Error>(b2));
    assert(spec_eval_list(LogOp::Or, list, doc, 0) == Ok::<bool, Error>(b1 || b2));
    let entries = seq![
        (
            "$or"@,
            SpecValue::Arr(list),
        ),
    ];
    assert(entries[0].0 == "$or"@);
    assert(entries[0].1 == SpecValue::Arr(list));
    assert(spec_eval_entries(entries, doc, 0) == Ok::<bool, Error>(b1 || b2));
}

/// Law: a scalar operand never matches a target array whose elements are
/// all arrays themselves: nested arrays are skipped, never descended.
pub proof fn lemma_nested_arrays_skipped(op: CmpOp, c: SpecValue, dd: Seq<SpecValue>)
    requires
        c is Int || c is Uint || c is Str,
        forall|i: int| 0 <= i < dd.len() ==> (#[trigger] dd[i]) is Arr,
    ensures
        spec_value_compares(op, c, SpecValue::Arr(dd)) == Ok::<bool, Error>(false),
{
    lemma_arr_to_val_all_arrays(op, c, dd, 0);
}

proof fn lemma_arr_to_val_all_arrays(op: CmpOp, c: SpecValue, dd: Seq<SpecValue>, i: int)
    requires
        0 <= i <= dd.len(),
        c is Int || c is Uint || c is Str,
        forall|t: int| 0 <= t < dd.len() ==> (#[trigger] dd[t]) is Arr,
    ensures
        spec_arr_to_val_from(op, c, dd, i) == Ok::<bool, Error>(false),
    decreases dd.len() - i,
{
    if i < dd.len() {
        lemma_arr_to_val_all_arrays(op, c, dd, i + 1);
    }
}

impl Value {
    /// The value bound to a field name in this object, if this value is
    /// an object that binds it.
    pub fn get<'a>(&'a self, key: &str) -> (r: Option<&'a Value>)
        ensures
            match self@ {
                SpecValue::Obj(fs) => match spec_obj_get(fs, key@) {
                    Some(sv) => r is Some && r->0@ == sv,
                    None => r is None,
                },
                _ => r is None,
            },
    {
        match self {
            Value::Obj(fs) => {
                proof {
                    assert(self@->Obj_0 == spec_model_fields(fs@));
                }
                obj_get(fs, key)
            },
            _ => None,
        }
    }
}

proof fn lemma_arr_to_arr_eq_from(dd: Seq<SpecValue>, c: SpecValue, i: int)
    requires
        0 <= i <= dd.len(),
    ensures
        spec_arr_to_arr_from(CmpOp::Eq, dd, c, i) == Ok::<bool, Error>(
            exists|j: int| i <= j < dd.len() && #[trigger] dd[j] == c,
        ),
    decreases dd.len() - i,
{
    if i < dd.len() {
        lemma_arr_to_arr_eq_from(dd, c, i + 1);
        if dd[i] == c {
            assert(exists|j: int| i <= j < dd.len() && #[trigger] dd[j] == c);
        }
    }
}

/// Law: array-to-array `$eq` matches exactly the structurally identical
/// array, or a target array holding an element equal to the whole operand
/// array.
pub proof fn lemma_array_to_array_eq(dd: Seq<SpecValue>, cc: Seq<SpecValue>)
    ensures
        spec_value_compares(CmpOp::Eq, SpecValue::Arr(cc), SpecValue::Arr(dd)) == Ok::<
            bool,
            Error,
        >(dd == cc || (exists|j: int|
            0 <= j < dd.len() && #[trigger] dd[j] == SpecValue::Arr(cc))),
{
    if dd != cc {
        lemma_arr_to_arr_eq_from(dd, SpecValue::Arr(cc), 0);
    }
}

proof fn lemma_arr_to_val_eq_str_from(c: SpecValue, dd: Seq<SpecValue>, i: int)
    requires
        0 <= i <= dd.len(),
        c is Str,
        forall|t: int| 0 <= t < dd.len() ==> (#[trigger] dd[t]) is Str || dd[t] is Arr,
    ensures
        spec_arr_to_val_from(CmpOp::Eq, c, dd, i) == Ok::<bool, Error>(
            exists|j: int| i <= j < dd.len() && #[trigger] dd[j] == c,
        ),
    decreases dd.len() - i,
{
    if i < dd.len() {
        lemma_arr_to_val_eq_str_from(c, dd, i + 1);
        if dd[i] is Str {
            assert(spec_value_compares(CmpOp::Eq, c, dd[i]) == Ok::<bool, Error>(
                dd[i] == c,
            )) by {
                if dd[i]->Str_0 == c->Str_0 {
                    assert(dd[i] == c);
                }
            }
        } else {
            assert(dd[i] != c);
        }
        if dd[i] == c {
            assert(exists|j: int| i <= j < dd.len() && #[trigger] dd[j] == c);
        } else if exists|j: int| i + 1 <= j < dd.len() && #[trigger] dd[j] == c {
            let w = choose|j: int| i + 1 <= j < dd.len() && #[trigger] dd[j] == c;
            assert(i <= w < dd.len() && dd[w] == c);
        } else {
            assert forall|j: int| i <= j < dd.len() implies #[trigger] dd[j] != c by {
                if j > i {
                    assert(!(i + 1 <= j < dd.len() && dd[j] == c));
                }
            }
        }
    }
}

/// Law: array-to-scalar `$eq` is "any element": a string operand matches
/// a target array of strings and nested arrays exactly when some element
/// equals it.
pub proof fn lemma_array_to_scalar_eq_any_element(c: SpecValue, dd: Seq<SpecValue>)
    requires
        c is Str,
        forall|t: int| 0 <= t < dd.len() ==> (#[trigger] dd[t]) is Str || dd[t] is Arr,
    ensures
        spec_value_compares(CmpOp::Eq, c, SpecValue::Arr(dd)) == Ok::<bool, Error>(
            exists|j: int| 0 <= j < dd.len() && #[trigger] dd[j] == c,
        ),
{
    lemma_arr_to_val_eq_str_from(c, dd, 0);
}

} // verus!
