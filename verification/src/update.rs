//! The update executor: interprets an update specification against a
//! document, either replacing the document wholesale (no operator keys)
//! or applying field-level update operators (`$set`, `$unset`, `$inc`,
//! `$mul`); mixing operator and literal keys is rejected.

use vstd::prelude::*;

use crate::errors::Error;
use crate::eval::{get_document_value, spec_obj_get, spec_obj_get_from, spec_target};
use crate::utils::{
    parse_update_op, path_has_op, spec_is_op, spec_parse_update_op, spec_path_has_op, spec_split,
    spec_str_views, split_key, UpdateOp,
};
use crate::value::{
    deep_copy, num_add, num_mul, spec_is_number, spec_model_field, spec_model_fields,
    spec_num_add, spec_num_mul, SpecValue, Value,
};

verus! {

broadcast use vstd::seq::group_seq_axioms;

/// A field list with `key` bound to `val`, scanning for the first match
/// from entry `i`: an existing binding is overwritten in place, a missing
/// one is appended at the end.
pub open spec fn spec_obj_set_from(
    fs: Seq<(Seq<char>, SpecValue)>,
    key: Seq<char>,
    val: SpecValue,
    i: int,
) -> Seq<(Seq<char>, SpecValue)>
    decreases fs.len() - i,
{
    if i >= fs.len() {
        fs.push((key, val))
    } else if fs[i].0 == key {
        fs.update(i, (key, val))
    } else {
        spec_obj_set_from(fs, key, val, i + 1)
    }
}

/// A field list with `key` bound to `val`.
pub open spec fn spec_obj_set(
    fs: Seq<(Seq<char>, SpecValue)>,
    key: Seq<char>,
    val: SpecValue,
) -> Seq<(Seq<char>, SpecValue)> {
    spec_obj_set_from(fs, key, val, 0)
}

/// A field list with the first binding of `key` removed, scanning from
/// entry `i`; absent keys leave the list unchanged.
pub open spec fn spec_obj_remove_from(
    fs: Seq<(Seq<char>, SpecValue)>,
    key: Seq<char>,
    i: int,
) -> Seq<(Seq<char>, SpecValue)>
    decreases fs.len() - i,
{
    if i >= fs.len() {
        fs
    } else if fs[i].0 == key {
        fs.remove(i)
    } else {
        spec_obj_remove_from(fs, key, i + 1)
    }
}

/// A field list with the first binding of `key` removed, if present.
pub open spec fn spec_obj_remove(fs: Seq<(Seq<char>, SpecValue)>, key: Seq<char>) -> Seq<
    (Seq<char>, SpecValue),
> {
    spec_obj_remove_from(fs, key, 0)
}

/// The document after assigning `val` at the path from segment `i` on:
/// intermediate objects are created (and non-object steps replaced by
/// objects) as needed, and the terminal field is overwritten whatever its
/// previous value.
pub open spec fn spec_set_path(doc: SpecValue, path: Seq<Seq<char>>, i: int, val: SpecValue)
    -> SpecValue
    decreases path.len() - i,
{
    if i >= path.len() {
        val
    } else {
        let fs = if doc is Obj {
            doc->Obj_0
        } else {
            Seq::empty()
        };
        if i == path.len() - 1 {
            SpecValue::Obj(spec_obj_set(fs, path[i], val))
        } else {
            let child = match spec_obj_get(fs, path[i]) {
                Some(c) => c,
                None => SpecValue::Null,
            };
            SpecValue::Obj(spec_obj_set(fs, path[i], spec_set_path(child, path, i + 1, val)))
        }
    }
}

/// The document after unsetting the path from segment `i` on: a missing
/// intermediate object or terminal field leaves the document unchanged,
/// and nothing is ever created.
pub open spec fn spec_unset_path(doc: SpecValue, path: Seq<Seq<char>>, i: int) -> SpecValue
    decreases path.len() - i,
{
    if i >= path.len() {
        doc
    } else {
        match doc {
            SpecValue::Obj(fs) => if i == path.len() - 1 {
                SpecValue::Obj(spec_obj_remove(fs, path[i]))
            } else {
                match spec_obj_get(fs, path[i]) {
                    Some(child) => SpecValue::Obj(
                        spec_obj_set(fs, path[i], spec_unset_path(child, path, i + 1)),
                    ),
                    None => doc,
                }
            },
            _ => doc,
        }
    }
}

/// The `$set` handler folded over its field pairs from entry `i` on: each
/// path is validated against operator tokens, then its value is assigned.
pub open spec fn spec_handle_set_from(
    pairs: Seq<(Seq<char>, SpecValue)>,
    doc: SpecValue,
    i: int,
) -> Result<SpecValue, Error>
    decreases pairs.len() - i,
{
    if i >= pairs.len() {
        Ok(doc)
    } else if spec_path_has_op(spec_split(pairs[i].0)) {
        Err(Error::OperatorNotAllowedInPath)
    } else {
        spec_handle_set_from(pairs, spec_set_path(doc, spec_split(pairs[i].0), 0, pairs[i].1), i
            + 1)
    }
}

/// The `$set` handler: its value must be an object of path/value pairs.
pub open spec fn spec_handle_set(args: SpecValue, doc: SpecValue) -> Result<SpecValue, Error> {
    match args {
        SpecValue::Obj(pairs) => spec_handle_set_from(pairs, doc, 0),
        _ => Err(Error::InvalidValue),
    }
}

/// The `$unset` handler folded over its field pairs from entry `i` on:
/// each path is validated, then removed; the pair's value is ignored.
pub open spec fn spec_handle_unset_from(
    pairs: Seq<(Seq<char>, SpecValue)>,
    doc: SpecValue,
    i: int,
) -> Result<SpecValue, Error>
    decreases pairs.len() - i,
{
    if i >= pairs.len() {
        Ok(doc)
    } else if spec_path_has_op(spec_split(pairs[i].0)) {
        Err(Error::OperatorNotAllowedInPath)
    } else {
        spec_handle_unset_from(pairs, spec_unset_path(doc, spec_split(pairs[i].0), 0), i + 1)
    }
}

/// The `$unset` handler: its value must be an object keyed by the paths
/// to remove.
pub open spec fn spec_handle_unset(args: SpecValue, doc: SpecValue) -> Result<SpecValue, Error> {
    match args {
        SpecValue::Obj(pairs) => spec_handle_unset_from(pairs, doc, 0),
        _ => Err(Error::InvalidValue),
    }
}

/// The shared `$inc`/`$mul` handler folded over its field pairs from
/// entry `i` on: each path is validated, the operand and the target value
/// must both be numeric, and the arithmetic result replaces the field.
pub open spec fn spec_handle_arith_from(
    mul: bool,
    pairs: Seq<(Seq<char>, SpecValue)>,
    doc: SpecValue,
    i: int,
) -> Result<SpecValue, Error>
    decreases pairs.len() - i,
{
    if i >= pairs.len() {
        Ok(doc)
    } else if spec_path_has_op(spec_split(pairs[i].0)) {
        Err(Error::OperatorNotAllowedInPath)
    } else if !spec_is_number(pairs[i].1) {
        Err(Error::InvalidType)
    } else {
        let target = spec_target(doc, pairs[i].0);
        if !spec_is_number(target) {
            Err(Error::InvalidType)
        } else {
            let combined = if mul {
                spec_num_mul(target, pairs[i].1)
            } else {
                spec_num_add(target, pairs[i].1)
            };
            match combined {
                Err(e) => Err(e),
                Ok(nv) => spec_handle_arith_from(
                    mul,
                    pairs,
                    spec_set_path(doc, spec_split(pairs[i].0), 0, nv),
                    i + 1,
                ),
            }
        }
    }
}

/// An `$inc`/`$mul` handler: its value must be an object of path/number
/// pairs.
pub open spec fn spec_handle_arith(mul: bool, args: SpecValue, doc: SpecValue) -> Result<
    SpecValue,
    Error,
> {
    match args {
        SpecValue::Obj(pairs) => spec_handle_arith_from(mul, pairs, doc, 0),
        _ => Err(Error::InvalidValue),
    }
}

/// The operator-mode update folded over the update's entries from entry
/// `i` on: each key dispatches to its handler; unrecognized operator keys
/// are invalid.
pub open spec fn spec_update_entries(
    entries: Seq<(Seq<char>, SpecValue)>,
    doc: SpecValue,
    i: int,
) -> Result<SpecValue, Error>
    decreases entries.len() - i,
{
    if i >= entries.len() {
        Ok(doc)
    } else {
        let step = match spec_parse_update_op(entries[i].0) {
            Some(UpdateOp::Assign) => spec_handle_set(entries[i].1, doc),
            Some(UpdateOp::Unset) => spec_handle_unset(entries[i].1, doc),
            Some(UpdateOp::Inc) => spec_handle_arith(false, entries[i].1, doc),
            Some(UpdateOp::Mul) => spec_handle_arith(true, entries[i].1, doc),
            None => Err(Error::InvalidOperator),
        };
        match step {
            Err(e) => Err(e),
            Ok(nd) => spec_update_entries(entries, nd, i + 1),
        }
    }
}

/// Whether every key of a field list is an operator key.
pub open spec fn spec_all_op_keys(entries: Seq<(Seq<char>, SpecValue)>) -> bool {
    forall|i: int| 0 <= i < entries.len() ==> spec_is_op(#[trigger] entries[i].0)
}

/// Whether some key of a field list is an operator key.
pub open spec fn spec_any_op_key(entries: Seq<(Seq<char>, SpecValue)>) -> bool {
    exists|i: int| 0 <= i < entries.len() && spec_is_op(#[trigger] entries[i].0)
}

/// The classification of an update specification: operator mode when all
/// top-level keys are operator keys (an empty update is a no-op operator
/// update), full replacement when none are, and an error when they mix.
pub open spec fn spec_has_update_operations(u: SpecValue) -> Result<bool, Error> {
    match u {
        SpecValue::Obj(entries) => if spec_all_op_keys(entries) {
            Ok(true)
        } else if spec_any_op_key(entries) {
            Err(Error::InvalidOperator)
        } else {
            Ok(false)
        },
        _ => Err(Error::NotAnObject),
    }
}

/// The document an update specification produces: wholesale replacement
/// by the update itself when no key is an operator key, the operator fold
/// when all are, and an error when they mix or the update is not an
/// object.
pub open spec fn spec_apply_update(update: SpecValue, doc: SpecValue) -> Result<
    SpecValue,
    Error,
> {
    match update {
        SpecValue::Obj(entries) => if spec_all_op_keys(entries) {
            spec_update_entries(entries, doc, 0)
        } else if spec_any_op_key(entries) {
            Err(Error::InvalidOperator)
        } else {
            Ok(update)
        },
        _ => Err(Error::NotAnObject),
    }
}

/// The index of the first field bound to `key`, if any.
fn obj_find(fs: &Vec<(String, Value)>, key: &String) -> (r: Option<usize>)
    ensures
        match r {
            Some(j) => {
                &&& j < fs@.len()
                &&& spec_model_fields(fs@)[j as int].0 == key@
                &&& forall|t: int|
                    0 <= t < j ==> #[trigger] spec_model_fields(fs@)[t].0 != key@
            },
            None => forall|t: int|
                0 <= t < fs@.len() ==> #[trigger] spec_model_fields(fs@)[t].0 != key@,
        },
{
    let ghost m = spec_model_fields(fs@);
    let mut j: usize = 0;
    while j < fs.len()
        invariant
            j <= fs@.len(),
            m == spec_model_fields(fs@),
            m.len() == fs@.len(),
            forall|t: int| 0 <= t < fs@.len() ==> #[trigger] m[t] == spec_model_field(fs@[t]),
            forall|t: int| 0 <= t < j ==> #[trigger] m[t].0 != key@,
        decreases fs@.len() - j,
    {
        if fs[j].0 == *key {
            return Some(j);
        }
        j = j + 1;
    }
    None
}

/// With the first match of `key` at `j`, binding `key` updates entry `j`.
proof fn lemma_obj_set_first_match(
    fs: Seq<(Seq<char>, SpecValue)>,
    key: Seq<char>,
    val: SpecValue,
    j: int,
)
    requires
        0 <= j < fs.len(),
        fs[j].0 == key,
        forall|t: int| 0 <= t < j ==> #[trigger] fs[t].0 != key,
    ensures
        spec_obj_set(fs, key, val) == fs.update(j, (key, val)),
{
    lemma_obj_set_from_first_match(fs, key, val, 0, j);
}

proof fn lemma_obj_set_from_first_match(
    fs: Seq<(Seq<char>, SpecValue)>,
    key: Seq<char>,
    val: SpecValue,
    i: int,
    j: int,
)
    requires
        0 <= i <= j < fs.len(),
        fs[j].0 == key,
        forall|t: int| i <= t < j ==> #[trigger] fs[t].0 != key,
    ensures
        spec_obj_set_from(fs, key, val, i) == fs.update(j, (key, val)),
    decreases j - i,
{
    if i < j {
        lemma_obj_set_from_first_match(fs, key, val, i + 1, j);
    }
}

/// With no match of `key`, binding `key` appends at the end.
proof fn lemma_obj_set_no_match(fs: Seq<(Seq<char>, SpecValue)>, key: Seq<char>, val: SpecValue)
    requires
        forall|t: int| 0 <= t < fs.len() ==> #[trigger] fs[t].0 != key,
    ensures
        spec_obj_set(fs, key, val) == fs.push((key, val)),
{
    lemma_obj_set_from_no_match(fs, key, val, 0);
}

proof fn lemma_obj_set_from_no_match(
    fs: Seq<(Seq<char>, SpecValue)>,
    key: Seq<char>,
    val: SpecValue,
    i: int,
)
    requires
        0 <= i <= fs.len(),
        forall|t: int| i <= t < fs.len() ==> #[trigger] fs[t].0 != key,
    ensures
        spec_obj_set_from(fs, key, val, i) == fs.push((key, val)),
    decreases fs.len() - i,
{
    if i < fs.len() {
        lemma_obj_set_from_no_match(fs, key, val, i + 1);
    }
}

/// With the first match of `key` at `j`, removing `key` removes entry `j`.
proof fn lemma_obj_remove_first_match(fs: Seq<(Seq<char>, SpecValue)>, key: Seq<char>, j: int)
    requires
        0 <= j < fs.len(),
        fs[j].0 == key,
        forall|t: int| 0 <= t < j ==> #[trigger] fs[t].0 != key,
    ensures
        spec_obj_remove(fs, key) == fs.remove(j),
{
    lemma_obj_remove_from_first_match(fs, key, 0, j);
}

proof fn lemma_obj_remove_from_first_match(
    fs: Seq<(Seq<char>, SpecValue)>,
    key: Seq<char>,
    i: int,
    j: int,
)
    requires
        0 <= i <= j < fs.len(),
        fs[j].0 == key,
        forall|t: int| i <= t < j ==> #[trigger] fs[t].0 != key,
    ensures
        spec_obj_remove_from(fs, key, i) == fs.remove(j),
    decreases j - i,
{
    if i < j {
        lemma_obj_remove_from_first_match(fs, key, i + 1, j);
    }
}

/// With no match of `key`, removing `key` changes nothing.
proof fn lemma_obj_remove_no_match(fs: Seq<(Seq<char>, SpecValue)>, key: Seq<char>)
    requires
        forall|t: int| 0 <= t < fs.len() ==> #[trigger] fs[t].0 != key,
    ensures
        spec_obj_remove(fs, key) == fs,
{
    lemma_obj_remove_from_no_match(fs, key, 0);
}

proof fn lemma_obj_remove_from_no_match(fs: Seq<(Seq<char>, SpecValue)>, key: Seq<char>, i: int)
    requires
        0 <= i <= fs.len(),
        forall|t: int| i <= t < fs.len() ==> #[trigger] fs[t].0 != key,
    ensures
        spec_obj_remove_from(fs, key, i) == fs,
    decreases fs.len() - i,
{
    if i < fs.len() {
        lemma_obj_remove_from_no_match(fs, key, i + 1);
    }
}

/// With the first match of `key` at `j`, lookup returns entry `j`'s value.
proof fn lemma_obj_get_first_match(fs: Seq<(Seq<char>, SpecValue)>, key: Seq<char>, j: int)
    requires
        0 <= j < fs.len(),
        fs[j].0 == key,
        forall|t: int| 0 <= t < j ==> #[trigger] fs[t].0 != key,
    ensures
        spec_obj_get(fs, key) == Some(fs[j].1),
{
    lemma_obj_get_from_first_match(fs, key, 0, j);
}

proof fn lemma_obj_get_from_first_match(
    fs: Seq<(Seq<char>, SpecValue)>,
    key: Seq<char>,
    i: int,
    j: int,
)
    requires
        0 <= i <= j < fs.len(),
        fs[j].0 == key,
        forall|t: int| i <= t < j ==> #[trigger] fs[t].0 != key,
    ensures
        spec_obj_get_from(fs, key, i) == Some(fs[j].1),
    decreases j - i,
{
    if i < j {
        lemma_obj_get_from_first_match(fs, key, i + 1, j);
    }
}

/// With no match of `key`, lookup finds nothing.
proof fn lemma_obj_get_no_match(fs: Seq<(Seq<char>, SpecValue)>, key: Seq<char>)
    requires
        forall|t: int| 0 <= t < fs.len() ==> #[trigger] fs[t].0 != key,
    ensures
        spec_obj_get(fs, key) is None,
{
    lemma_obj_get_from_no_match(fs, key, 0);
}

proof fn lemma_obj_get_from_no_match(fs: Seq<(Seq<char>, SpecValue)>, key: Seq<char>, i: int)
    requires
        0 <= i <= fs.len(),
        forall|t: int| i <= t < fs.len() ==> #[trigger] fs[t].0 != key,
    ensures
        spec_obj_get_from(fs, key, i) is None,
    decreases fs.len() - i,
{
    if i < fs.len() {
        lemma_obj_get_from_no_match(fs, key, i + 1);
    }
}

/// Every key's split has at least one segment.
pub proof fn lemma_split_nonempty(k: Seq<char>)
    ensures
        spec_split(k).len() >= 1,
{
    lemma_split_from_nonempty(k, 0, 0);
}

proof fn lemma_split_from_nonempty(k: Seq<char>, start: int, i: int)
    ensures
        crate::utils::spec_split_from(k, start, i).len() >= 1,
    decreases k.len() - i,
{
    if i < k.len() {
        if k[i] == '.' {
            lemma_split_from_nonempty(k, i + 1, i + 1);
        } else {
            lemma_split_from_nonempty(k, start, i + 1);
        }
    }
}

/// Assign `val` at the dotted path, from segment `i` on, descending and
/// creating intermediate objects as needed.
fn set_doc_value(document: &mut Value, path: &Vec<String>, i: usize, new_value: Value)
    requires
        i < path@.len(),
    ensures
        final(document)@ == spec_set_path(
            old(document)@,
            spec_str_views(path@),
            i as int,
            new_value@,
        ),
    decreases path@.len() - i,
{
    let ghost p = spec_str_views(path@);
    let ghost doc0 = document@;
    if !document.is_object() {
        *document = Value::Obj(Vec::new());
        proof {
            assert(spec_model_fields(Seq::<(String, Value)>::empty()) =~= Seq::<
                (Seq<char>, SpecValue),
            >::empty());
        }
    }
    match document {
        Value::Obj(fs) => {
            let ghost m = spec_model_fields(fs@);
            proof {
                assert(forall|t: int|
                    0 <= t < fs@.len() ==> #[trigger] m[t] == spec_model_field(fs@[t]));
                assert(p[i as int] == path@[i as int]@);
            }
            let last = i == path.len() - 1;
            let found = obj_find(fs, &path[i]);
            if last {
                match found {
                    Some(j) => {
                        let ghost old_fs = fs@;
                        let elem = &mut fs[j];
                        *elem = (path[i].clone(), new_value);
                        proof {
                            lemma_obj_set_first_match(
                                spec_model_fields(old_fs),
                                p[i as int],
                                new_value@,
                                j as int,
                            );
                            assert(spec_model_fields(fs@) =~= spec_model_fields(
                                old_fs,
                            ).update(j as int, (p[i as int], new_value@)));
                        }
                    },
                    None => {
                        let ghost old_fs = fs@;
                        fs.push((path[i].clone(), new_value));
                        proof {
                            lemma_obj_set_no_match(
                                spec_model_fields(old_fs),
                                p[i as int],
                                new_value@,
                            );
                            assert(spec_model_fields(fs@) =~= spec_model_fields(old_fs).push(
                                (p[i as int], new_value@),
                            ));
                        }
                    },
                }
            } else {
                match found {
                    Some(j) => {
                        let ghost old_fs = fs@;
                        let ghost child0 = old_fs[j as int].1@;
                        proof {
                            lemma_obj_get_first_match(
                                spec_model_fields(old_fs),
                                p[i as int],
                                j as int,
                            );
                        }
                        let elem = &mut fs[j];
                        set_doc_value(&mut elem.1, path, i + 1, new_value);
                        proof {
                            lemma_obj_set_first_match(
                                spec_model_fields(old_fs),
                                p[i as int],
                                spec_set_path(child0, p, i as int + 1, new_value@),
                                j as int,
                            );
                            assert(spec_model_fields(fs@) =~= spec_model_fields(
                                old_fs,
                            ).update(
                                j as int,
                                (p[i as int], spec_set_path(child0, p, i as int + 1, new_value@)),
                            ));
                        }
                    },
                    None => {
                        let ghost old_fs = fs@;
                        proof {
                            lemma_obj_get_no_match(spec_model_fields(old_fs), p[i as int]);
                        }
                        fs.push((path[i].clone(), Value::Null));
                        let j = fs.len() - 1;
                        let elem = &mut fs[j];
                        set_doc_value(&mut elem.1, path, i + 1, new_value);
                        proof {
                            lemma_obj_set_no_match(
                                spec_model_fields(old_fs),
                                p[i as int],
                                spec_set_path(SpecValue::Null, p, i as int + 1, new_value@),
                            );
                            assert(spec_model_fields(fs@) =~= spec_model_fields(old_fs).push(
                                (p[i as int], spec_set_path(SpecValue::Null, p, i as int + 1,
                                new_value@)),
                            ));
                        }
                    },
                }
            }
        },
        _ => {
            proof {
                assert(false);
            }
        },
    }
}

/// Remove the field at the dotted path, from segment `i` on: a missing
/// intermediate or terminal field is a silent no-op, and nothing is
/// created.
fn unset_doc_value(document: &mut Value, path: &Vec<String>, i: usize)
    requires
        i < path@.len(),
    ensures
        final(document)@ == spec_unset_path(old(document)@, spec_str_views(path@), i as int),
    decreases path@.len() - i,
{
    let ghost p = spec_str_views(path@);
    match document {
        Value::Obj(fs) => {
            let ghost m = spec_model_fields(fs@);
            proof {
                assert(forall|t: int|
                    0 <= t < fs@.len() ==> #[trigger] m[t] == spec_model_field(fs@[t]));
                assert(p[i as int] == path@[i as int]@);
            }
            let last = i == path.len() - 1;
            let found = obj_find(fs, &path[i]);
            if last {
                match found {
                    Some(j) => {
                        let ghost old_fs = fs@;
                        fs.remove(j);
                        proof {
                            lemma_obj_remove_first_match(
                                spec_model_fields(old_fs),
                                p[i as int],
                                j as int,
                            );
                            assert(spec_model_fields(fs@) =~= spec_model_fields(
                                old_fs,
                            ).remove(j as int));
                        }
                    },
                    None => {
                        proof {
                            lemma_obj_remove_no_match(spec_model_fields(fs@), p[i as int]);
                            assert(spec_obj_remove(spec_model_fields(fs@), p[i as int])
                                =~= spec_model_fields(fs@));
                        }
                    },
                }
            } else {
                match found {
                    Some(j) => {
                        let ghost old_fs = fs@;
                        let ghost child0 = old_fs[j as int].1@;
                        proof {
                            lemma_obj_get_first_match(
                                spec_model_fields(old_fs),
                                p[i as int],
                                j as int,
                            );
                        }
                        let elem = &mut fs[j];
                        unset_doc_value(&mut elem.1, path, i + 1);
                        proof {
                            lemma_obj_set_first_match(
                                spec_model_fields(old_fs),
                                p[i as int],
                                spec_unset_path(child0, p, i as int + 1),
                                j as int,
                            );
                            assert(spec_model_fields(fs@) =~= spec_model_fields(
                                old_fs,
                            ).update(
                                j as int,
                                (p[i as int], spec_unset_path(child0, p, i as int + 1)),
                            ));
                        }
                    },
                    None => {
                        proof {
                            lemma_obj_get_no_match(spec_model_fields(fs@), p[i as int]);
                        }
                    },
                }
            }
        },
        _ => {},
    }
}

/// Apply the `$set` handler: assign each path/value pair of `args` into
/// the document, rejecting paths that contain operator tokens.
fn handle_set(args: &Value, document: &mut Value) -> (r: Result<(), Error>)
    ensures
        match spec_handle_set(args@, old(document)@) {
            Ok(nd) => r is Ok && final(document)@ == nd,
            Err(e) => r == Err::<(), Error>(e),
        },
{
    let pairs: &Vec<(String, Value)> = match args {
        Value::Obj(pairs) => pairs,
        _ => {
            return Err(Error::InvalidValue);
        },
    };
    let ghost m = spec_model_fields(pairs@);
    let ghost doc0 = document@;
    let mut i: usize = 0;
    while i < pairs.len()
        invariant
            i <= pairs@.len(),
            doc0 == old(document)@,
            args@ == SpecValue::Obj(m),
            m == spec_model_fields(pairs@),
            m.len() == pairs@.len(),
            forall|t: int| 0 <= t < pairs@.len() ==> #[trigger] m[t] == spec_model_field(
                pairs@[t],
            ),
            spec_handle_set_from(m, doc0, 0) == spec_handle_set_from(m, document@, i as int),
        decreases pairs@.len() - i,
    {
        proof {
            assert(m[i as int] == spec_model_field(pairs@[i as int]));
            assert(m[i as int].0 == pairs@[i as int].0@);
            assert(m[i as int].1 == pairs@[i as int].1@);
        }
        let segs = split_key(pairs[i].0.as_str());
        if path_has_op(&segs) {
            return Err(Error::OperatorNotAllowedInPath);
        }
        proof {
            lemma_split_nonempty(pairs@[i as int].0@);
        }
        let val = deep_copy(&pairs[i].1);
        set_doc_value(document, &segs, 0, val);
        i = i + 1;
    }
    Ok(())
}

/// Apply the `$unset` handler: remove each path keyed in `args`, the
/// pair's value ignored; missing paths are a silent no-op.
fn handle_unset(args: &Value, document: &mut Value) -> (r: Result<(), Error>)
    ensures
        match spec_handle_unset(args@, old(document)@) {
            Ok(nd) => r is Ok && final(document)@ == nd,
            Err(e) => r == Err::<(), Error>(e),
        },
{
    let pairs: &Vec<(String, Value)> = match args {
        Value::Obj(pairs) => pairs,
        _ => {
            return Err(Error::InvalidValue);
        },
    };
    let ghost m = spec_model_fields(pairs@);
    let ghost doc0 = document@;
    let mut i: usize = 0;
    while i < pairs.len()
        invariant
            i <= pairs@.len(),
            doc0 == old(document)@,
            args@ == SpecValue::Obj(m),
            m == spec_model_fields(pairs@),
            m.len() == pairs@.len(),
            forall|t: int| 0 <= t < pairs@.len() ==> #[trigger] m[t] == spec_model_field(
                pairs@[t],
            ),
            spec_handle_unset_from(m, doc0, 0) == spec_handle_unset_from(
                m,
                document@,
                i as int,
            ),
        decreases pairs@.len() - i,
    {
        proof {
            assert(m[i as int] == spec_model_field(pairs@[i as int]));
            assert(m[i as int].0 == pairs@[i as int].0@);
            assert(m[i as int].1 == pairs@[i as int].1@);
        }
        let segs = split_key(pairs[i].0.as_str());
        if path_has_op(&segs) {
            return Err(Error::OperatorNotAllowedInPath);
        }
        proof {
            lemma_split_nonempty(pairs@[i as int].0@);
        }
        unset_doc_value(document, &segs, 0);
        i = i + 1;
    }
    Ok(())
}

/// Apply the shared `$inc`/`$mul` handler: for each path/operand pair the
/// operand and the current target value must be numeric, and their sum or
/// product, in the narrowest common representation, replaces the field.
fn handle_arith(mul: bool, args: &Value, document: &mut Value) -> (r: Result<(), Error>)
    ensures
        match spec_handle_arith(mul, args@, old(document)@) {
            Ok(nd) => r is Ok && final(document)@ == nd,
            Err(e) => r == Err::<(), Error>(e),
        },
{
    let pairs: &Vec<(String, Value)> = match args {
        Value::Obj(pairs) => pairs,
        _ => {
            return Err(Error::InvalidValue);
        },
    };
    let ghost m = spec_model_fields(pairs@);
    let ghost doc0 = document@;
    let mut i: usize = 0;
    while i < pairs.len()
        invariant
            i <= pairs@.len(),
            doc0 == old(document)@,
            args@ == SpecValue::Obj(m),
            m == spec_model_fields(pairs@),
            m.len() == pairs@.len(),
            forall|t: int| 0 <= t < pairs@.len() ==> #[trigger] m[t] == spec_model_field(
                pairs@[t],
            ),
            spec_handle_arith_from(mul, m, doc0, 0) == spec_handle_arith_from(
                mul,
                m,
                document@,
                i as int,
            ),
        decreases pairs@.len() - i,
    {
        proof {
            assert(m[i as int] == spec_model_field(pairs@[i as int]));
            assert(m[i as int].0 == pairs@[i as int].0@);
            assert(m[i as int].1 == pairs@[i as int].1@);
        }
        let segs = split_key(pairs[i].0.as_str());
        if path_has_op(&segs) {
            return Err(Error::OperatorNotAllowedInPath);
        }
        if !pairs[i].1.is_number() {
            return Err(Error::InvalidType);
        }
        let target = get_document_value(pairs[i].0.as_str(), document);
        if !target.is_number() {
            return Err(Error::InvalidType);
        }
        let combined = if mul {
            num_mul(&target, &pairs[i].1)
        } else {
            num_add(&target, &pairs[i].1)
        };
        let nv = match combined {
            Ok(nv) => nv,
            Err(e) => {
                return Err(e);
            },
        };
        proof {
            lemma_split_nonempty(pairs@[i as int].0@);
        }
        set_doc_value(document, &segs, 0, nv);
        i = i + 1;
    }
    Ok(())
}

/// Classify an update specification: `Ok(true)` when every top-level key
/// is an update operator key, `Ok(false)` when none is (a full-document
/// replacement), and an error when operator and literal keys mix or the
/// update is not an object.
pub fn has_update_operations(update: &Value) -> (r: Result<bool, Error>)
    ensures
        r == spec_has_update_operations(update@),
{
    let entries: &Vec<(String, Value)> = match update {
        Value::Obj(entries) => entries,
        _ => {
            return Err(Error::NotAnObject);
        },
    };
    let ghost m = spec_model_fields(entries@);
    let mut all_ops = true;
    let mut any_ops = false;
    let mut i: usize = 0;
    while i < entries.len()
        invariant
            i <= entries@.len(),
            update@ == SpecValue::Obj(m),
            m == spec_model_fields(entries@),
            m.len() == entries@.len(),
            forall|t: int| 0 <= t < entries@.len() ==> #[trigger] m[t] == spec_model_field(
                entries@[t],
            ),
            all_ops == (forall|t: int| 0 <= t < i ==> spec_is_op(#[trigger] m[t].0)),
            any_ops == (exists|t: int| 0 <= t < i && spec_is_op(#[trigger] m[t].0)),
        decreases entries@.len() - i,
    {
        proof {
            assert(m[i as int] == spec_model_field(entries@[i as int]));
            assert(m[i as int].0 == entries@[i as int].0@);
        }
        let k_is_op = crate::utils::is_op(entries[i].0.as_str());
        all_ops = all_ops && k_is_op;
        any_ops = any_ops || k_is_op;
        i = i + 1;
    }
    if all_ops {
        Ok(true)
    } else if any_ops {
        Err(Error::InvalidOperator)
    } else {
        Ok(false)
    }
}

/// Run the operator-mode update: dispatch each update key to its handler.
fn perform_update_operations(update: &Value, document: &mut Value) -> (r: Result<(), Error>)
    requires
        update@ is Obj,
    ensures
        match spec_update_entries(update@->Obj_0, old(document)@, 0) {
            Ok(nd) => r is Ok && final(document)@ == nd,
            Err(e) => r == Err::<(), Error>(e) && final(document)@ == old(document)@,
        },
{
    let entries: &Vec<(String, Value)> = match update {
        Value::Obj(entries) => entries,
        _ => {
            proof {
                assert(false);
            }
            return Err(Error::NotAnObject);
        },
    };
    let ghost m = spec_model_fields(entries@);
    let ghost doc0 = document@;
    let mut work = deep_copy(document);
    let mut i: usize = 0;
    while i < entries.len()
        invariant
            i <= entries@.len(),
            update@ == SpecValue::Obj(m),
            m == spec_model_fields(entries@),
            m.len() == entries@.len(),
            forall|t: int| 0 <= t < entries@.len() ==> #[trigger] m[t] == spec_model_field(
                entries@[t],
            ),
            document@ == doc0,
            spec_update_entries(m, doc0, 0) == spec_update_entries(m, work@, i as int),
        decreases entries@.len() - i,
    {
        proof {
            assert(m[i as int] == spec_model_field(entries@[i as int]));
            assert(m[i as int].0 == entries@[i as int].0@);
            assert(m[i as int].1 == entries@[i as int].1@);
        }
        let step = match parse_update_op(entries[i].0.as_str()) {
            Some(UpdateOp::Assign) => handle_set(&entries[i].1, &mut work),
            Some(UpdateOp::Unset) => handle_unset(&entries[i].1, &mut work),
            Some(UpdateOp::Inc) => handle_arith(false, &entries[i].1, &mut work),
            Some(UpdateOp::Mul) => handle_arith(true, &entries[i].1, &mut work),
            None => {
                return Err(Error::InvalidOperator);
            },
        };
        if let Err(e) = step {
            return Err(e);
        }
        i = i + 1;
    }
    *document = work;
    Ok(())
}

/// Apply an update specification to a document.
///
/// An update that is not an object is rejected with `NotAnObject`.  When
/// no top-level key is an operator key the document is replaced wholesale
/// by the update; when all are, each operator is applied in order; mixed
/// keys are rejected with `InvalidOperator`.  On any error the document
/// is left unchanged.
pub fn apply_update(update: &Value, document: &mut Value) -> (r: Result<(), Error>)
    ensures
        match spec_apply_update(update@, old(document)@) {
            Ok(nd) => r is Ok && final(document)@ == nd,
            Err(e) => r == Err::<(), Error>(e) && final(document)@ == old(document)@,
        },
{
    match has_update_operations(update) {
        Err(e) => Err(e),
        Ok(true) => perform_update_operations(update, document),
        Ok(false) => {
            *document = deep_copy(update);
            Ok(())
        },
    }
}

/// Law: an update whose keys are all literal (none an operator key)
/// replaces the document wholesale.
pub proof fn lemma_full_replace(update: SpecValue, doc: SpecValue)
    requires
        update is Obj,
        update->Obj_0.len() > 0,
        forall|i: int|
            0 <= i < update->Obj_0.len() ==> !spec_is_op((#[trigger] update->Obj_0[i]).0),
    ensures
        spec_apply_update(update, doc) == Ok::<SpecValue, Error>(update),
{
    assert(!spec_is_op(update->Obj_0[0].0));
    assert(!spec_all_op_keys(update->Obj_0));
    assert(!spec_any_op_key(update->Obj_0));
}

/// Law: a `$set` of one dot-free field merges only that field: the result
/// is the document with exactly that binding overwritten or appended.
pub proof fn lemma_set_merges_field(
    key: Seq<char>,
    v: SpecValue,
    fs: Seq<(Seq<char>, SpecValue)>,
)
    requires
        forall|i: int| 0 <= i < key.len() ==> key[i] != '.',
        !spec_is_op(key),
    ensures
        spec_apply_update(
            SpecValue::Obj(seq![("$set"@, SpecValue::Obj(seq![(key, v)]))]),
            SpecValue::Obj(fs),
        ) == Ok::<SpecValue, Error>(SpecValue::Obj(spec_obj_set(fs, key, v))),
{
    reveal_strlit("$set");
    let entries = seq![("$set"@, SpecValue::Obj(seq![(key, v)]))];
    assert(entries[0].0 == "$set"@);
    assert(spec_is_op("$set"@)) by {
        assert("$set"@.len() == 4);
        assert("$set"@[0] == '$');
    }
    assert(spec_all_op_keys(entries));
    crate::utils::lemma_split_no_dot(key);
    let pairs = seq![(key, v)];
    assert(pairs[0] == (key, v));
    assert(!spec_path_has_op(spec_split(key))) by {
        assert(spec_split(key) == seq![key]);
        assert(seq![key][0] == key);
        assert(seq![key].len() == 1);
    }
    let p = spec_split(key);
    assert(p.len() == 1 && p[0] == key);
    assert(spec_set_path(SpecValue::Obj(fs), p, 0, v) == SpecValue::Obj(
        spec_obj_set(fs, key, v),
    ));
    assert(spec_handle_set_from(pairs, SpecValue::Obj(spec_obj_set(fs, key, v)), 1)
        == Ok::<SpecValue, Error>(SpecValue::Obj(spec_obj_set(fs, key, v))));
    assert(spec_handle_set_from(pairs, SpecValue::Obj(fs), 0) == Ok::<SpecValue, Error>(
        SpecValue::Obj(spec_obj_set(fs, key, v)),
    ));
    assert(entries[0].1 == SpecValue::Obj(pairs));
    assert(spec_parse_update_op("$set"@) == Some(UpdateOp::Assign));
    assert(spec_handle_set(entries[0].1, SpecValue::Obj(fs)) == Ok::<SpecValue, Error>(
        SpecValue::Obj(spec_obj_set(fs, key, v)),
    ));
    assert(spec_update_entries(entries, SpecValue::Obj(spec_obj_set(fs, key, v)), 1)
        == Ok::<SpecValue, Error>(SpecValue::Obj(spec_obj_set(fs, key, v))));
    assert(spec_update_entries(entries, SpecValue::Obj(fs), 0) == Ok::<SpecValue, Error>(
        SpecValue::Obj(spec_obj_set(fs, key, v)),
    ));
}

/// Law: an update that mixes an operator key with a literal key is
/// rejected.
pub proof fn lemma_mixed_update_rejected(update: SpecValue, doc: SpecValue, i: int, j: int)
    requires
        update is Obj,
        0 <= i < update->Obj_0.len(),
        0 <= j < update->Obj_0.len(),
        spec_is_op(update->Obj_0[i].0),
        !spec_is_op(update->Obj_0[j].0),
    ensures
        spec_apply_update(update, doc) == Err::<SpecValue, Error>(Error::InvalidOperator),
{
    assert(!spec_all_op_keys(update->Obj_0));
    assert(spec_any_op_key(update->Obj_0));
}

/// Whether the dotted path reaches an existing field, from segment `i` on.
pub open spec fn spec_path_present(doc: SpecValue, path: Seq<Seq<char>>, i: int) -> bool
    decreases path.len() - i,
{
    if i >= path.len() {
        true
    } else {
        match doc {
            SpecValue::Obj(fs) => match spec_obj_get(fs, path[i]) {
                Some(child) => spec_path_present(child, path, i + 1),
                None => false,
            },
            _ => false,
        }
    }
}

/// Whether a field list binds each key at most once.
pub open spec fn spec_keys_unique(fs: Seq<(Seq<char>, SpecValue)>) -> bool {
    forall|p: int, q: int|
        0 <= p < q < fs.len() ==> (#[trigger] fs[p]).0 != (#[trigger] fs[q]).0
}

/// Well-formedness of a value: every object in it binds each key at most
/// once.
pub open spec fn spec_wf(v: SpecValue) -> bool
    decreases v, 0int,
{
    match v {
        SpecValue::Obj(fs) => spec_keys_unique(fs) && spec_wf_pairs(fs, 0),
        SpecValue::Arr(s) => spec_wf_list(s, 0),
        _ => true,
    }
}

/// Well-formedness of every field value from entry `i` on.
pub open spec fn spec_wf_pairs(fs: Seq<(Seq<char>, SpecValue)>, i: int) -> bool
    decreases fs, fs.len() - i,
        when 0 <= i
    via spec_wf_pairs_dec
{
    if i >= fs.len() {
        true
    } else {
        spec_wf(fs[i].1) && spec_wf_pairs(fs, i + 1)
    }
}

#[via_fn]
proof fn spec_wf_pairs_dec(fs: Seq<(Seq<char>, SpecValue)>, i: int) {
    if 0 <= i < fs.len() {
        assert(decreases_to!(fs => fs[i]));
        assert(decreases_to!(fs[i] => fs[i].1));
    }
}

/// Well-formedness of every element from index `i` on.
pub open spec fn spec_wf_list(s: Seq<SpecValue>, i: int) -> bool
    decreases s, s.len() - i,
        when 0 <= i
    via spec_wf_list_dec
{
    if i >= s.len() {
        true
    } else {
        spec_wf(s[i]) && spec_wf_list(s, i + 1)
    }
}

#[via_fn]
proof fn spec_wf_list_dec(s: Seq<SpecValue>, i: int) {
    if 0 <= i < s.len() {
        assert(decreases_to!(s => s[i]));
    }
}

/// The index of the first field bound to `key` at or after `i`, or -1.
pub open spec fn spec_first_match(fs: Seq<(Seq<char>, SpecValue)>, key: Seq<char>, i: int)
    -> int
    decreases fs.len() - i,
{
    if i >= fs.len() {
        -1
    } else if fs[i].0 == key {
        i
    } else {
        spec_first_match(fs, key, i + 1)
    }
}

proof fn lemma_first_match_props(fs: Seq<(Seq<char>, SpecValue)>, key: Seq<char>, i: int)
    requires
        0 <= i <= fs.len(),
    ensures
        ({
            let j = spec_first_match(fs, key, i);
            &&& (j == -1 || i <= j < fs.len())
            &&& (j != -1 ==> fs[j].0 == key && (forall|t: int| i <= t < j ==> fs[t].0 != key))
            &&& (j == -1 ==> (forall|t: int| i <= t < fs.len() ==> fs[t].0 != key))
        }),
    decreases fs.len() - i,
{
    if i < fs.len() && fs[i].0 != key {
        lemma_first_match_props(fs, key, i + 1);
    }
}

proof fn lemma_wf_pairs_index(fs: Seq<(Seq<char>, SpecValue)>, i: int, t: int)
    requires
        0 <= i <= t < fs.len(),
        spec_wf_pairs(fs, i),
    ensures
        spec_wf(fs[t].1),
    decreases t - i,
{
    if i < t {
        lemma_wf_pairs_index(fs, i + 1, t);
    }
}

/// Law: unsetting a path that reaches no existing field is a silent
/// no-op: the document is unchanged, never an error.
pub proof fn lemma_unset_absent_noop(doc: SpecValue, path: Seq<Seq<char>>, i: int)
    requires
        0 <= i,
        !spec_path_present(doc, path, i),
    ensures
        spec_unset_path(doc, path, i) == doc,
    decreases path.len() - i,
{
    if i < path.len() {
        match doc {
            SpecValue::Obj(fs) => {
                let key = path[i];
                let j = spec_first_match(fs, key, 0);
                lemma_first_match_props(fs, key, 0);
                if j == -1 {
                    lemma_obj_get_no_match(fs, key);
                    if i == path.len() - 1 {
                        lemma_obj_remove_no_match(fs, key);
                    }
                } else {
                    lemma_obj_get_first_match(fs, key, j);
                    let child = fs[j].1;
                    if i == path.len() - 1 {
                        assert(spec_path_present(child, path, i + 1));
                        assert(spec_path_present(doc, path, i));
                    }
                    assert(i != path.len() - 1);
                    lemma_unset_absent_noop(child, path, i + 1);
                    lemma_obj_set_first_match(fs, key, child, j);
                    assert(fs.update(j, (key, child)) =~= fs);
                }
            },
            _ => {},
        }
    }
}

/// The first unset of a path removes or keeps bindings so that the
/// resulting object still binds each key at most once, and the path's
/// terminal is no longer reachable: a second unset changes nothing.
pub proof fn lemma_unset_idempotent(doc: SpecValue, path: Seq<Seq<char>>, i: int)
    requires
        0 <= i,
        spec_wf(doc),
    ensures
        spec_unset_path(spec_unset_path(doc, path, i), path, i) == spec_unset_path(
            doc,
            path,
            i,
        ),
    decreases path.len() - i,
{
    if i < path.len() {
        match doc {
            SpecValue::Obj(fs) => {
                let key = path[i];
                let j = spec_first_match(fs, key, 0);
                lemma_first_match_props(fs, key, 0);
                if i == path.len() - 1 {
                    if j == -1 {
                        lemma_obj_get_no_match(fs, key);
                        lemma_obj_remove_no_match(fs, key);
                        lemma_obj_remove_no_match(fs, key);
                    } else {
                        lemma_obj_remove_first_match(fs, key, j);
                        let fs2 = fs.remove(j);
                        assert forall|t: int| 0 <= t < fs2.len() implies fs2[t].0 != key by {
                            if t < j {
                                assert(fs2[t] == fs[t]);
                            } else {
                                assert(fs2[t] == fs[t + 1]);
                                assert(fs[j].0 != fs[t + 1].0);
                            }
                        }
                        lemma_obj_remove_no_match(fs2, key);
                    }
                } else {
                    if j == -1 {
                        lemma_obj_get_no_match(fs, key);
                    } else {
                        lemma_obj_get_first_match(fs, key, j);
                        let child = fs[j].1;
                        assert(spec_wf(child)) by {
                            lemma_wf_pairs_index(fs, 0, j);
                        }
                        let child2 = spec_unset_path(child, path, i + 1);
                        lemma_obj_set_first_match(fs, key, child2, j);
                        let fs2 = fs.update(j, (key, child2));
                        assert(spec_unset_path(doc, path, i) == SpecValue::Obj(fs2));
                        assert forall|t: int| 0 <= t < fs2.len() implies (#[trigger] fs2[t]).0
                            == fs[t].0 by {}
                        assert(spec_first_match(fs2, key, 0) == j) by {
                            lemma_first_match_same_keys(fs, fs2, key, 0);
                        }
                        lemma_first_match_props(fs2, key, 0);
                        lemma_obj_get_first_match(fs2, key, j);
                        assert(spec_obj_get(fs2, key) == Some(child2));
                        lemma_unset_idempotent(child, path, i + 1);
                        assert(spec_unset_path(child2, path, i + 1) == child2);
                        lemma_obj_set_first_match(fs2, key, child2, j);
                        assert(fs2.update(j, (key, child2)) =~= fs2);
                    }
                }
            },
            _ => {},
        }
    }
}

proof fn lemma_first_match_same_keys(
    fs: Seq<(Seq<char>, SpecValue)>,
    fs2: Seq<(Seq<char>, SpecValue)>,
    key: Seq<char>,
    i: int,
)
    requires
        0 <= i <= fs.len(),
        fs.len() == fs2.len(),
        forall|t: int| 0 <= t < fs.len() ==> (#[trigger] fs2[t]).0 == fs[t].0,
    ensures
        spec_first_match(fs2, key, i) == spec_first_match(fs, key, i),
    decreases fs.len() - i,
{
    if i < fs.len() && fs[i].0 != key {
        lemma_first_match_same_keys(fs, fs2, key, i + 1);
    }
}

} // verus!
