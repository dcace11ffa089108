//! Operator vocabulary and path utilities: classification of operator
//! tokens, detection of comparison-operator objects, and splitting of
//! dotted (embedded) path keys.

use vstd::prelude::*;

use crate::errors::Error;
use crate::value::{SpecValue, Value};

verus! {

broadcast use vstd::seq::group_seq_axioms;

/// A comparison operator token.
#[derive(Debug, Clone, Copy, PartialEq, Eq, Structural)]
pub enum CmpOp {
    Eq,
    Gt,
    Gte,
    Lt,
    Lte,
    Ne,
    In,
    Nin,
}

/// A logical operator token.
#[derive(Debug, Clone, Copy, PartialEq, Eq, Structural)]
pub enum LogOp {
    And,
    Or,
}

/// An update operator token.
#[derive(Debug, Clone, Copy, PartialEq, Eq, Structural)]
pub enum UpdateOp {
    Assign,
    Unset,
    Inc,
    Mul,
}

/// Whether a key is an operator key: it begins with the operator sigil.
pub open spec fn spec_is_op(k: Seq<char>) -> bool {
    k.len() > 0 && k[0] == '$'
}

/// The comparison operator a key names, if any.
pub open spec fn spec_parse_cmp_op(k: Seq<char>) -> Option<CmpOp> {
    if k == "$eq"@ {
        Some(CmpOp::Eq)
    } else if k == "$gt"@ {
        Some(CmpOp::Gt)
    } else if k == "$gte"@ {
        Some(CmpOp::Gte)
    } else if k == "$lt"@ {
        Some(CmpOp::Lt)
    } else if k == "$lte"@ {
        Some(CmpOp::Lte)
    } else if k == "$ne"@ {
        Some(CmpOp::Ne)
    } else if k == "$in"@ {
        Some(CmpOp::In)
    } else if k == "$nin"@ {
        Some(CmpOp::Nin)
    } else {
        None
    }
}

/// The logical operator a key names, if any.
pub open spec fn spec_parse_log_op(k: Seq<char>) -> Option<LogOp> {
    if k == "$and"@ {
        Some(LogOp::And)
    } else if k == "$or"@ {
        Some(LogOp::Or)
    } else {
        None
    }
}

/// The update operator a key names, if any.
pub open spec fn spec_parse_update_op(k: Seq<char>) -> Option<UpdateOp> {
    if k == "$set"@ {
        Some(UpdateOp::Assign)
    } else if k == "$unset"@ {
        Some(UpdateOp::Unset)
    } else if k == "$inc"@ {
        Some(UpdateOp::Inc)
    } else if k == "$mul"@ {
        Some(UpdateOp::Mul)
    } else {
        None
    }
}

/// The segments of a key from scan position `i` on, with `start` marking
/// where the current segment began.  Splitting is purely syntactic: each
/// `.` ends a segment.
pub open spec fn spec_split_from(k: Seq<char>, start: int, i: int) -> Seq<Seq<char>>
    decreases k.len() - i,
{
    if i >= k.len() {
        seq![k.subrange(start, k.len() as int)]
    } else if k[i] == '.' {
        seq![k.subrange(start, i)] + spec_split_from(k, i + 1, i + 1)
    } else {
        spec_split_from(k, start, i + 1)
    }
}

/// The `.`-separated segments of a key.  A key without a dot is a single
/// segment: the key itself.
pub open spec fn spec_split(k: Seq<char>) -> Seq<Seq<char>> {
    spec_split_from(k, 0, 0)
}

/// A key without a dot splits into the single segment that is the key
/// itself.
pub proof fn lemma_split_no_dot(k: Seq<char>)
    requires
        forall|i: int| 0 <= i < k.len() ==> k[i] != '.',
    ensures
        spec_split(k) == seq![k],
{
    lemma_split_from_no_dot(k, 0);
    assert(k.subrange(0, k.len() as int) =~= k);
}

proof fn lemma_split_from_no_dot(k: Seq<char>, i: int)
    requires
        0 <= i <= k.len(),
        forall|t: int| 0 <= t < k.len() ==> k[t] != '.',
    ensures
        spec_split_from(k, 0, i) == seq![k.subrange(0, k.len() as int)],
    decreases k.len() - i,
{
    if i < k.len() {
        lemma_split_from_no_dot(k, i + 1);
    }
}

/// Whether a key is an embedded (multi-segment) path.
pub open spec fn spec_is_embedded(k: Seq<char>) -> bool {
    spec_split(k).len() > 1
}

/// Whether some segment of a path is an operator token.
pub open spec fn spec_path_has_op(segs: Seq<Seq<char>>) -> bool {
    exists|i: int| 0 <= i < segs.len() && spec_is_op(#[trigger] segs[i])
}

/// The check every query key passes before it is interpreted: an embedded
/// path must not contain an operator segment, and an operator key must be
/// a supported comparison or logical operator.
pub open spec fn spec_validate_key(k: Seq<char>) -> Option<Error> {
    if spec_is_embedded(k) && spec_path_has_op(spec_split(k)) {
        Some(Error::InvalidOperator)
    } else if spec_is_op(k) && spec_parse_cmp_op(k) is None && spec_parse_log_op(k) is None {
        Some(Error::InvalidOperator)
    } else {
        None
    }
}

/// The classification of a query value as a comparison-operator object:
/// `Some` exactly when the value is an object with a single key naming a
/// comparison operator; the operand is that key's value.  Empty objects,
/// multi-key objects, and unrecognized single keys are literal targets.
pub open spec fn spec_classify(v: SpecValue) -> Option<(CmpOp, SpecValue)> {
    match v {
        SpecValue::Obj(fs) => if fs.len() == 1 {
            match spec_parse_cmp_op(fs[0].0) {
                Some(op) => Some((op, fs[0].1)),
                None => None,
            }
        } else {
            None
        },
        _ => None,
    }
}

/// The views of a list of strings.
pub open spec fn spec_str_views(ss: Seq<String>) -> Seq<Seq<char>> {
    Seq::new(ss.len(), |i: int| ss[i]@)
}

/// Character-for-character string equality.
pub fn str_eq(a: &str, b: &str) -> (r: bool)
    ensures
        r == (a@ == b@),
{
    let n = a.unicode_len();
    let m = b.unicode_len();
    if n != m {
        return false;
    }
    let mut i: usize = 0;
    while i < n
        invariant
            i <= n,
            n as int == a@.len(),
            n as int == b@.len(),
            forall|j: int| 0 <= j < i ==> a@[j] == b@[j],
        decreases n - i,
    {
        if a.get_char(i) != b.get_char(i) {
            return false;
        }
        i = i + 1;
    }
    proof {
        assert(a@ =~= b@);
    }
    true
}

/// Whether a key begins with the operator sigil.
pub fn is_op(key: &str) -> (r: bool)
    ensures
        r == spec_is_op(key@),
{
    if key.unicode_len() == 0 {
        false
    } else {
        key.get_char(0) == '$'
    }
}

/// Whether a key is a logical operator.
pub fn is_logical_op(key: &str) -> (r: bool)
    ensures
        r == (spec_parse_log_op(key@) is Some),
{
    str_eq(key, "$and") || str_eq(key, "$or")
}

/// The comparison operator a key names, if any.
pub fn parse_cmp_op(key: &str) -> (r: Option<CmpOp>)
    ensures
        r == spec_parse_cmp_op(key@),
{
    if str_eq(key, "$eq") {
        Some(CmpOp::Eq)
    } else if str_eq(key, "$gt") {
        Some(CmpOp::Gt)
    } else if str_eq(key, "$gte") {
        Some(CmpOp::Gte)
    } else if str_eq(key, "$lt") {
        Some(CmpOp::Lt)
    } else if str_eq(key, "$lte") {
        Some(CmpOp::Lte)
    } else if str_eq(key, "$ne") {
        Some(CmpOp::Ne)
    } else if str_eq(key, "$in") {
        Some(CmpOp::In)
    } else if str_eq(key, "$nin") {
        Some(CmpOp::Nin)
    } else {
        None
    }
}

/// The update operator a key names, if any.
pub fn parse_update_op(key: &str) -> (r: Option<UpdateOp>)
    ensures
        r == spec_parse_update_op(key@),
{
    if str_eq(key, "$set") {
        Some(UpdateOp::Assign)
    } else if str_eq(key, "$unset") {
        Some(UpdateOp::Unset)
    } else if str_eq(key, "$inc") {
        Some(UpdateOp::Inc)
    } else if str_eq(key, "$mul") {
        Some(UpdateOp::Mul)
    } else {
        None
    }
}

/// Split a key into its `.`-separated segments.
pub fn split_key(key: &str) -> (segs: Vec<String>)
    ensures
        spec_str_views(segs@) == spec_split(key@),
{
    let n = key.unicode_len();
    let mut segs: Vec<String> = Vec::new();
    let mut start: usize = 0;
    let mut i: usize = 0;
    while i < n
        invariant
            start <= i <= n,
            n as int == key@.len(),
            spec_split(key@) == spec_str_views(segs@) + spec_split_from(
                key@,
                start as int,
                i as int,
            ),
        decreases n - i,
    {
        if key.get_char(i) == '.' {
            let seg = key.substring_char(start, i).to_owned();
            proof {
                assert(spec_str_views(segs@.push(seg)) =~= spec_str_views(segs@) + seq![
                    seg@,
                ]);
                assert(spec_str_views(segs@) + (seq![key@.subrange(start as int, i as int)]
                    + spec_split_from(key@, i as int + 1, i as int + 1)) =~= (spec_str_views(
                    segs@,
                ) + seq![seg@]) + spec_split_from(key@, i as int + 1, i as int + 1));
            }
            segs.push(seg);
            start = i + 1;
        }
        i = i + 1;
    }
    let last = key.substring_char(start, n).to_owned();
    proof {
        assert(spec_str_views(segs@.push(last)) =~= spec_str_views(segs@) + seq![last@]);
    }
    segs.push(last);
    segs
}

/// Whether a key is an embedded (multi-segment) path, with its segments.
pub fn is_embedded_query(key: &str) -> (r: (bool, Vec<String>))
    ensures
        r.0 == spec_is_embedded(key@),
        spec_str_views(r.1@) == spec_split(key@),
{
    let segs = split_key(key);
    let embedded = segs.len() > 1;
    proof {
        assert(segs@.len() == spec_split(key@).len());
    }
    (embedded, segs)
}

/// Reject a key that places an operator where none is allowed: an
/// operator segment inside an embedded path, or an operator key outside
/// the supported comparison and logical vocabulary.
pub fn is_key_valid_op(key: &str) -> (r: Result<(), Error>)
    ensures
        match spec_validate_key(key@) {
            None => r is Ok,
            Some(e) => r == Err::<(), Error>(e),
        },
{
    let (embedded, segs) = is_embedded_query(key);
    if embedded {
        let mut i: usize = 0;
        while i < segs.len()
            invariant
                i <= segs@.len(),
                spec_is_embedded(key@),
                spec_str_views(segs@) == spec_split(key@),
                forall|j: int| 0 <= j < i ==> !spec_is_op(#[trigger] spec_split(key@)[j]),
            decreases segs@.len() - i,
        {
            if is_op(segs[i].as_str()) {
                proof {
                    assert(spec_str_views(segs@)[i as int] == segs@[i as int]@);
                    assert(spec_is_op(spec_split(key@)[i as int]));
                }
                return Err(Error::InvalidOperator);
            }
            proof {
                assert(spec_str_views(segs@)[i as int] == segs@[i as int]@);
                assert(!spec_is_op(spec_split(key@)[i as int]));
            }
            i = i + 1;
        }
    }
    if is_op(key) {
        let cmp = parse_cmp_op(key);
        let logical = is_logical_op(key);
        if cmp.is_none() && !logical {
            return Err(Error::InvalidOperator);
        }
    }
    Ok(())
}

/// Whether some segment of a path is an operator token.
pub fn path_has_op(segs: &Vec<String>) -> (r: bool)
    ensures
        r == spec_path_has_op(spec_str_views(segs@)),
{
    let mut i: usize = 0;
    while i < segs.len()
        invariant
            i <= segs@.len(),
            forall|j: int| 0 <= j < i ==> !spec_is_op(#[trigger] spec_str_views(segs@)[j]),
        decreases segs@.len() - i,
    {
        if is_op(segs[i].as_str()) {
            proof {
                assert(spec_str_views(segs@)[i as int] == segs@[i as int]@);
                assert(spec_is_op(spec_str_views(segs@)[i as int]));
            }
            return true;
        }
        proof {
            assert(spec_str_views(segs@)[i as int] == segs@[i as int]@);
        }
        i = i + 1;
    }
    false
}

/// Whether every entry of a list is true.
pub fn all(logic_list: Vec<bool>) -> (r: bool)
    ensures
        r == (forall|i: int| 0 <= i < logic_list@.len() ==> logic_list@[i]),
{
    let mut i: usize = 0;
    while i < logic_list.len()
        invariant
            i <= logic_list@.len(),
            forall|j: int| 0 <= j < i ==> logic_list@[j],
        decreases logic_list@.len() - i,
    {
        if !logic_list[i] {
            return false;
        }
        i = i + 1;
    }
    true
}

/// Whether some entry of a list is true.
pub fn any(logic_list: Vec<bool>) -> (r: bool)
    ensures
        r == (exists|i: int| 0 <= i < logic_list@.len() && logic_list@[i]),
{
    let mut i: usize = 0;
    while i < logic_list.len()
        invariant
            i <= logic_list@.len(),
            forall|j: int| 0 <= j < i ==> !logic_list@[j],
        decreases logic_list@.len() - i,
    {
        if logic_list[i] {
            return true;
        }
        i = i + 1;
    }
    false
}

/// The comparison operator and operand of a comparison-operator object,
/// if the value is one.
pub fn has_comparison_op<'a>(compare_obj: &'a Value) -> (r: Option<(CmpOp, &'a Value)>)
    ensures
        match (spec_classify(compare_obj@), r) {
            (Some(sp), Some(ep)) => ep.0 == sp.0 && ep.1@ == sp.1,
            (None, None) => true,
            _ => false,
        },
{
    match compare_obj {
        Value::Obj(fs) => {
            proof {
                assert(compare_obj@->Obj_0 == crate::value::spec_model_fields(fs@));
                assert(crate::value::spec_model_fields(fs@).len() == fs@.len());
                if fs@.len() == 1 {
                    assert(crate::value::spec_model_fields(fs@)[0]
                        == crate::value::spec_model_field(fs@[0]));
                }
            }
            if fs.len() != 1 {
                None
            } else {
                match parse_cmp_op(fs[0].0.as_str()) {
                    Some(op) => Some((op, &fs[0].1)),
                    None => None,
                }
            }
        },
        _ => None,
    }
}

/// Whether a value is a comparison-operator object.
pub fn is_comparison_op(compare_obj: &Value) -> (r: bool)
    ensures
        r == (spec_classify(compare_obj@) is Some),
{
    has_comparison_op(compare_obj).is_some()
}

} // verus!
