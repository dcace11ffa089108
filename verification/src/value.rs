//! The structured value model: the universal representation of documents,
//! queries, and update specifications.
//!
//! A value is null, a boolean, a number, a string, an array, or an object
//! (an ordered list of string-keyed fields).  Numbers keep their
//! representational class: non-negative integers are held as `Uint`,
//! negative integers as `Int`, so that comparisons and arithmetic can pick
//! the narrowest representation both operands support.

use vstd::prelude::*;

use crate::errors::Error;

verus! {

broadcast use vstd::seq::group_seq_axioms;

/// A structured document value.
///
/// Documents stored in a collection are always `Obj` values, as are queries
/// and update specifications; arrays and scalars appear nested inside them.
#[derive(Debug, PartialEq, Eq)]
pub enum Value {
    Null,
    Bool(bool),
    /// A negative integer.  Constructors keep integers canonical: any value
    /// that fits in `u64` is represented as `Uint`.
    Int(i64),
    /// A non-negative integer.
    Uint(u64),
    Str(String),
    Arr(Vec<Value>),
    Obj(Vec<(String, Value)>),
}

/// The mathematical model of a `Value`: the same tree with strings as
/// character sequences and lists as `Seq`.
#[verifier::ext_equal]
pub enum SpecValue {
    Null,
    Bool(bool),
    Int(i64),
    Uint(u64),
    Str(Seq<char>),
    Arr(Seq<SpecValue>),
    Obj(Seq<(Seq<char>, SpecValue)>),
}

/// The model of each element of a list of values.
pub open spec fn spec_model_list(s: Seq<Value>) -> Seq<SpecValue>
    decreases s,
{
    Seq::new(
        s.len(),
        |i: int| if 0 <= i < s.len() {
            s[i].model()
        } else {
            SpecValue::Null
        },
    )
}

/// The model of each field of an object's field list.
pub open spec fn spec_model_fields(s: Seq<(String, Value)>) -> Seq<(Seq<char>, SpecValue)>
    decreases s,
{
    Seq::new(
        s.len(),
        |i: int| if 0 <= i < s.len() {
            spec_model_field(s[i])
        } else {
            (Seq::empty(), SpecValue::Null)
        },
    )
}

/// The model of a list indexes to the model of each element.
pub proof fn lemma_model_list_props(s: Seq<Value>)
    ensures
        spec_model_list(s).len() == s.len(),
        forall|t: int| 0 <= t < s.len() ==> #[trigger] spec_model_list(s)[t] == s[t]@,
{
    assert forall|t: int| 0 <= t < s.len() implies #[trigger] spec_model_list(s)[t] == s[t]@ by {
        assert(spec_model_list(s)[t] == s[t].model());
    }
}

/// The model of one object field.
pub open spec fn spec_model_field(f: (String, Value)) -> (Seq<char>, SpecValue)
    decreases f,
{
    (f.0@, f.1.model())
}

impl Value {
    /// The model of this value.
    pub open spec fn model(self) -> SpecValue
        decreases self,
    {
        match self {
            Value::Null => SpecValue::Null,
            Value::Bool(b) => SpecValue::Bool(b),
            Value::Int(i) => SpecValue::Int(i),
            Value::Uint(u) => SpecValue::Uint(u),
            Value::Str(s) => SpecValue::Str(s@),
            Value::Arr(a) => SpecValue::Arr(spec_model_list(a@)),
            Value::Obj(f) => SpecValue::Obj(spec_model_fields(f@)),
        }
    }

    /// Build a canonical integer value: non-negative integers are `Uint`.
    pub fn num(n: i64) -> (r: Value)
        ensures
            r@ == spec_canon_i64(n),
    {
        if n >= 0 {
            Value::Uint(n as u64)
        } else {
            Value::Int(n)
        }
    }

    /// Build a string value.
    pub fn text(s: &str) -> (r: Value)
        ensures
            r@ == SpecValue::Str(s@),
    {
        Value::Str(s.to_owned())
    }

    /// Whether this value is an object.
    pub fn is_object(&self) -> (r: bool)
        ensures
            r == self@ is Obj,
    {
        match self {
            Value::Obj(_) => true,
            _ => false,
        }
    }
}

impl View for Value {
    type V = SpecValue;

    open spec fn view(&self) -> SpecValue {
        self.model()
    }
}

/// The canonical model of an `i64`: `Uint` when non-negative, `Int` below.
pub open spec fn spec_canon_i64(n: i64) -> SpecValue {
    if n >= 0 {
        SpecValue::Uint(n as u64)
    } else {
        SpecValue::Int(n)
    }
}

/// The unsigned reading of a numeric value, mirroring how a non-negative
/// number is extracted whatever its stored class.
pub open spec fn spec_as_u64(v: SpecValue) -> Option<u64> {
    match v {
        SpecValue::Uint(u) => Some(u),
        SpecValue::Int(i) => if i >= 0 {
            Some(i as u64)
        } else {
            None
        },
        _ => None,
    }
}

/// The signed reading of a numeric value.
pub open spec fn spec_as_i64(v: SpecValue) -> Option<i64> {
    match v {
        SpecValue::Uint(u) => if u <= i64::MAX as u64 {
            Some(u as i64)
        } else {
            None
        },
        SpecValue::Int(i) => Some(i),
        _ => None,
    }
}

/// Whether a value is a number.
pub open spec fn spec_is_number(v: SpecValue) -> bool {
    v is Int || v is Uint
}

impl Value {
    /// The unsigned reading of this value, if it has one.
    pub fn as_u64(&self) -> (r: Option<u64>)
        ensures
            r == spec_as_u64(self@),
    {
        match self {
            Value::Uint(u) => Some(*u),
            Value::Int(i) => if *i >= 0 {
                Some(*i as u64)
            } else {
                None
            },
            _ => None,
        }
    }

    /// The signed reading of this value, if it has one.
    pub fn as_i64(&self) -> (r: Option<i64>)
        ensures
            r == spec_as_i64(self@),
    {
        match self {
            Value::Uint(u) => if *u <= i64::MAX as u64 {
                Some(*u as i64)
            } else {
                None
            },
            Value::Int(i) => Some(*i),
            _ => None,
        }
    }

    /// Whether this value is a number.
    pub fn is_number(&self) -> (r: bool)
        ensures
            r == spec_is_number(self@),
    {
        match self {
            Value::Int(_) => true,
            Value::Uint(_) => true,
            _ => false,
        }
    }
}
/// Structural equality of two values, decided against the model.
pub fn value_eq(a: &Value, b: &Value) -> (r: bool)
    ensures
        r == (a@ == b@),
    decreases *a,
{
    match (a, b) {
        (Value::Null, Value::Null) => true,
        (Value::Bool(x), Value::Bool(y)) => x == y,
        (Value::Int(x), Value::Int(y)) => x == y,
        (Value::Uint(x), Value::Uint(y)) => x == y,
        (Value::Str(x), Value::Str(y)) => *x == *y,
        (Value::Arr(x), Value::Arr(y)) => {
            if x.len() != y.len() {
                assert(a@ != b@) by {
                    assert(a@->Arr_0.len() != b@->Arr_0.len());
                }
                false
            } else {
                let mut i: usize = 0;
                let mut eq_so_far = true;
                while i < x.len()
                    invariant
                        i <= x.len(),
                        x.len() == y.len(),
                        *a == Value::Arr(*x),
                        *b == Value::Arr(*y),
                        eq_so_far == (forall|j: int| 0 <= j < i ==> x@[j]@ == y@[j]@),
                    decreases x.len() - i,
                {
                    proof {
                        assert(decreases_to!(*a => a->Arr_0));
                        assert(decreases_to!(*x => x@));
                        assert(decreases_to!(x@ => x@[i as int]));
                    }
                    let e = value_eq(&x[i], &y[i]);
                    eq_so_far = eq_so_far && e;
                    i = i + 1;
                }
                proof {
                    if eq_so_far {
                        assert(a@->Arr_0 =~= b@->Arr_0);
                    } else {
                        let j = choose|j: int| 0 <= j < x.len() && x@[j]@ != y@[j]@;
                        assert(a@->Arr_0[j] != b@->Arr_0[j]);
                    }
                }
                eq_so_far
            }
        },
        (Value::Obj(x), Value::Obj(y)) => {
            if x.len() != y.len() {
                assert(a@ != b@) by {
                    assert(a@->Obj_0.len() != b@->Obj_0.len());
                }
                false
            } else {
                let mut i: usize = 0;
                let mut eq_so_far = true;
                while i < x.len()
                    invariant
                        i <= x.len(),
                        x.len() == y.len(),
                        *a == Value::Obj(*x),
                        *b == Value::Obj(*y),
                        eq_so_far == (forall|j: int|
                            0 <= j < i ==> x@[j].0@ == y@[j].0@ && x@[j].1@ == y@[j].1@),
                    decreases x.len() - i,
                {
                    proof {
                        assert(decreases_to!(*a => a->Obj_0));
                        assert(decreases_to!(*x => x@));
                        assert(decreases_to!(x@ => x@[i as int]));
                        assert(decreases_to!(x@[i as int] => x@[i as int].1));
                    }
                    let ke = x[i].0 == y[i].0;
                    let ve = value_eq(&x[i].1, &y[i].1);
                    eq_so_far = eq_so_far && ke && ve;
                    i = i + 1;
                }
                proof {
                    if eq_so_far {
                        assert forall|k: int|
                            0 <= k < x@.len() implies a@->Obj_0[k] == b@->Obj_0[k] by {
                            assert(a@->Obj_0 == spec_model_fields(x@));
                            assert(spec_model_fields(x@)[k] == spec_model_field(x@[k]));
                            assert(spec_model_field(x@[k]) == (x@[k].0@, x@[k].1.model()));
                            assert(a@->Obj_0[k] == (x@[k].0@, x@[k].1.model()));
                            assert(b@->Obj_0 == spec_model_fields(y@));
                            assert(spec_model_fields(y@)[k] == spec_model_field(y@[k]));
                            assert(b@->Obj_0[k] == (y@[k].0@, y@[k].1.model()));
                            assert(x@[k].0@ == y@[k].0@ && x@[k].1@ == y@[k].1@);
                        }
                        assert(a@->Obj_0 =~= b@->Obj_0);
                    } else {
                        let j = choose|j: int|
                            0 <= j < x.len() && !(x@[j].0@ == y@[j].0@ && x@[j].1@
                                == y@[j].1@);
                        assert(spec_model_fields(x@)[j] == spec_model_field(x@[j]));
                        assert(spec_model_fields(y@)[j] == spec_model_field(y@[j]));
                        assert(a@->Obj_0[j] == (x@[j].0@, x@[j].1.model()));
                        assert(b@->Obj_0[j] == (y@[j].0@, y@[j].1.model()));
                        assert(a@->Obj_0[j] != b@->Obj_0[j]);
                    }
                }
                eq_so_far
            }
        },
        _ => {
            assert(a@ != b@);
            false
        },
    }
}

/// A structurally equal copy of a value.
pub fn deep_copy(v: &Value) -> (r: Value)
    ensures
        r@ == v@,
    decreases *v,
{
    match v {
        Value::Null => Value::Null,
        Value::Bool(b) => Value::Bool(*b),
        Value::Int(i) => Value::Int(*i),
        Value::Uint(u) => Value::Uint(*u),
        Value::Str(s) => Value::Str(s.clone()),
        Value::Arr(a) => {
            let mut out: Vec<Value> = Vec::new();
            let mut i: usize = 0;
            while i < a.len()
                invariant
                    i <= a.len(),
                    *v == Value::Arr(*a),
                    out@.len() == i,
                    forall|j: int| 0 <= j < i ==> out@[j]@ == a@[j]@,
                decreases a.len() - i,
            {
                proof {
                    assert(decreases_to!(*v => v->Arr_0));
                    assert(decreases_to!(*a => a@));
                    assert(decreases_to!(a@ => a@[i as int]));
                }
                let e = deep_copy(&a[i]);
                out.push(e);
                i = i + 1;
            }
            proof {
                assert(Value::Arr(out)@->Arr_0 =~= v@->Arr_0);
            }
            Value::Arr(out)
        },
        Value::Obj(f) => {
            let mut out: Vec<(String, Value)> = Vec::new();
            let mut i: usize = 0;
            while i < f.len()
                invariant
                    i <= f.len(),
                    *v == Value::Obj(*f),
                    out@.len() == i,
                    forall|j: int|
                        0 <= j < i ==> out@[j].0@ == f@[j].0@ && out@[j].1@ == f@[j].1@,
                decreases f.len() - i,
            {
                proof {
                    assert(decreases_to!(*v => v->Obj_0));
                    assert(decreases_to!(*f => f@));
                    assert(decreases_to!(f@ => f@[i as int]));
                    assert(decreases_to!(f@[i as int] => f@[i as int].1));
                }
                let k = f[i].0.clone();
                let e = deep_copy(&f[i].1);
                out.push((k, e));
                i = i + 1;
            }
            proof {
                assert forall|k: int|
                    0 <= k < f@.len() implies Value::Obj(out)@->Obj_0[k] == v@->Obj_0[k] by {
                    assert(spec_model_fields(out@)[k] == spec_model_field(out@[k]));
                    assert(spec_model_fields(f@)[k] == spec_model_field(f@[k]));
                    assert(Value::Obj(out)@->Obj_0[k] == (out@[k].0@, out@[k].1.model()));
                    assert(v@->Obj_0[k] == (f@[k].0@, f@[k].1.model()));
                    assert(out@[k].0@ == f@[k].0@ && out@[k].1@ == f@[k].1@);
                }
                assert(Value::Obj(out)@->Obj_0 =~= v@->Obj_0);
            }
            Value::Obj(out)
        },
    }
}

/// The sum of two numeric values in the narrowest common representation:
/// unsigned first, then signed.  A result that fits no representation, or
/// an operand that is not a number, is a type error.
pub open spec fn spec_num_add(a: SpecValue, b: SpecValue) -> Result<SpecValue, Error> {
    if spec_as_u64(a) is Some && spec_as_u64(b) is Some {
        let s = spec_as_u64(a)->Some_0 + spec_as_u64(b)->Some_0;
        if s <= u64::MAX {
            Ok(SpecValue::Uint(s as u64))
        } else {
            Err(Error::InvalidType)
        }
    } else if spec_as_i64(a) is Some && spec_as_i64(b) is Some {
        let s = spec_as_i64(a)->Some_0 + spec_as_i64(b)->Some_0;
        if i64::MIN <= s <= i64::MAX {
            Ok(spec_canon_i64(s as i64))
        } else {
            Err(Error::InvalidType)
        }
    } else {
        Err(Error::InvalidType)
    }
}

/// The product of two numeric values, by the same representation rule as
/// `spec_num_add`.
pub open spec fn spec_num_mul(a: SpecValue, b: SpecValue) -> Result<SpecValue, Error> {
    if spec_as_u64(a) is Some && spec_as_u64(b) is Some {
        let p = spec_as_u64(a)->Some_0 * spec_as_u64(b)->Some_0;
        if p <= u64::MAX {
            Ok(SpecValue::Uint(p as u64))
        } else {
            Err(Error::InvalidType)
        }
    } else if spec_as_i64(a) is Some && spec_as_i64(b) is Some {
        let p = spec_as_i64(a)->Some_0 * spec_as_i64(b)->Some_0;
        if i64::MIN <= p <= i64::MAX {
            Ok(spec_canon_i64(p as i64))
        } else {
            Err(Error::InvalidType)
        }
    } else {
        Err(Error::InvalidType)
    }
}

/// Add two numeric values.
pub fn num_add(a: &Value, b: &Value) -> (r: Result<Value, Error>)
    ensures
        match spec_num_add(a@, b@) {
            Ok(sv) => r is Ok && r->Ok_0@ == sv,
            Err(e) => r == Err::<Value, Error>(e),
        },
{
    match (a.as_u64(), b.as_u64()) {
        (Some(x), Some(y)) => match x.checked_add(y) {
            Some(s) => Ok(Value::Uint(s)),
            None => Err(Error::InvalidType),
        },
        _ => match (a.as_i64(), b.as_i64()) {
            (Some(x), Some(y)) => match x.checked_add(y) {
                Some(s) => Ok(Value::num(s)),
                None => Err(Error::InvalidType),
            },
            _ => Err(Error::InvalidType),
        },
    }
}

/// Multiply two numeric values.
pub fn num_mul(a: &Value, b: &Value) -> (r: Result<Value, Error>)
    ensures
        match spec_num_mul(a@, b@) {
            Ok(sv) => r is Ok && r->Ok_0@ == sv,
            Err(e) => r == Err::<Value, Error>(e),
        },
{
    match (a.as_u64(), b.as_u64()) {
        (Some(x), Some(y)) => match x.checked_mul(y) {
            Some(p) => Ok(Value::Uint(p)),
            None => Err(Error::InvalidType),
        },
        _ => match (a.as_i64(), b.as_i64()) {
            (Some(x), Some(y)) => match x.checked_mul(y) {
                Some(p) => Ok(Value::num(p)),
                None => Err(Error::InvalidType),
            },
            _ => Err(Error::InvalidType),
        },
    }
}

/// Law: incrementing an unsigned integer by a negative integer settles in
/// the signed common representation, canonicalized back to unsigned when
/// the sum is non-negative.
pub proof fn lemma_inc_representation(a: u64, b: i64)
    requires
        b < 0,
        a <= i64::MAX as u64,
        a + b >= i64::MIN,
    ensures
        spec_num_add(SpecValue::Uint(a), SpecValue::Int(b)) == Ok::<SpecValue, Error>(
            spec_canon_i64((a + b) as i64),
        ),
{
}

} // verus!
