//! The collection store: an insertion-ordered sequence of documents with
//! scan (`find`), scan-and-mutate (`find_and_update`), and
//! scan-and-remove (`find_and_delete`), built on the predicate evaluator
//! and the update executor.

use vstd::prelude::*;

use crate::errors::Error;
use crate::eval::{evaluate, spec_eval};
use crate::update::{apply_update, spec_apply_update};
use crate::value::{deep_copy, lemma_model_list_props, spec_model_list, SpecValue, Value};

verus! {

broadcast use vstd::seq::group_seq_axioms;

/// The documents `find` returns for the documents from index `i` on:
/// matching documents in collection order, or the first evaluation error.
pub open spec fn spec_find_from(q: SpecValue, docs: Seq<SpecValue>, i: int) -> Result<
    Seq<SpecValue>,
    Error,
>
    decreases docs.len() - i,
{
    if i >= docs.len() {
        Ok(Seq::empty())
    } else {
        match spec_eval(q, docs[i]) {
            Err(e) => Err(e),
            Ok(m) => match spec_find_from(q, docs, i + 1) {
                Err(e) => Err(e),
                Ok(rest) => if m {
                    Ok(seq![docs[i]] + rest)
                } else {
                    Ok(rest)
                },
            },
        }
    }
}

/// The result of `find`: a non-object query is rejected before scanning.
pub open spec fn spec_find(q: SpecValue, docs: Seq<SpecValue>) -> Result<Seq<SpecValue>, Error> {
    if !(q is Obj) {
        Err(Error::NotAnObject)
    } else {
        spec_find_from(q, docs, 0)
    }
}

/// The outcome of `find_and_update` over the documents from index `i` on:
/// the final state of those documents, how many were updated, and the
/// first error if any.  Documents updated before an error stay updated.
pub open spec fn spec_scan_update_from(
    q: SpecValue,
    u: SpecValue,
    docs: Seq<SpecValue>,
    i: int,
) -> (Seq<SpecValue>, int, Option<Error>)
    decreases docs.len() - i,
{
    if i >= docs.len() {
        (Seq::empty(), 0int, None)
    } else {
        match spec_eval(q, docs[i]) {
            Err(e) => (docs.skip(i), 0int, Some(e)),
            Ok(false) => {
                let rest = spec_scan_update_from(q, u, docs, i + 1);
                (seq![docs[i]] + rest.0, rest.1, rest.2)
            },
            Ok(true) => match spec_apply_update(u, docs[i]) {
                Err(e) => (docs.skip(i), 0int, Some(e)),
                Ok(nd) => {
                    let rest = spec_scan_update_from(q, u, docs, i + 1);
                    (seq![nd] + rest.0, rest.1 + 1, rest.2)
                },
            },
        }
    }
}

/// The outcome of `find_and_update`: non-object queries or updates are
/// rejected before scanning.
pub open spec fn spec_find_and_update(q: SpecValue, u: SpecValue, docs: Seq<SpecValue>) -> (
    Seq<SpecValue>,
    int,
    Option<Error>,
) {
    if !(q is Obj) || !(u is Obj) {
        (docs, 0int, Some(Error::NotAnObject))
    } else {
        spec_scan_update_from(q, u, docs, 0)
    }
}

/// The outcome of `find_and_delete` over the documents from index `i` on:
/// the documents kept and the documents removed, both in collection
/// order, or the first evaluation error.
pub open spec fn spec_scan_delete_from(q: SpecValue, docs: Seq<SpecValue>, i: int) -> Result<
    (Seq<SpecValue>, Seq<SpecValue>),
    Error,
>
    decreases docs.len() - i,
{
    if i >= docs.len() {
        Ok((Seq::empty(), Seq::empty()))
    } else {
        match spec_eval(q, docs[i]) {
            Err(e) => Err(e),
            Ok(m) => match spec_scan_delete_from(q, docs, i + 1) {
                Err(e) => Err(e),
                Ok(pair) => if m {
                    Ok((pair.0, seq![docs[i]] + pair.1))
                } else {
                    Ok((seq![docs[i]] + pair.0, pair.1))
                },
            },
        }
    }
}

/// The outcome of `find_and_delete`: a non-object query is rejected
/// before scanning, and an evaluation error leaves the collection
/// untouched.
pub open spec fn spec_find_and_delete(q: SpecValue, docs: Seq<SpecValue>) -> Result<
    (Seq<SpecValue>, Seq<SpecValue>),
    Error,
> {
    if !(q is Obj) {
        Err(Error::NotAnObject)
    } else {
        spec_scan_delete_from(q, docs, 0)
    }
}

/// An insertion-ordered collection of documents.  Every stored document
/// is an object; insertion order is the iteration order of every scan.
pub struct Collection {
    docs: Vec<Value>,
}

impl View for Collection {
    type V = Seq<SpecValue>;

    closed spec fn view(&self) -> Seq<SpecValue> {
        spec_model_list(self.docs@)
    }
}

impl Collection {
    /// Make a new, empty collection.
    pub fn new() -> (c: Collection)
        ensures
            c@ == Seq::<SpecValue>::empty(),
    {
        let c = Collection { docs: Vec::new() };
        proof {
            assert(c@ =~= Seq::<SpecValue>::empty());
        }
        c
    }

    /// How many documents the collection holds.
    pub fn len(&self) -> (n: usize)
        ensures
            n == self@.len(),
    {
        self.docs.len()
    }

    /// Insert a document at the end of the collection; a document that is
    /// not an object is rejected.
    pub fn insert(&mut self, document: Value) -> (r: Result<(), Error>)
        ensures
            document@ is Obj ==> r is Ok && final(self)@ == old(self)@.push(document@),
            !(document@ is Obj) ==> r == Err::<(), Error>(Error::NotAnObject) && final(self)@
                == old(self)@,
    {
        if !document.is_object() {
            return Err(Error::NotAnObject);
        }
        self.docs.push(document);
        proof {
            assert(self@ =~= old(self)@.push(document@));
        }
        Ok(())
    }

    /// Return structurally equal copies of every document that matches
    /// the query, in collection order.
    pub fn find(&self, query: &Value) -> (r: Result<Vec<Value>, Error>)
        ensures
            match spec_find(query@, self@) {
                Ok(ds) => r is Ok && spec_model_list(r->Ok_0@) == ds,
                Err(e) => r is Err && r->Err_0 == e,
            },
    {
        if !query.is_object() {
            return Err(Error::NotAnObject);
        }
        let ghost m0 = self@;
        let mut result: Vec<Value> = Vec::new();
        let mut i: usize = 0;
        proof {
            assert(spec_model_list(result@) =~= Seq::<SpecValue>::empty());
        }
        while i < self.docs.len()
            invariant
                i <= self.docs@.len(),
                query@ is Obj,
                m0 == self@,
                m0.len() == self.docs@.len(),
                forall|t: int| 0 <= t < self.docs@.len() ==> #[trigger] m0[t]
                    == self.docs@[t]@,
                match spec_find_from(query@, m0, i as int) {
                    Ok(rest) => spec_find_from(query@, m0, 0) == Ok::<Seq<SpecValue>, Error>(
                        spec_model_list(result@) + rest,
                    ),
                    Err(e) => spec_find_from(query@, m0, 0) == Err::<Seq<SpecValue>, Error>(
                        e,
                    ),
                },
            decreases self.docs@.len() - i,
        {
            let matched = match evaluate(query, &self.docs[i]) {
                Ok(b) => b,
                Err(e) => {
                    return Err(e);
                },
            };
            let ghost old_models = spec_model_list(result@);
            if matched {
                result.push(deep_copy(&self.docs[i]));
                proof {
                    assert(spec_model_list(result@) =~= old_models + seq![m0[i as int]]);
                }
            }
            proof {
                if spec_find_from(query@, m0, i as int + 1) is Ok {
                    let rest = spec_find_from(query@, m0, i as int + 1)->Ok_0;
                    assert(old_models + (seq![m0[i as int]] + rest) =~= (old_models + seq![
                        m0[i as int],
                    ]) + rest);
                }
            }
            i = i + 1;
        }
        Ok(result)
    }

    /// Update, in place, every document that matches the query, returning
    /// how many were updated.  An error mid-scan is returned as is;
    /// documents already updated stay updated.
    pub fn find_and_update(&mut self, query: &Value, update: &Value) -> (r: Result<u64, Error>)
        ensures
            ({
                let outcome = spec_find_and_update(query@, update@, old(self)@);
                &&& final(self)@ == outcome.0
                &&& match outcome.2 {
                    None => r is Ok && r->Ok_0 as int == outcome.1,
                    Some(e) => r is Err && r->Err_0 == e,
                }
            }),
    {
        if !query.is_object() {
            return Err(Error::NotAnObject);
        }
        if !update.is_object() {
            return Err(Error::NotAnObject);
        }
        let ghost m0 = old(self)@;
        let n = self.docs.len();
        let mut count: u64 = 0;
        let mut i: usize = 0;
        while i < n
            invariant
                i <= n,
                query@ is Obj,
                update@ is Obj,
                n == self.docs@.len(),
                m0 == old(self)@,
                m0.len() == self.docs@.len(),
                count <= i,
                forall|t: int| i <= t < self.docs@.len() ==> #[trigger] self.docs@[t]@
                    == m0[t],
                ({
                    let rest = spec_scan_update_from(query@, update@, m0, i as int);
                    let cur = spec_model_list(self.docs@);
                    spec_scan_update_from(query@, update@, m0, 0) == (
                        cur.take(i as int) + rest.0,
                        count + rest.1,
                        rest.2,
                    )
                }),
            decreases n - i,
        {
            proof {
                lemma_model_list_props(self.docs@);
            }
            let matched = match evaluate(query, &self.docs[i]) {
                Ok(b) => b,
                Err(e) => {
                    proof {
                        assert(spec_model_list(self.docs@) =~= spec_model_list(
                            self.docs@,
                        ).take(i as int) + m0.skip(i as int));
                    }
                    return Err(e);
                },
            };
            if matched {
                let ghost pre = self.docs@;
                let ghost rest2 = spec_scan_update_from(query@, update@, m0, i as int + 1);
                let d = &mut self.docs[i];
                let ur = apply_update(update, d);
                match ur {
                    Ok(_) => {
                        proof {
                            let nd = spec_apply_update(update@, m0[i as int])->Ok_0;
                            lemma_model_list_props(pre);
                            lemma_model_list_props(self.docs@);
                            assert(self.docs@[i as int]@ == nd);
                            assert(spec_model_list(pre).take(i as int) =~= spec_model_list(
                                self.docs@,
                            ).take(i as int));
                            assert(spec_model_list(self.docs@).take(i as int + 1)
                                =~= spec_model_list(pre).take(i as int) + seq![nd]);
                            assert(spec_model_list(pre).take(i as int) + (seq![nd]
                                + rest2.0) =~= spec_model_list(self.docs@).take(i as int + 1)
                                + rest2.0);
                        }
                        count = count + 1;
                    },
                    Err(e) => {
                        proof {
                            lemma_model_list_props(pre);
                            lemma_model_list_props(self.docs@);
                            assert(spec_model_list(pre).take(i as int) =~= spec_model_list(
                                self.docs@,
                            ).take(i as int));
                            assert(spec_model_list(self.docs@) =~= spec_model_list(
                                self.docs@,
                            ).take(i as int) + m0.skip(i as int));
                        }
                        return Err(e);
                    },
                }
            } else {
                proof {
                    lemma_model_list_props(self.docs@);
                    let rest2 = spec_scan_update_from(query@, update@, m0, i as int + 1);
                    assert(spec_model_list(self.docs@).take(i as int + 1)
                        =~= spec_model_list(self.docs@).take(i as int) + seq![m0[i as int]]);
                    assert(spec_model_list(self.docs@).take(i as int) + (seq![m0[i as int]]
                        + rest2.0) =~= spec_model_list(self.docs@).take(i as int + 1)
                        + rest2.0);
                }
            }
            i = i + 1;
        }
        proof {
            lemma_model_list_props(self.docs@);
            assert(spec_model_list(self.docs@).take(n as int) =~= spec_model_list(
                self.docs@,
            ));
            assert(spec_model_list(self.docs@).take(n as int) + Seq::<SpecValue>::empty()
                =~= spec_model_list(self.docs@));
        }
        Ok(count)
    }

    /// Remove every document that matches the query, compacting the rest
    /// in order, and return the removed documents in collection order.
    /// An evaluation error leaves the collection unchanged.
    pub fn find_and_delete(&mut self, query: &Value) -> (r: Result<Vec<Value>, Error>)
        ensures
            match spec_find_and_delete(query@, old(self)@) {
                Ok(pair) => r is Ok && final(self)@ == pair.0 && spec_model_list(r->Ok_0@)
                    == pair.1,
                Err(e) => r is Err && r->Err_0 == e && final(self)@ == old(self)@,
            },
    {
        if !query.is_object() {
            return Err(Error::NotAnObject);
        }
        let ghost m0 = old(self)@;
        let mut kept: Vec<Value> = Vec::new();
        let mut removed: Vec<Value> = Vec::new();
        let mut i: usize = 0;
        proof {
            assert(spec_model_list(kept@) =~= Seq::<SpecValue>::empty());
            assert(spec_model_list(removed@) =~= Seq::<SpecValue>::empty());
        }
        while i < self.docs.len()
            invariant
                i <= self.docs@.len(),
                query@ is Obj,
                m0 == self@,
                m0.len() == self.docs@.len(),
                forall|t: int| 0 <= t < self.docs@.len() ==> #[trigger] m0[t]
                    == self.docs@[t]@,
                match spec_scan_delete_from(query@, m0, i as int) {
                    Ok(pair) => spec_scan_delete_from(query@, m0, 0) == Ok::<
                        (Seq<SpecValue>, Seq<SpecValue>),
                        Error,
                    >((spec_model_list(kept@) + pair.0, spec_model_list(removed@) + pair.1)),
                    Err(e) => spec_scan_delete_from(query@, m0, 0) == Err::<
                        (Seq<SpecValue>, Seq<SpecValue>),
                        Error,
                    >(e),
                },
            decreases self.docs@.len() - i,
        {
            let matched = match evaluate(query, &self.docs[i]) {
                Ok(b) => b,
                Err(e) => {
                    return Err(e);
                },
            };
            let ghost old_kept_m = spec_model_list(kept@);
            let ghost old_removed_m = spec_model_list(removed@);
            if matched {
                removed.push(deep_copy(&self.docs[i]));
                proof {
                    assert(spec_model_list(removed@) =~= old_removed_m + seq![m0[i as int]]);
                }
            } else {
                kept.push(deep_copy(&self.docs[i]));
                proof {
                    assert(spec_model_list(kept@) =~= old_kept_m + seq![m0[i as int]]);
                }
            }
            proof {
                if spec_scan_delete_from(query@, m0, i as int + 1) is Ok {
                    let pair = spec_scan_delete_from(query@, m0, i as int + 1)->Ok_0;
                    assert(old_kept_m + (seq![m0[i as int]] + pair.0) =~= (old_kept_m + seq![
                        m0[i as int],
                    ]) + pair.0);
                    assert(old_removed_m + (seq![m0[i as int]] + pair.1) =~= (old_removed_m
                        + seq![m0[i as int]]) + pair.1);
                }
            }
            i = i + 1;
        }
        self.docs = kept;
        Ok(removed)
    }
}

/// Law: the empty query matches every document, so `find` with it
/// returns the whole collection.
pub proof fn lemma_find_empty_query(docs: Seq<SpecValue>)
    ensures
        spec_find(SpecValue::Obj(Seq::empty()), docs) == Ok::<Seq<SpecValue>, Error>(docs),
{
    lemma_find_from_empty_query(docs, 0);
    assert(docs.skip(0) =~= docs);
}

proof fn lemma_find_from_empty_query(docs: Seq<SpecValue>, i: int)
    requires
        0 <= i <= docs.len(),
    ensures
        spec_find_from(SpecValue::Obj(Seq::empty()), docs, i) == Ok::<Seq<SpecValue>, Error>(
            docs.skip(i),
        ),
    decreases docs.len() - i,
{
    if i < docs.len() {
        crate::eval::lemma_empty_query_matches(docs[i]);
        lemma_find_from_empty_query(docs, i + 1);
        assert(seq![docs[i]] + docs.skip(i + 1) =~= docs.skip(i));
    } else {
        assert(docs.skip(i) =~= Seq::<SpecValue>::empty());
    }
}

/// Law: inserting a document and immediately finding with the empty query
/// returns the whole collection, the inserted document (structurally
/// equal) at its end.
pub proof fn lemma_insert_find_round_trip(docs: Seq<SpecValue>, d: SpecValue)
    ensures
        spec_find(SpecValue::Obj(Seq::empty()), docs.push(d)) == Ok::<Seq<SpecValue>, Error>(
            docs.push(d),
        ),
        spec_find(SpecValue::Obj(Seq::empty()), docs.push(d))->Ok_0[docs.len() as int] == d,
{
    lemma_find_empty_query(docs.push(d));
}

} // verus!
