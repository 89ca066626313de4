//! The document store gateway: named collections of documents, point and
//! filtered lookups, single-document writes, fan-out updates and unique
//! indexes, modelled exactly so that every operation of the persistence
//! protocol rests on a fixed contract.

use crate::filter::{filter_matches, matched, Filter, FilterM};
use crate::text;
use crate::value::{
    doc_id_m, get_m, lemma_vm_seq, set_m, vm, vm_seq, with_id_m, Oid, Value, Vm,
};
use crate::Erro;
use vstd::prelude::*;
use vstd::string::*;

verus! {

/// A named collection of documents.
pub struct Collection {
    pub name: String,
    pub docs: Vec<Value>,
}

/// A registered uniqueness constraint: one top-level field of one
/// collection.
pub struct IndexSpec {
    pub collection: String,
    pub field: String,
}

/// An in-memory document store: named collections, unique indexes and the
/// counter from which new document identifiers are taken.
pub struct Store {
    pub collections: Vec<Collection>,
    pub indexes: Vec<IndexSpec>,
    pub next_id: u64,
}

/// A stored document: an object carrying an identifier below the store's
/// counter.
pub open spec fn doc_wf(d: Vm, next: nat) -> bool {
    &&& d is Obj
    &&& match doc_id_m(d) {
        Some(n) => n < next,
        None => false,
    }
}

/// Every document of the sequence is well-formed.
pub open spec fn docs_wf(ds: Seq<Vm>, next: nat) -> bool {
    forall|j: int| 0 <= j < ds.len() ==> doc_wf(#[trigger] ds[j], next)
}

/// No two documents of the sequence share an identifier.
pub open spec fn ids_distinct(ds: Seq<Vm>) -> bool {
    forall|j: int, k: int|
        0 <= j < k < ds.len() ==> doc_id_m(#[trigger] ds[j]) != doc_id_m(#[trigger] ds[k])
}

/// The position of the first document at or after `i` whose identifier is
/// `id`, or the length when there is none.
pub open spec fn idx_of_id_from(ds: Seq<Vm>, id: nat, i: int) -> int
    decreases ds.len() - i,
{
    if i < 0 || i >= ds.len() {
        ds.len() as int
    } else if doc_id_m(ds[i]) == Some(id) {
        i
    } else {
        idx_of_id_from(ds, id, i + 1)
    }
}

/// The first document with identifier `id`, if any.
pub open spec fn find_by_id(ds: Seq<Vm>, id: nat) -> Option<Vm> {
    let p = idx_of_id_from(ds, id, 0);
    if p < ds.len() {
        Some(ds[p])
    } else {
        None
    }
}

/// The first position lies between the start of the search and the end.
pub proof fn lemma_idx_of_id_bounds(ds: Seq<Vm>, id: nat, i: int)
    requires
        0 <= i <= ds.len(),
    ensures
        i <= idx_of_id_from(ds, id, i) <= ds.len(),
        idx_of_id_from(ds, id, i) < ds.len() ==> doc_id_m(ds[idx_of_id_from(ds, id, i)])
            == Some(id),
    decreases ds.len() - i,
{
    if i < ds.len() && doc_id_m(ds[i]) != Some(id) {
        lemma_idx_of_id_bounds(ds, id, i + 1);
    }
}

/// The documents matching a filter, in order.
pub open spec fn filtered(ds: Seq<Vm>, f: FilterM) -> Seq<Vm>
    decreases ds.len(),
{
    if ds.len() == 0 {
        Seq::empty()
    } else {
        filtered(ds.drop_last(), f) + (if matched(ds.last(), f) {
            seq![ds.last()]
        } else {
            Seq::empty()
        })
    }
}

/// A pagination window over a sequence.
pub open spec fn page_of(ds: Seq<Vm>, skip: nat, limit: nat) -> Seq<Vm> {
    let lo = if skip <= ds.len() {
        skip as int
    } else {
        ds.len() as int
    };
    let hi = if skip + limit <= ds.len() {
        (skip + limit) as int
    } else {
        ds.len() as int
    };
    ds.subrange(lo, hi)
}

/// The position of the first document at or after `i` matching the filter,
/// or the length when there is none.
pub open spec fn first_match_from(ds: Seq<Vm>, f: FilterM, i: int) -> int
    decreases ds.len() - i,
{
    if i < 0 || i >= ds.len() {
        ds.len() as int
    } else if matched(ds[i], f) {
        i
    } else {
        first_match_from(ds, f, i + 1)
    }
}

/// The first position lies between the start of the search and the end.
pub proof fn lemma_first_match_bounds(ds: Seq<Vm>, f: FilterM, i: int)
    requires
        0 <= i <= ds.len(),
    ensures
        i <= first_match_from(ds, f, i) <= ds.len(),
        first_match_from(ds, f, i) < ds.len() ==> matched(ds[first_match_from(ds, f, i)], f),
    decreases ds.len() - i,
{
    if i < ds.len() && !matched(ds[i], f) {
        lemma_first_match_bounds(ds, f, i + 1);
    }
}

/// When the search finds nothing, no document matches.
pub proof fn lemma_first_match_none(ds: Seq<Vm>, f: FilterM, i: int)
    requires
        0 <= i,
        first_match_from(ds, f, i) == ds.len(),
    ensures
        forall|j: int| i <= j < ds.len() ==> !matched(#[trigger] ds[j], f),
    decreases ds.len() - i,
{
    if i < ds.len() {
        lemma_first_match_bounds(ds, f, i + 1);
        lemma_first_match_none(ds, f, i + 1);
    }
}

/// No more documents match than there are documents.
pub proof fn lemma_filtered_len(ds: Seq<Vm>, f: FilterM)
    ensures
        filtered(ds, f).len() <= ds.len(),
    decreases ds.len(),
{
    if ds.len() > 0 {
        lemma_filtered_len(ds.drop_last(), f);
    }
}

/// The trivial filter keeps every document.
pub proof fn lemma_filtered_all(ds: Seq<Vm>)
    ensures
        filtered(ds, FilterM::All) == ds,
    decreases ds.len(),
{
    if ds.len() == 0 {
        assert(filtered(ds, FilterM::All) =~= ds);
    } else {
        lemma_filtered_all(ds.drop_last());
        assert(filtered(ds, FilterM::All) =~= ds);
    }
}

/// Taking one more document extends the filtered sequence by that document
/// when it matches.
pub proof fn lemma_filtered_take_step(ds: Seq<Vm>, f: FilterM, i: int)
    requires
        0 <= i < ds.len(),
    ensures
        filtered(ds.take(i + 1), f) == filtered(ds.take(i), f) + (if matched(ds[i], f) {
            seq![ds[i]]
        } else {
            Seq::empty()
        }),
{
    assert(ds.take(i + 1).drop_last() =~= ds.take(i));
    assert(ds.take(i + 1).last() == ds[i]);
}

/// One document after a set-field fan-out: documents matching the filter
/// get `field` set to `v`, others are untouched.
pub open spec fn set_one(d: Vm, f: FilterM, field: Seq<char>, v: Vm) -> Vm {
    if matched(d, f) {
        set_m(d, field, v)
    } else {
        d
    }
}

/// A document sequence after a set-field fan-out.
pub open spec fn set_many(ds: Seq<Vm>, f: FilterM, field: Seq<char>, v: Vm) -> Seq<Vm> {
    Seq::new(ds.len(), |j: int| set_one(ds[j], f, field, v))
}

/// How many of the first `i` documents a set-field fan-out actually
/// changes.
pub open spec fn set_changed_count(
    ds: Seq<Vm>,
    f: FilterM,
    field: Seq<char>,
    v: Vm,
    i: int,
) -> nat
    decreases i,
{
    if i <= 0 {
        0
    } else {
        set_changed_count(ds, f, field, v, i - 1) + (if set_one(ds[i - 1], f, field, v) != ds[i
            - 1] {
            1nat
        } else {
            0nat
        })
    }
}

/// One array element after an embedded-copy patch: elements carrying the
/// identifier are replaced, others are untouched.
pub open spec fn patch_elem(el: Vm, id: nat, rep: Vm) -> Vm {
    if doc_id_m(el) == Some(id) {
        rep
    } else {
        el
    }
}

/// An array after an embedded-copy patch, element by element and in order.
pub open spec fn patch_arr(els: Seq<Vm>, id: nat, rep: Vm) -> Seq<Vm> {
    Seq::new(els.len(), |j: int| patch_elem(els[j], id, rep))
}

/// One document after an embedded-copy patch of the array at field `af`.
pub open spec fn patch_doc(d: Vm, af: Seq<char>, id: nat, rep: Vm) -> Vm {
    match get_m(d, af) {
        Some(w) => match w {
            Vm::Arr(els) => set_m(d, af, Vm::Arr(patch_arr(els, id, rep))),
            _ => d,
        },
        None => d,
    }
}

/// A document sequence after an embedded-copy patch.
pub open spec fn patch_many(ds: Seq<Vm>, af: Seq<char>, id: nat, rep: Vm) -> Seq<Vm> {
    Seq::new(ds.len(), |j: int| patch_doc(ds[j], af, id, rep))
}

/// How many of the first `i` documents an embedded-copy patch actually
/// changes.
pub open spec fn patch_changed_count(ds: Seq<Vm>, af: Seq<char>, id: nat, rep: Vm, i: int) -> nat
    decreases i,
{
    if i <= 0 {
        0
    } else {
        patch_changed_count(ds, af, id, rep, i - 1) + (if patch_doc(ds[i - 1], af, id, rep)
            != ds[i - 1] {
            1nat
        } else {
            0nat
        })
    }
}

/// Whether two documents of the sequence carry the same value at `field`.
pub open spec fn dup_on(ds: Seq<Vm>, field: Seq<char>) -> bool {
    exists|j: int, k: int|
        0 <= j < k < ds.len() && get_m(#[trigger] ds[j], field) is Some && get_m(ds[j], field)
            == get_m(#[trigger] ds[k], field)
}

/// One offending pair for a uniqueness check: registered index `a` of the
/// collection, and document `b` (other than the excepted one) carrying the
/// same value as `d` at the indexed field.
pub open spec fn conflict_pair(
    s: Store,
    coll: Seq<char>,
    d: Vm,
    except: Option<nat>,
    a: int,
    b: int,
) -> bool {
    &&& 0 <= a < s.indexes@.len()
    &&& s.indexes@[a].collection@ == coll
    &&& 0 <= b < s.docs(coll).len()
    &&& (except is None || doc_id_m(s.docs(coll)[b]) != Some(except->0))
    &&& get_m(s.docs(coll)[b], s.indexes@[a].field@) is Some
    &&& get_m(s.docs(coll)[b], s.indexes@[a].field@) == get_m(d, s.indexes@[a].field@)
}

/// Whether writing document `d` into collection `coll` would violate a
/// registered unique index, ignoring the document whose identifier is
/// `except`.
pub open spec fn index_conflict(
    s: Store,
    coll: Seq<char>,
    d: Vm,
    except: Option<nat>,
) -> bool {
    exists|a: int, b: int| #[trigger] conflict_pair(s, coll, d, except, a, b)
}

impl Store {
    /// A store with no collections, no indexes, and the identifier counter
    /// at one.
    pub fn new() -> (r: Store)
        ensures
            r.wf(),
            r.next_id == 1,
            forall|n: Seq<char>| #![trigger r.docs(n)] r.docs(n) == Seq::<Vm>::empty(),
            forall|c: Seq<char>, f: Seq<char>| #![trigger r.has_index(c, f)] !r.has_index(c, f),
    {
        Store { collections: Vec::new(), indexes: Vec::new(), next_id: 1 }
    }

    /// The position of the first collection named `name` at or after `i`,
    /// or the collection count when there is none.
    pub open spec fn coll_at(self, name: Seq<char>, i: int) -> int
        decreases self.collections@.len() - i,
    {
        if i < 0 || i >= self.collections@.len() {
            self.collections@.len() as int
        } else if self.collections@[i].name@ == name {
            i
        } else {
            self.coll_at(name, i + 1)
        }
    }

    /// The position of the collection named `name`, or the collection count.
    pub open spec fn coll_idx(self, name: Seq<char>) -> int {
        self.coll_at(name, 0)
    }

    /// The documents of the collection named `name`; a collection that was
    /// never written is empty.
    pub open spec fn docs(self, name: Seq<char>) -> Seq<Vm> {
        if self.coll_idx(name) < self.collections@.len() {
            vm_seq(self.collections@[self.coll_idx(name)].docs@)
        } else {
            Seq::empty()
        }
    }

    /// Whether a unique index on `field` of collection `coll` is registered.
    pub open spec fn has_index(self, coll: Seq<char>, field: Seq<char>) -> bool {
        exists|i: int|
            0 <= i < self.indexes@.len() && (#[trigger] self.indexes@[i]).collection@ == coll
                && self.indexes@[i].field@ == field
    }

    /// The store's invariant: distinct collection names, and in every
    /// collection only well-formed documents with distinct identifiers.
    pub open spec fn wf(self) -> bool {
        &&& forall|i: int, j: int|
            0 <= i < j < self.collections@.len() ==> (#[trigger] self.collections@[i]).name@ != (
            #[trigger] self.collections@[j]).name@
        &&& forall|i: int|
            0 <= i < self.collections@.len() ==> docs_wf(
                vm_seq((#[trigger] self.collections@[i]).docs@),
                self.next_id as nat,
            )
        &&& forall|i: int|
            0 <= i < self.collections@.len() ==> ids_distinct(
                vm_seq((#[trigger] self.collections@[i]).docs@),
            )
    }

    /// The first position lies between the start of the search and the end.
    pub proof fn lemma_coll_at_bounds(self, name: Seq<char>, i: int)
        requires
            0 <= i <= self.collections@.len(),
        ensures
            i <= self.coll_at(name, i) <= self.collections@.len(),
            self.coll_at(name, i) < self.collections@.len() ==> self.collections@[self.coll_at(
                name,
                i,
            )].name@ == name,
        decreases self.collections@.len() - i,
    {
        if i < self.collections@.len() && self.collections@[i].name@ != name {
            self.lemma_coll_at_bounds(name, i + 1);
        }
    }

    /// In a well-formed store, the documents of a named collection are
    /// well-formed and carry distinct identifiers.
    pub proof fn lemma_docs_wf(self, name: Seq<char>)
        requires
            self.wf(),
        ensures
            docs_wf(self.docs(name), self.next_id as nat),
            ids_distinct(self.docs(name)),
    {
        self.lemma_coll_at_bounds(name, 0);
    }

    /// The position of the collection named `name`, when it exists.
    fn coll_pos(&self, name: &str) -> (r: Option<usize>)
        ensures
            match r {
                Some(p) => self.coll_idx(name@) == p && p < self.collections@.len(),
                None => self.coll_idx(name@) == self.collections@.len(),
            },
    {
        let n = self.collections.len();
        let mut i: usize = 0;
        proof {
            self.lemma_coll_at_bounds(name@, 0);
        }
        while i < n
            invariant
                n == self.collections@.len(),
                0 <= i <= n,
                self.coll_idx(name@) == self.coll_at(name@, i as int),
                self.coll_at(name@, i as int) >= i,
            decreases n - i,
        {
            if text::str_eq(self.collections[i].name.as_str(), name) {
                return Some(i);
            }
            proof {
                self.lemma_coll_at_bounds(name@, i as int + 1);
            }
            i = i + 1;
        }
        None
    }

    /// The first document of collection `coll` whose identifier is `id`, as
    /// a copy.
    pub fn find_one_by_id(&self, coll: &str, id: Oid) -> (r: Option<Value>)
        ensures
            match r {
                Some(d) => find_by_id(self.docs(coll@), id.model()) == Some(d@),
                None => find_by_id(self.docs(coll@), id.model()) is None,
            },
    {
        let pos = self.coll_pos(coll);
        match pos {
            None => None,
            Some(p) => {
                let ds = &self.collections[p].docs;
                proof {
                    lemma_vm_seq(ds@);
                }
                let n = ds.len();
                let ghost dm = self.docs(coll@);
                let mut i: usize = 0;
                proof {
                    lemma_idx_of_id_bounds(dm, id.model(), 0);
                }
                while i < n
                    invariant
                        n == ds@.len(),
                        0 <= i <= n,
                        dm == self.docs(coll@),
                        dm == vm_seq(ds@),
                        dm.len() == n,
                        forall|q: int| 0 <= q < n ==> #[trigger] dm[q] == vm(ds@[q]),
                        idx_of_id_from(dm, id.model(), 0) == idx_of_id_from(
                            dm,
                            id.model(),
                            i as int,
                        ),
                        idx_of_id_from(dm, id.model(), i as int) >= i,
                    decreases n - i,
                {
                    let matched = match ds[i].doc_id() {
                        Some(o) => o.value == id.value,
                        None => false,
                    };
                    if matched {
                        proof {
                            assert(doc_id_m(dm[i as int]) == Some(id.model()));
                            assert(idx_of_id_from(dm, id.model(), i as int) == i);
                        }
                        return Some(ds[i].deep_copy());
                    }
                    proof {
                        assert(doc_id_m(dm[i as int]) != Some(id.model()));
                        lemma_idx_of_id_bounds(dm, id.model(), i as int + 1);
                    }
                    i = i + 1;
                }
                None
            },
        }
    }

    /// Inserts a new document into collection `coll`: the store assigns the
    /// next identifier, appends the document, and refuses the write when it
    /// would violate a registered unique index.
    pub fn insert_one(&mut self, coll: &str, doc: Value) -> (r: Result<Oid, Erro>)
        requires
            old(self).wf(),
            old(self).next_id < u64::MAX,
            vm(doc) is Obj,
            doc_id_m(vm(doc)) is None,
        ensures
            final(self).wf(),
            final(self).indexes == old(self).indexes,
            match r {
                Ok(id) => {
                    &&& id.model() == old(self).next_id as nat
                    &&& id.valid()
                    &&& !index_conflict(
                        *old(self),
                        coll@,
                        with_id_m(vm(doc), old(self).next_id as nat),
                        None,
                    )
                    &&& final(self).next_id == old(self).next_id + 1
                    &&& final(self).docs(coll@) == old(self).docs(coll@).push(
                        with_id_m(vm(doc), old(self).next_id as nat),
                    )
                    &&& forall|n: Seq<char>|
                        #![trigger final(self).docs(n)]
                        n != coll@ ==> final(self).docs(n) == old(self).docs(n)
                },
                Err(e) => {
                    &&& e == Erro::DuplicateKey
                    &&& index_conflict(
                        *old(self),
                        coll@,
                        with_id_m(vm(doc), old(self).next_id as nat),
                        None,
                    )
                    &&& *final(self) == *old(self)
                },
            },
    {
        let id = Oid { value: self.next_id as u128 };
        let ghost idn = id.model();
        let ghost dm = vm(doc);
        let doc2 = doc.with_id(id);
        let ghost d2m = vm(doc2);
        proof {
            crate::value::lemma_with_id_id(dm, idn);
            assert(d2m == with_id_m(dm, idn));
        }
        if self.conflict_with(coll, &doc2, None) {
            return Err(Erro::DuplicateKey);
        }
        let pos = self.coll_pos(coll);
        let ghost pre = *self;
        match pos {
            Some(p) => {
                let ghost predocs = vm_seq(pre.collections@[p as int].docs@);
                let mut c = self.collections.remove(p);
                c.docs.push(doc2);
                let ghost cname = c.name@;
                let ghost cdocs = c.docs@;
                self.collections.insert(p, c);
                self.next_id = self.next_id + 1;
                proof {
                    pre.lemma_coll_at_bounds(coll@, 0);
                    assert(cname == coll@);
                    assert(cdocs == pre.collections@[p as int].docs@.push(doc2));
                    assert(self.collections@.len() == pre.collections@.len());
                    assert forall|k: int| 0 <= k < self.collections@.len() && k != p
                        implies #[trigger] self.collections@[k] == pre.collections@[k] by {
                        if k < p {
                            assert(self.collections@[k]
                                == pre.collections@.remove(p as int)[k]);
                        } else {
                            assert(self.collections@[k]
                                == pre.collections@.remove(p as int)[k - 1]);
                        }
                    }
                    assert(self.collections@[p as int].name@ == coll@);
                    assert(self.collections@[p as int].docs@ == cdocs);
                    lemma_vm_seq(cdocs);
                    lemma_vm_seq(pre.collections@[p as int].docs@);
                    assert(vm_seq(cdocs) =~= predocs.push(d2m));
                    assert forall|n: Seq<char>| true
                        implies #[trigger] self.coll_idx(n) == pre.coll_idx(n) by {
                        lemma_coll_at_same_names(pre, *self, n, 0);
                    }
                    assert(self.docs(coll@) == predocs.push(d2m));
                    assert(pre.docs(coll@) == predocs);
                    assert forall|n: Seq<char>| #![trigger self.docs(n)] n != coll@
                        implies self.docs(n) == pre.docs(n) by {
                        pre.lemma_coll_at_bounds(n, 0);
                        if pre.coll_idx(n) < pre.collections@.len() {
                            assert(pre.collections@[pre.coll_idx(n)].name@ == n);
                            assert(pre.coll_idx(n) != p);
                            assert(self.collections@[pre.coll_idx(n)]
                                == pre.collections@[pre.coll_idx(n)]);
                        }
                    }
                    assert forall|i: int| 0 <= i < self.collections@.len() implies docs_wf(
                        vm_seq((#[trigger] self.collections@[i]).docs@),
                        self.next_id as nat,
                    ) && ids_distinct(vm_seq(self.collections@[i].docs@)) by {
                        assert(docs_wf(
                            vm_seq(pre.collections@[i].docs@),
                            pre.next_id as nat,
                        ));
                        assert(ids_distinct(vm_seq(pre.collections@[i].docs@)));
                        if i == p {
                            let nds = vm_seq(self.collections@[i].docs@);
                            assert(nds == predocs.push(d2m));
                            assert(doc_id_m(d2m) == Some(idn));
                            assert forall|j: int| 0 <= j < nds.len() implies doc_wf(
                                #[trigger] nds[j],
                                self.next_id as nat,
                            ) by {
                                if j < nds.len() - 1 {
                                    assert(nds[j] == predocs[j]);
                                    assert(doc_wf(predocs[j], pre.next_id as nat));
                                }
                            }
                            assert forall|j: int, k: int| 0 <= j < k < nds.len()
                                implies doc_id_m(#[trigger] nds[j]) != doc_id_m(
                                #[trigger] nds[k],
                            ) by {
                                if k < nds.len() - 1 {
                                    assert(nds[j] == predocs[j] && nds[k] == predocs[k]);
                                } else {
                                    assert(nds[j] == predocs[j]);
                                    assert(doc_wf(predocs[j], pre.next_id as nat));
                                }
                            }
                        } else {
                            assert(self.collections@[i] == pre.collections@[i]);
                            assert forall|j: int|
                                0 <= j < vm_seq(self.collections@[i].docs@).len()
                                implies doc_wf(
                                #[trigger] vm_seq(self.collections@[i].docs@)[j],
                                self.next_id as nat,
                            ) by {
                                assert(doc_wf(
                                    vm_seq(pre.collections@[i].docs@)[j],
                                    pre.next_id as nat,
                                ));
                            }
                        }
                    }
                }
                Ok(id)
            },
            None => {
                let name_s = String::from_str(coll);
                let mut dv: Vec<Value> = Vec::new();
                dv.push(doc2);
                let ghost dvm = dv@;
                self.collections.push(Collection { name: name_s, docs: dv });
                self.next_id = self.next_id + 1;
                proof {
                    let alen = pre.collections@.len() as int;
                    assert(self.collections@.len() == alen + 1);
                    assert forall|k: int| 0 <= k < alen
                        implies #[trigger] self.collections@[k] == pre.collections@[k] by {}
                    assert(self.collections@[alen].name@ == coll@);
                    assert(self.collections@[alen].docs@ == dvm);
                    lemma_vm_seq(dvm);
                    assert(vm_seq(dvm) =~= Seq::<Vm>::empty().push(d2m));
                    assert(pre.docs(coll@) == Seq::<Vm>::empty());
                    lemma_coll_at_append(pre, *self, coll@, 0);
                    assert(self.coll_idx(coll@) == alen);
                    assert(self.docs(coll@) == pre.docs(coll@).push(d2m));
                    assert forall|n: Seq<char>| #![trigger self.docs(n)] n != coll@
                        implies self.docs(n) == pre.docs(n) by {
                        lemma_coll_at_append(pre, *self, n, 0);
                        pre.lemma_coll_at_bounds(n, 0);
                        if pre.coll_idx(n) < alen {
                            assert(self.collections@[pre.coll_idx(n)]
                                == pre.collections@[pre.coll_idx(n)]);
                        }
                    }
                    lemma_coll_at_none(pre, coll@, 0);
                    assert forall|i: int, j: int| 0 <= i < j < self.collections@.len()
                        implies (#[trigger] self.collections@[i]).name@ != (
                        #[trigger] self.collections@[j]).name@ by {
                        if j < alen {
                            assert(self.collections@[i] == pre.collections@[i]);
                            assert(self.collections@[j] == pre.collections@[j]);
                        } else {
                            assert(self.collections@[i] == pre.collections@[i]);
                            assert(pre.collections@[i].name@ != coll@);
                        }
                    }
                    assert forall|i: int| 0 <= i < self.collections@.len() implies docs_wf(
                        vm_seq((#[trigger] self.collections@[i]).docs@),
                        self.next_id as nat,
                    ) && ids_distinct(vm_seq(self.collections@[i].docs@)) by {
                        if i < alen {
                            assert(self.collections@[i] == pre.collections@[i]);
                            assert(docs_wf(
                                vm_seq(pre.collections@[i].docs@),
                                pre.next_id as nat,
                            ));
                            assert(ids_distinct(vm_seq(pre.collections@[i].docs@)));
                            assert forall|j: int|
                                0 <= j < vm_seq(self.collections@[i].docs@).len()
                                implies doc_wf(
                                #[trigger] vm_seq(self.collections@[i].docs@)[j],
                                self.next_id as nat,
                            ) by {
                                assert(doc_wf(
                                    vm_seq(pre.collections@[i].docs@)[j],
                                    pre.next_id as nat,
                                ));
                            }
                        } else {
                            let nds = vm_seq(self.collections@[i].docs@);
                            assert(nds == Seq::<Vm>::empty().push(d2m));
                            assert(doc_id_m(d2m) == Some(idn));
                            assert(nds.len() == 1);
                            assert(doc_wf(nds[0], self.next_id as nat));
                        }
                    }
                }
                Ok(id)
            },
        }
    }

    /// Replaces the document identified by `id` in collection `coll` by
    /// `doc` under the same identifier: a full-document replace. Zero
    /// matched documents is reported, not an error; a write that would
    /// violate a unique index is refused.
    pub fn replace_one(&mut self, coll: &str, id: Oid, doc: Value) -> (r: Result<u64, Erro>)
        requires
            old(self).wf(),
            vm(doc) is Obj,
            doc_id_m(vm(doc)) is None,
        ensures
            final(self).wf(),
            final(self).indexes == old(self).indexes,
            final(self).next_id == old(self).next_id,
            match r {
                Ok(n) => {
                    let ds = old(self).docs(coll@);
                    let p = idx_of_id_from(ds, id.model(), 0);
                    if p < ds.len() {
                        &&& n == 1
                        &&& !index_conflict(
                            *old(self),
                            coll@,
                            with_id_m(vm(doc), id.model()),
                            Some(id.model()),
                        )
                        &&& final(self).docs(coll@) == ds.update(
                            p,
                            with_id_m(vm(doc), id.model()),
                        )
                        &&& forall|nm: Seq<char>|
                            #![trigger final(self).docs(nm)]
                            nm != coll@ ==> final(self).docs(nm) == old(self).docs(nm)
                    } else {
                        n == 0 && *final(self) == *old(self)
                    }
                },
                Err(e) => {
                    let ds = old(self).docs(coll@);
                    let p = idx_of_id_from(ds, id.model(), 0);
                    &&& e == Erro::DuplicateKey
                    &&& p < ds.len()
                    &&& index_conflict(
                        *old(self),
                        coll@,
                        with_id_m(vm(doc), id.model()),
                        Some(id.model()),
                    )
                    &&& *final(self) == *old(self)
                },
            },
    {
        let ghost dm0 = vm(doc);
        let doc2 = doc.with_id(id);
        let ghost d2m = vm(doc2);
        proof {
            crate::value::lemma_with_id_id(dm0, id.model());
        }
        let pos = self.coll_pos(coll);
        match pos {
            None => {
                proof {
                    assert(self.docs(coll@) == Seq::<Vm>::empty());
                }
                Ok(0)
            },
            Some(p) => {
                let ghost pre = *self;
                let ghost predm = self.docs(coll@);
                let jopt = find_pos_by_id(&self.collections[p].docs, id);
                proof {
                    assert(vm_seq(self.collections@[p as int].docs@) == predm);
                }
                match jopt {
                    None => Ok(0),
                    Some(j) => {
                        if self.conflict_with(coll, &doc2, Some(id)) {
                            proof {
                                lemma_vm_seq(pre.collections@[p as int].docs@);
                                assert(predm == old(self).docs(coll@));
                                assert(idx_of_id_from(predm, id.model(), 0) == j);
                                assert(j < predm.len());
                                assert(d2m == with_id_m(dm0, id.model()));
                                assert(index_conflict(*old(self), coll@, d2m, Some(id.model())));
                            }
                            return Err(Erro::DuplicateKey);
                        }
                        let mut dv = self.swap_out_docs(p);
                        dv.set(j, doc2);
                        let ghost dvm = dv@;
                        self.swap_in_docs(p, dv);
                        proof {
                            lemma_vm_seq(dvm);
                            lemma_vm_seq(pre.collections@[p as int].docs@);
                            assert(vm_seq(dvm) =~= predm.update(j as int, d2m));
                            pre.lemma_coll_at_bounds(coll@, 0);
                            lemma_docs_frame(pre, *self, p as int, coll@);
                            pre.lemma_docs_wf(coll@);
                            lemma_idx_of_id_bounds(predm, id.model(), 0);
                            assert(doc_wf(predm[j as int], pre.next_id as nat));
                            assert(doc_id_m(predm[j as int]) == Some(id.model()));
                            assert(doc_id_m(d2m) == Some(id.model()));
                            let nds = vm_seq(self.collections@[p as int].docs@);
                            assert forall|q: int| 0 <= q < nds.len() implies doc_wf(
                                #[trigger] nds[q],
                                self.next_id as nat,
                            ) by {
                                if q != j {
                                    assert(nds[q] == predm[q]);
                                }
                                assert(doc_wf(predm[q], pre.next_id as nat));
                            }
                            assert forall|x: int, y: int| 0 <= x < y < nds.len()
                                implies doc_id_m(#[trigger] nds[x]) != doc_id_m(
                                #[trigger] nds[y],
                            ) by {
                                assert(doc_id_m(nds[x]) == doc_id_m(predm[x]));
                                assert(doc_id_m(nds[y]) == doc_id_m(predm[y]));
                            }
                            lemma_wf_update(pre, *self, p as int);
                        }
                        Ok(1)
                    },
                }
            },
        }
    }

    /// Deletes the document identified by `id` from collection `coll`,
    /// reporting how many documents (one or zero) were removed. Dependent
    /// embedded copies are not cleaned up.
    pub fn delete_one(&mut self, coll: &str, id: Oid) -> (r: u64)
        requires
            old(self).wf(),
        ensures
            final(self).wf(),
            final(self).indexes == old(self).indexes,
            final(self).next_id == old(self).next_id,
            ({
                let ds = old(self).docs(coll@);
                let p = idx_of_id_from(ds, id.model(), 0);
                if p < ds.len() {
                    &&& r == 1
                    &&& final(self).docs(coll@) == ds.remove(p)
                    &&& forall|nm: Seq<char>|
                        #![trigger final(self).docs(nm)]
                        nm != coll@ ==> final(self).docs(nm) == old(self).docs(nm)
                } else {
                    r == 0 && *final(self) == *old(self)
                }
            }),
    {
        let pos = self.coll_pos(coll);
        match pos {
            None => {
                proof {
                    assert(self.docs(coll@) == Seq::<Vm>::empty());
                }
                0
            },
            Some(p) => {
                let ghost pre = *self;
                let ghost predm = self.docs(coll@);
                let jopt = find_pos_by_id(&self.collections[p].docs, id);
                proof {
                    assert(vm_seq(self.collections@[p as int].docs@) == predm);
                }
                match jopt {
                    None => 0,
                    Some(j) => {
                        let mut dv = self.swap_out_docs(p);
                        dv.remove(j);
                        let ghost dvm = dv@;
                        self.swap_in_docs(p, dv);
                        proof {
                            lemma_vm_seq(dvm);
                            lemma_vm_seq(pre.collections@[p as int].docs@);
                            assert forall|q: int| 0 <= q < dvm.len()
                                implies #[trigger] vm_seq(dvm)[q] == predm.remove(j as int)[q]
                                by {
                                if q < j {
                                    assert(dvm[q] == pre.collections@[p as int].docs@[q]);
                                } else {
                                    assert(dvm[q] == pre.collections@[p as int].docs@[q + 1]);
                                }
                            }
                            assert(vm_seq(dvm) =~= predm.remove(j as int));
                            pre.lemma_coll_at_bounds(coll@, 0);
                            lemma_docs_frame(pre, *self, p as int, coll@);
                            pre.lemma_docs_wf(coll@);
                            let nds = vm_seq(self.collections@[p as int].docs@);
                            assert forall|q: int| 0 <= q < nds.len() implies doc_wf(
                                #[trigger] nds[q],
                                self.next_id as nat,
                            ) by {
                                if q < j {
                                    assert(nds[q] == predm[q]);
                                    assert(doc_wf(predm[q], pre.next_id as nat));
                                } else {
                                    assert(nds[q] == predm[q + 1]);
                                    assert(doc_wf(predm[q + 1], pre.next_id as nat));
                                }
                            }
                            assert forall|x: int, y: int| 0 <= x < y < nds.len()
                                implies doc_id_m(#[trigger] nds[x]) != doc_id_m(
                                #[trigger] nds[y],
                            ) by {
                                let ox: int = if x < j {
                                    x
                                } else {
                                    x + 1
                                };
                                let oy: int = if y < j {
                                    y
                                } else {
                                    y + 1
                                };
                                assert(nds[x] == predm[ox]);
                                assert(nds[y] == predm[oy]);
                                assert(doc_id_m(predm[ox]) != doc_id_m(predm[oy]));
                            }
                            lemma_wf_update(pre, *self, p as int);
                        }
                        1
                    },
                }
            },
        }
    }

    /// Counts the documents of collection `coll` that match a filter.
    pub fn count_documents(&self, coll: &str, f: &Filter) -> (r: u64)
        ensures
            r as nat == filtered(self.docs(coll@), f@).len(),
    {
        let pos = self.coll_pos(coll);
        match pos {
            None => {
                proof {
                    assert(self.docs(coll@) == Seq::<Vm>::empty());
                    assert(filtered(self.docs(coll@), f@) == Seq::<Vm>::empty());
                }
                0
            },
            Some(p) => {
                let ds = &self.collections[p].docs;
                proof {
                    lemma_vm_seq(ds@);
                }
                let ghost dm = self.docs(coll@);
                let n = ds.len();
                let mut cnt: u64 = 0;
                let mut i: usize = 0;
                proof {
                    assert(dm.take(0) =~= Seq::<Vm>::empty());
                }
                while i < n
                    invariant
                        n == ds@.len(),
                        0 <= i <= n,
                        dm == self.docs(coll@),
                        dm == vm_seq(ds@),
                        dm.len() == n,
                        forall|q: int| 0 <= q < n ==> #[trigger] dm[q] == vm(ds@[q]),
                        cnt as nat == filtered(dm.take(i as int), f@).len(),
                        cnt <= i,
                    decreases n - i,
                {
                    let m = filter_matches(&ds[i], f);
                    proof {
                        lemma_filtered_take_step(dm, f@, i as int);
                    }
                    if m {
                        cnt = cnt + 1;
                    }
                    i = i + 1;
                }
                proof {
                    assert(dm.take(n as int) =~= dm);
                }
                cnt
            },
        }
    }

    /// The first document of collection `coll` matching a filter, as a
    /// copy.
    pub fn find_first(&self, coll: &str, f: &Filter) -> (r: Option<Value>)
        ensures
            match r {
                Some(d) => {
                    let fm = first_match_from(self.docs(coll@), f@, 0);
                    fm < self.docs(coll@).len() && d@ == self.docs(coll@)[fm]
                },
                None => first_match_from(self.docs(coll@), f@, 0) == self.docs(coll@).len(),
            },
    {
        let pos = self.coll_pos(coll);
        match pos {
            None => {
                proof {
                    assert(self.docs(coll@) == Seq::<Vm>::empty());
                }
                None
            },
            Some(p) => {
                let ds = &self.collections[p].docs;
                proof {
                    lemma_vm_seq(ds@);
                    lemma_first_match_bounds(vm_seq(ds@), f@, 0);
                }
                let ghost dm = self.docs(coll@);
                let n = ds.len();
                let mut i: usize = 0;
                while i < n
                    invariant
                        n == ds@.len(),
                        0 <= i <= n,
                        dm == self.docs(coll@),
                        dm == vm_seq(ds@),
                        dm.len() == n,
                        forall|q: int| 0 <= q < n ==> #[trigger] dm[q] == vm(ds@[q]),
                        first_match_from(dm, f@, 0) == first_match_from(dm, f@, i as int),
                        first_match_from(dm, f@, i as int) >= i,
                    decreases n - i,
                {
                    if filter_matches(&ds[i], f) {
                        proof {
                            assert(first_match_from(dm, f@, i as int) == i);
                        }
                        return Some(ds[i].deep_copy());
                    }
                    proof {
                        lemma_first_match_bounds(dm, f@, i as int + 1);
                    }
                    i = i + 1;
                }
                None
            },
        }
    }

    /// One page of the documents of collection `coll` matching a filter:
    /// the matching documents in storage order, then the pagination window,
    /// as copies.
    pub fn find_page(&self, coll: &str, f: &Filter, skip: u64, limit: u64) -> (r: Vec<Value>)
        ensures
            vm_seq(r@) == page_of(
                filtered(self.docs(coll@), f@),
                skip as nat,
                limit as nat,
            ),
    {
        let ghost dm = self.docs(coll@);
        let ghost fm = filtered(dm, f@);
        let mut acc: Vec<Value> = Vec::new();
        let pos = self.coll_pos(coll);
        match pos {
            None => {
                proof {
                    assert(dm == Seq::<Vm>::empty());
                    assert(fm == Seq::<Vm>::empty());
                }
            },
            Some(p) => {
                let ds = &self.collections[p].docs;
                proof {
                    lemma_vm_seq(ds@);
                    assert(dm.take(0) =~= Seq::<Vm>::empty());
                }
                let n = ds.len();
                let mut i: usize = 0;
                while i < n
                    invariant
                        n == ds@.len(),
                        0 <= i <= n,
                        dm == self.docs(coll@),
                        dm == vm_seq(ds@),
                        dm.len() == n,
                        fm == filtered(dm, f@),
                        forall|q: int| 0 <= q < n ==> #[trigger] dm[q] == vm(ds@[q]),
                        vm_seq(acc@) == filtered(dm.take(i as int), f@),
                        acc@.len() == filtered(dm.take(i as int), f@).len(),
                    decreases n - i,
                {
                    let m = filter_matches(&ds[i], f);
                    proof {
                        lemma_filtered_take_step(dm, f@, i as int);
                    }
                    if m {
                        let ghost a0 = acc@;
                        let c = ds[i].deep_copy();
                        acc.push(c);
                        proof {
                            lemma_vm_seq(acc@);
                            lemma_vm_seq(a0);
                            assert forall|q: int| 0 <= q < acc@.len()
                                implies #[trigger] vm_seq(acc@)[q] == filtered(
                                dm.take(i as int + 1),
                                f@,
                            )[q] by {
                                if q < acc@.len() - 1 {
                                    assert(acc@[q] == a0[q]);
                                    assert(vm_seq(a0)[q] == vm(a0[q]));
                                }
                            }
                            assert(vm_seq(acc@) =~= filtered(dm.take(i as int + 1), f@));
                        }
                    }
                    i = i + 1;
                }
                proof {
                    assert(dm.take(n as int) =~= dm);
                }
            },
        }
        proof {
            assert(vm_seq(acc@) == fm);
            assert(acc@.len() == fm.len());
        }
        let len = acc.len();
        let lo: usize = if skip >= len as u64 {
            len
        } else {
            skip as usize
        };
        let remaining = len - lo;
        let take_n: usize = if limit >= remaining as u64 {
            remaining
        } else {
            limit as usize
        };
        let hi = lo + take_n;
        let mut out: Vec<Value> = Vec::new();
        let mut k = lo;
        proof {
            lemma_vm_seq(acc@);
        }
        while k < hi
            invariant
                lo <= k <= hi,
                hi <= acc@.len(),
                vm_seq(acc@) == fm,
                fm.len() == acc@.len(),
                forall|q: int| 0 <= q < acc@.len() ==> #[trigger] vm_seq(acc@)[q] == vm(acc@[q]),
                out@.len() == k - lo,
                forall|q: int| 0 <= q < out@.len() ==> vm(#[trigger] out@[q]) == fm[lo + q],
            decreases hi - k,
        {
            let c = acc[k].deep_copy();
            out.push(c);
            k = k + 1;
        }
        proof {
            lemma_vm_seq(out@);
            assert(vm_seq(out@) =~= page_of(fm, skip as nat, limit as nat));
        }
        out
    }

    /// Registers a unique index on one top-level field of a collection.
    /// Registration is idempotent; on data that already violates the
    /// constraint the index is refused and nothing changes.
    pub fn ensure_unique_index(&mut self, coll: &str, field: &str) -> (r: Result<(), Erro>)
        requires
            old(self).wf(),
        ensures
            final(self).wf(),
            final(self).collections == old(self).collections,
            final(self).next_id == old(self).next_id,
            forall|n: Seq<char>|
                #![trigger final(self).docs(n)]
                final(self).docs(n) == old(self).docs(n),
            old(self).has_index(coll@, field@) ==> *final(self) == *old(self) && r is Ok,
            !old(self).has_index(coll@, field@) ==> match r {
                Ok(u) => {
                    &&& !dup_on(old(self).docs(coll@), field@)
                    &&& forall|c: Seq<char>, f: Seq<char>|
                        #![trigger final(self).has_index(c, f)]
                        final(self).has_index(c, f) == (old(self).has_index(c, f) || (c == coll@
                            && f == field@))
                },
                Err(e) => {
                    &&& e == Erro::DuplicateKey
                    &&& dup_on(old(self).docs(coll@), field@)
                    &&& *final(self) == *old(self)
                },
            },
    {
        let ghost pre = *self;
        let ni = self.indexes.len();
        let mut i: usize = 0;
        while i < ni
            invariant
                ni == self.indexes@.len(),
                *self == pre,
                pre == *old(self),
                old(self).wf(),
                0 <= i <= ni,
                forall|q: int|
                    0 <= q < i ==> !((#[trigger] self.indexes@[q]).collection@ == coll@
                        && self.indexes@[q].field@ == field@),
            decreases ni - i,
        {
            let same_coll = text::str_eq(self.indexes[i].collection.as_str(), coll);
            let same_field = text::str_eq(self.indexes[i].field.as_str(), field);
            if same_coll && same_field {
                proof {
                    assert(self.has_index(coll@, field@));
                }
                return Ok(());
            }
            i = i + 1;
        }
        proof {
            assert(!self.has_index(coll@, field@));
        }
        if self.has_duplicates_on(coll, field) {
            return Err(Erro::DuplicateKey);
        }
        let ghost preix = self.indexes@;
        let spec_entry = IndexSpec {
            collection: String::from_str(coll),
            field: String::from_str(field),
        };
        self.indexes.push(spec_entry);
        proof {
            assert(self.indexes@.len() == preix.len() + 1);
            assert(self.indexes@[preix.len() as int].collection@ == coll@);
            assert(self.indexes@[preix.len() as int].field@ == field@);
            assert forall|c: Seq<char>, f: Seq<char>|
                #![trigger self.has_index(c, f)]
                true implies self.has_index(c, f) == (pre.has_index(c, f) || (c == coll@ && f
                == field@)) by {
                if pre.has_index(c, f) {
                    let q = choose|q: int|
                        0 <= q < preix.len() && (#[trigger] preix[q]).collection@ == c
                            && preix[q].field@ == f;
                    assert(self.indexes@[q].collection@ == c && self.indexes@[q].field@ == f);
                    assert(self.has_index(c, f));
                } else if c == coll@ && f == field@ {
                    assert(self.has_index(c, f));
                } else {
                    if self.has_index(c, f) {
                        let q = choose|q: int|
                            0 <= q < self.indexes@.len() && (#[trigger] self.indexes@[q]).collection@
                                == c && self.indexes@[q].field@ == f;
                        if q < preix.len() {
                            assert(preix[q].collection@ == c && preix[q].field@ == f);
                            assert(pre.has_index(c, f));
                        }
                        assert(false);
                    }
                }
            }
            assert forall|n: Seq<char>|
                #![trigger self.docs(n)]
                true implies self.docs(n) == pre.docs(n) by {
                lemma_coll_at_same_names(pre, *self, n, 0);
            }
            assert(self.wf()) by {
                assert forall|x: int| 0 <= x < self.collections@.len() implies docs_wf(
                    vm_seq((#[trigger] self.collections@[x]).docs@),
                    self.next_id as nat,
                ) && ids_distinct(vm_seq(self.collections@[x].docs@)) by {
                    assert(self.collections@[x] == pre.collections@[x]);
                    assert(docs_wf(
                        vm_seq(pre.collections@[x].docs@),
                        pre.next_id as nat,
                    ));
                    assert(ids_distinct(vm_seq(pre.collections@[x].docs@)));
                }
            }
        }
        Ok(())
    }

    /// Scans collection `coll` for two documents sharing a value at
    /// `field`.
    fn has_duplicates_on(&self, coll: &str, field: &str) -> (r: bool)
        ensures
            r == dup_on(self.docs(coll@), field@),
    {
        let pos = self.coll_pos(coll);
        match pos {
            None => {
                proof {
                    assert(self.docs(coll@) == Seq::<Vm>::empty());
                }
                false
            },
            Some(p) => {
                let ds = &self.collections[p].docs;
                proof {
                    lemma_vm_seq(ds@);
                }
                let ghost dm = self.docs(coll@);
                let n = ds.len();
                let mut j: usize = 0;
                while j < n
                    invariant
                        n == ds@.len(),
                        0 <= j <= n,
                        dm == self.docs(coll@),
                        dm == vm_seq(ds@),
                        dm.len() == n,
                        forall|q: int| 0 <= q < n ==> #[trigger] dm[q] == vm(ds@[q]),
                        forall|x: int, y: int|
                            0 <= x < y < n && x < j ==> !(get_m(#[trigger] dm[x], field@) is Some
                                && get_m(dm[x], field@) == get_m(#[trigger] dm[y], field@)),
                    decreases n - j,
                {
                    match ds[j].get_field(field) {
                        Some(vj) => {
                            let mut k = j + 1;
                            while k < n
                                invariant
                                    n == ds@.len(),
                                    0 <= j < k <= n,
                                    dm == self.docs(coll@),
                                    dm == vm_seq(ds@),
                                    dm.len() == n,
                                    forall|q: int| 0 <= q < n ==> #[trigger] dm[q] == vm(ds@[q]),
                                    get_m(dm[j as int], field@) == Some(vj@),
                                    forall|y: int|
                                        j < y < k ==> get_m(dm[j as int], field@) != get_m(
                                            #[trigger] dm[y],
                                            field@,
                                        ),
                                decreases n - k,
                            {
                                let hit = match ds[k].get_field(field) {
                                    Some(vk) => crate::value::value_eq(vj, vk),
                                    None => false,
                                };
                                if hit {
                                    proof {
                                        assert(get_m(dm[j as int], field@) is Some && get_m(
                                            dm[j as int],
                                            field@,
                                        ) == get_m(dm[k as int], field@));
                                        assert(dup_on(dm, field@));
                                    }
                                    return true;
                                }
                                proof {
                                    assert(get_m(dm[j as int], field@) != get_m(
                                        dm[k as int],
                                        field@,
                                    ));
                                }
                                k = k + 1;
                            }
                        },
                        None => {
                            proof {
                                assert(get_m(dm[j as int], field@) is None);
                            }
                        },
                    }
                    proof {
                        assert forall|x: int, y: int| 0 <= x < y < n && x < j + 1
                            implies !(get_m(#[trigger] dm[x], field@) is Some && get_m(
                            dm[x],
                            field@,
                        ) == get_m(#[trigger] dm[y], field@)) by {
                            if x < j {
                                assert(!(get_m(dm[x], field@) is Some && get_m(dm[x], field@)
                                    == get_m(dm[y], field@)));
                            }
                        }
                    }
                    j = j + 1;
                }
                proof {
                    assert(!dup_on(dm, field@)) by {
                        if dup_on(dm, field@) {
                            let (x, y) = choose|x: int, y: int|
                                0 <= x < y < dm.len() && get_m(#[trigger] dm[x], field@) is Some
                                    && get_m(dm[x], field@) == get_m(#[trigger] dm[y], field@);
                            assert(!(get_m(dm[x], field@) is Some && get_m(dm[x], field@)
                                == get_m(dm[y], field@)));
                        }
                    }
                }
                false
            },
        }
    }

    /// Sets `field` to `new_val` in every document of collection `coll`
    /// matching the filter, and reports how many documents actually
    /// changed.
    pub fn update_many_set(&mut self, coll: &str, f: &Filter, field: &str, new_val: &Value) -> (r:
        u64)
        requires
            old(self).wf(),
            field@ != "_id"@,
        ensures
            final(self).wf(),
            final(self).indexes == old(self).indexes,
            final(self).next_id == old(self).next_id,
            final(self).docs(coll@) == set_many(old(self).docs(coll@), f@, field@, vm(*new_val)),
            forall|n: Seq<char>|
                #![trigger final(self).docs(n)]
                n != coll@ ==> final(self).docs(n) == old(self).docs(n),
            r as nat == set_changed_count(
                old(self).docs(coll@),
                f@,
                field@,
                vm(*new_val),
                old(self).docs(coll@).len() as int,
            ),
    {
        let pos = self.coll_pos(coll);
        match pos {
            None => {
                proof {
                    assert(self.docs(coll@) == Seq::<Vm>::empty());
                    assert(set_many(self.docs(coll@), f@, field@, vm(*new_val))
                        =~= Seq::<Vm>::empty());
                }
                0
            },
            Some(p) => {
                let ghost pre = *self;
                let ghost predm = self.docs(coll@);
                let ghost prevec = self.collections@[p as int].docs@;
                proof {
                    lemma_vm_seq(prevec);
                }
                let mut dv = self.swap_out_docs(p);
                let n = dv.len();
                let mut cnt: u64 = 0;
                let mut j: usize = 0;
                while j < n
                    invariant
                        n == dv@.len(),
                        0 <= j <= n,
                        predm.len() == n,
                        cnt <= j,
                        forall|q: int| 0 <= q < n ==> #[trigger] predm[q] == vm(prevec[q]),
                        forall|q: int| j <= q < n ==> #[trigger] dv@[q] == prevec[q],
                        forall|q: int|
                            0 <= q < j ==> vm(#[trigger] dv@[q]) == set_one(
                                predm[q],
                                f@,
                                field@,
                                vm(*new_val),
                            ),
                        cnt as nat == set_changed_count(predm, f@, field@, vm(*new_val), j as int),
                    decreases n - j,
                {
                    proof {
                        assert(dv@[j as int] == prevec[j as int]);
                        assert(vm(dv@[j as int]) == predm[j as int]);
                    }
                    let m = filter_matches(&dv[j], f);
                    if m {
                        let copy = dv[j].deep_copy();
                        let nd = copy.set_field(field, new_val.deep_copy());
                        let ghost ndm = vm(nd);
                        proof {
                            assert(ndm == set_m(predm[j as int], field@, vm(*new_val)));
                            assert(set_one(predm[j as int], f@, field@, vm(*new_val)) == ndm);
                        }
                        let changed = !crate::value::value_eq(&nd, &dv[j]);
                        if changed {
                            dv.set(j, nd);
                            cnt = cnt + 1;
                            proof {
                                assert(vm(dv@[j as int]) == ndm);
                                assert(ndm != predm[j as int]);
                            }
                        } else {
                            proof {
                                assert(ndm == predm[j as int]);
                                assert(vm(dv@[j as int]) == set_one(
                                    predm[j as int],
                                    f@,
                                    field@,
                                    vm(*new_val),
                                ));
                            }
                        }
                    } else {
                        proof {
                            assert(set_one(predm[j as int], f@, field@, vm(*new_val))
                                == predm[j as int]);
                        }
                    }
                    j = j + 1;
                }
                let ghost dvm = dv@;
                self.swap_in_docs(p, dv);
                proof {
                    lemma_vm_seq(dvm);
                    assert(vm_seq(dvm) =~= set_many(predm, f@, field@, vm(*new_val)));
                    pre.lemma_coll_at_bounds(coll@, 0);
                    lemma_docs_frame(pre, *self, p as int, coll@);
                    pre.lemma_docs_wf(coll@);
                    let nds = vm_seq(self.collections@[p as int].docs@);
                    assert forall|q: int| 0 <= q < nds.len() implies doc_wf(
                        #[trigger] nds[q],
                        self.next_id as nat,
                    ) && doc_id_m(nds[q]) == doc_id_m(predm[q]) by {
                        assert(doc_wf(predm[q], pre.next_id as nat));
                        crate::value::lemma_set_keeps_id(predm[q], field@, vm(*new_val));
                        assert(nds[q] == set_one(predm[q], f@, field@, vm(*new_val)));
                    }
                    assert forall|x: int, y: int| 0 <= x < y < nds.len() implies doc_id_m(
                        #[trigger] nds[x],
                    ) != doc_id_m(#[trigger] nds[y]) by {
                        assert(doc_id_m(predm[x]) != doc_id_m(predm[y]));
                    }
                    lemma_wf_update(pre, *self, p as int);
                }
                cnt
            },
        }
    }

    /// Replaces, inside the array at field `af` of every document of
    /// collection `coll`, each element carrying identifier `id` by `rep`,
    /// in place and in order, and reports how many documents actually
    /// changed.
    pub fn update_many_replace_in_array(
        &mut self,
        coll: &str,
        af: &str,
        id: Oid,
        rep: &Value,
    ) -> (r: u64)
        requires
            old(self).wf(),
            af@ != "_id"@,
        ensures
            final(self).wf(),
            final(self).indexes == old(self).indexes,
            final(self).next_id == old(self).next_id,
            final(self).docs(coll@) == patch_many(
                old(self).docs(coll@),
                af@,
                id.model(),
                vm(*rep),
            ),
            forall|n: Seq<char>|
                #![trigger final(self).docs(n)]
                n != coll@ ==> final(self).docs(n) == old(self).docs(n),
            r as nat == patch_changed_count(
                old(self).docs(coll@),
                af@,
                id.model(),
                vm(*rep),
                old(self).docs(coll@).len() as int,
            ),
    {
        let pos = self.coll_pos(coll);
        match pos {
            None => {
                proof {
                    assert(self.docs(coll@) == Seq::<Vm>::empty());
                    assert(patch_many(self.docs(coll@), af@, id.model(), vm(*rep))
                        =~= Seq::<Vm>::empty());
                }
                0
            },
            Some(p) => {
                let ghost pre = *self;
                let ghost predm = self.docs(coll@);
                let ghost prevec = self.collections@[p as int].docs@;
                proof {
                    lemma_vm_seq(prevec);
                }
                let mut dv = self.swap_out_docs(p);
                let n = dv.len();
                let mut cnt: u64 = 0;
                let mut j: usize = 0;
                while j < n
                    invariant
                        n == dv@.len(),
                        0 <= j <= n,
                        predm.len() == n,
                        cnt <= j,
                        forall|q: int| 0 <= q < n ==> #[trigger] predm[q] == vm(prevec[q]),
                        forall|q: int| j <= q < n ==> #[trigger] dv@[q] == prevec[q],
                        forall|q: int|
                            0 <= q < j ==> vm(#[trigger] dv@[q]) == patch_doc(
                                predm[q],
                                af@,
                                id.model(),
                                vm(*rep),
                            ),
                        cnt as nat == patch_changed_count(
                            predm,
                            af@,
                            id.model(),
                            vm(*rep),
                            j as int,
                        ),
                    decreases n - j,
                {
                    proof {
                        assert(dv@[j as int] == prevec[j as int]);
                        assert(vm(dv@[j as int]) == predm[j as int]);
                    }
                    let nd = patch_doc_exec(&dv[j], af, id, rep);
                    let ghost ndm = vm(nd);
                    proof {
                        assert(ndm == patch_doc(predm[j as int], af@, id.model(), vm(*rep)));
                    }
                    let changed = !crate::value::value_eq(&nd, &dv[j]);
                    if changed {
                        dv.set(j, nd);
                        cnt = cnt + 1;
                        proof {
                            assert(vm(dv@[j as int]) == ndm);
                            assert(ndm != predm[j as int]);
                        }
                    } else {
                        proof {
                            assert(ndm == predm[j as int]);
                            assert(vm(dv@[j as int]) == patch_doc(
                                predm[j as int],
                                af@,
                                id.model(),
                                vm(*rep),
                            ));
                        }
                    }
                    j = j + 1;
                }
                let ghost dvm = dv@;
                self.swap_in_docs(p, dv);
                proof {
                    lemma_vm_seq(dvm);
                    assert(vm_seq(dvm) =~= patch_many(predm, af@, id.model(), vm(*rep)));
                    pre.lemma_coll_at_bounds(coll@, 0);
                    lemma_docs_frame(pre, *self, p as int, coll@);
                    pre.lemma_docs_wf(coll@);
                    let nds = vm_seq(self.collections@[p as int].docs@);
                    assert forall|q: int| 0 <= q < nds.len() implies doc_wf(
                        #[trigger] nds[q],
                        self.next_id as nat,
                    ) && doc_id_m(nds[q]) == doc_id_m(predm[q]) by {
                        assert(doc_wf(predm[q], pre.next_id as nat));
                        assert(nds[q] == patch_doc(predm[q], af@, id.model(), vm(*rep)));
                        lemma_patch_doc_keeps_id(predm[q], af@, id.model(), vm(*rep));
                    }
                    assert forall|x: int, y: int| 0 <= x < y < nds.len() implies doc_id_m(
                        #[trigger] nds[x],
                    ) != doc_id_m(#[trigger] nds[y]) by {
                        assert(doc_id_m(predm[x]) != doc_id_m(predm[y]));
                    }
                    lemma_wf_update(pre, *self, p as int);
                }
                cnt
            },
        }
    }

    /// Takes the documents of collection `p` out, leaving it empty.
    fn swap_out_docs(&mut self, p: usize) -> (r: Vec<Value>)
        requires
            p < old(self).collections@.len(),
        ensures
            final(self).collections@.len() == old(self).collections@.len(),
            forall|k: int|
                0 <= k < old(self).collections@.len() && k != p
                    ==> #[trigger] final(self).collections@[k] == old(self).collections@[k],
            final(self).collections@[p as int].name@ == old(self).collections@[p as int].name@,
            final(self).collections@[p as int].docs@.len() == 0,
            r@ == old(self).collections@[p as int].docs@,
            final(self).indexes == old(self).indexes,
            final(self).next_id == old(self).next_id,
    {
        let ghost pre = *self;
        let c = self.collections.remove(p);
        let ghost nv = c.name@;
        let ghost dv = c.docs@;
        let empty: Vec<Value> = Vec::new();
        self.collections.insert(p, Collection { name: c.name, docs: empty });
        proof {
            assert forall|k: int| 0 <= k < pre.collections@.len() && k != p
                implies #[trigger] self.collections@[k] == pre.collections@[k] by {
                if k < p {
                    assert(self.collections@[k] == pre.collections@.remove(p as int)[k]);
                } else {
                    assert(self.collections@[k] == pre.collections@.remove(p as int)[k - 1]);
                }
            }
            assert(self.collections@[p as int].name@ == nv);
        }
        c.docs
    }

    /// Puts a document vector into collection `p`, keeping its name.
    fn swap_in_docs(&mut self, p: usize, dv: Vec<Value>)
        requires
            p < old(self).collections@.len(),
        ensures
            final(self).collections@.len() == old(self).collections@.len(),
            forall|k: int|
                0 <= k < old(self).collections@.len() && k != p
                    ==> #[trigger] final(self).collections@[k] == old(self).collections@[k],
            final(self).collections@[p as int].name@ == old(self).collections@[p as int].name@,
            final(self).collections@[p as int].docs@ == dv@,
            final(self).indexes == old(self).indexes,
            final(self).next_id == old(self).next_id,
    {
        let ghost pre = *self;
        let ghost dvm = dv@;
        let c = self.collections.remove(p);
        let ghost nv = c.name@;
        self.collections.insert(p, Collection { name: c.name, docs: dv });
        proof {
            assert forall|k: int| 0 <= k < pre.collections@.len() && k != p
                implies #[trigger] self.collections@[k] == pre.collections@[k] by {
                if k < p {
                    assert(self.collections@[k] == pre.collections@.remove(p as int)[k]);
                } else {
                    assert(self.collections@[k] == pre.collections@.remove(p as int)[k - 1]);
                }
            }
            assert(self.collections@[p as int].name@ == nv);
            assert(self.collections@[p as int].docs@ == dvm);
        }
    }

    /// Decides whether writing `d` into `coll` would violate a registered
    /// unique index, ignoring the document identified by `except`.
    fn conflict_with(&self, coll: &str, d: &Value, except: Option<Oid>) -> (r: bool)
        ensures
            r == index_conflict(*self, coll@, d@, except_model(except)),
    {
        let ghost exm = except_model(except);
        let ni = self.indexes.len();
        let mut a: usize = 0;
        while a < ni
            invariant
                ni == self.indexes@.len(),
                0 <= a <= ni,
                exm == except_model(except),
                forall|x: int, y: int| 0 <= x < a
                    ==> !#[trigger] conflict_pair(*self, coll@, d@, exm, x, y),
            decreases ni - a,
        {
            let applies = text::str_eq(self.indexes[a].collection.as_str(), coll);
            if applies {
                let field = &self.indexes[a].field;
                match d.get_field(field.as_str()) {
                    Some(val) => {
                        if self.conflict_in_docs(coll, val, except, a) {
                            proof {
                                let y = choose|y: int|
                                    0 <= y < self.docs(coll@).len() && (exm is None || doc_id_m(
                                        #[trigger] self.docs(coll@)[y],
                                    ) != Some(exm->0)) && get_m(
                                        self.docs(coll@)[y],
                                        self.indexes@[a as int].field@,
                                    ) is Some && get_m(
                                        self.docs(coll@)[y],
                                        self.indexes@[a as int].field@,
                                    ) == Some(val@);
                                assert(conflict_pair(*self, coll@, d@, exm, a as int, y));
                            }
                            return true;
                        }
                    },
                    None => {
                        proof {
                            assert forall|y: int|
                                !conflict_pair(*self, coll@, d@, exm, a as int, y) by {}
                        }
                    },
                }
            }
            proof {
                assert forall|x: int, y: int| 0 <= x < a + 1
                    implies !#[trigger] conflict_pair(*self, coll@, d@, exm, x, y) by {
                    if x < a {
                        assert(!conflict_pair(*self, coll@, d@, exm, x, y));
                    }
                }
            }
            a = a + 1;
        }
        proof {
            assert forall|x: int, y: int|
                !#[trigger] conflict_pair(*self, coll@, d@, exm, x, y) by {
                if 0 <= x < ni {
                    assert(!conflict_pair(*self, coll@, d@, exm, x, y));
                }
            }
        }
        false
    }

    /// Scans one collection for a document other than `except` holding
    /// `val` at the field of registered index `a`.
    fn conflict_in_docs(&self, coll: &str, val: &Value, except: Option<Oid>, a: usize) -> (r:
        bool)
        requires
            a < self.indexes@.len(),
            self.indexes@[a as int].collection@ == coll@,
        ensures
            r == exists|y: int|
                0 <= y < self.docs(coll@).len()
                    && (except_model(except) is None || doc_id_m(
                    #[trigger] self.docs(coll@)[y],
                ) != Some(except_model(except)->0)) && get_m(
                    self.docs(coll@)[y],
                    self.indexes@[a as int].field@,
                ) is Some && get_m(self.docs(coll@)[y], self.indexes@[a as int].field@) == Some(
                    val@,
                ),
    {
        let ghost exm = except_model(except);
        let ghost dm = self.docs(coll@);
        let pos = self.coll_pos(coll);
        match pos {
            None => false,
            Some(p) => {
                let ds = &self.collections[p].docs;
                proof {
                    lemma_vm_seq(ds@);
                }
                let n = ds.len();
                let field = &self.indexes[a].field;
                let mut y: usize = 0;
                while y < n
                    invariant
                        n == ds@.len(),
                        0 <= y <= n,
                        a < self.indexes@.len(),
                        field == &self.indexes@[a as int].field,
                        exm == except_model(except),
                        dm == self.docs(coll@),
                        dm == vm_seq(ds@),
                        dm.len() == n,
                        forall|q: int| 0 <= q < n ==> #[trigger] dm[q] == vm(ds@[q]),
                        forall|q: int| 0 <= q < y
                            ==> !((exm is None || doc_id_m(#[trigger] dm[q]) != Some(exm->0))
                                && get_m(dm[q], field@) is Some && get_m(dm[q], field@) == Some(
                                val@,
                            )),
                    decreases n - y,
                {
                    let considered = match (except, ds[y].doc_id()) {
                        (Some(e), Some(o)) => o.value != e.value,
                        _ => true,
                    };
                    let mut hit = false;
                    if considered {
                        match ds[y].get_field(field.as_str()) {
                            Some(w) => {
                                if crate::value::value_eq(w, val) {
                                    hit = true;
                                }
                            },
                            None => {},
                        }
                    }
                    if hit {
                        proof {
                            assert((exm is None || doc_id_m(dm[y as int]) != Some(exm->0))
                                && get_m(dm[y as int], field@) is Some && get_m(
                                dm[y as int],
                                field@,
                            ) == Some(val@));
                        }
                        return true;
                    }
                    proof {
                        assert(!((exm is None || doc_id_m(dm[y as int]) != Some(exm->0))
                            && get_m(dm[y as int], field@) is Some && get_m(dm[y as int], field@)
                            == Some(val@)));
                    }
                    y = y + 1;
                }
                false
            },
        }
    }
}

/// The position of the first document with identifier `id` in a vector of
/// documents, when there is one.
fn find_pos_by_id(ds: &Vec<Value>, id: Oid) -> (r: Option<usize>)
    ensures
        match r {
            Some(j) => idx_of_id_from(vm_seq(ds@), id.model(), 0) == j && j < ds@.len(),
            None => idx_of_id_from(vm_seq(ds@), id.model(), 0) == vm_seq(ds@).len(),
        },
{
    proof {
        lemma_vm_seq(ds@);
        lemma_idx_of_id_bounds(vm_seq(ds@), id.model(), 0);
    }
    let ghost dm = vm_seq(ds@);
    let n = ds.len();
    let mut i: usize = 0;
    while i < n
        invariant
            n == ds@.len(),
            0 <= i <= n,
            dm == vm_seq(ds@),
            dm.len() == n,
            forall|q: int| 0 <= q < n ==> #[trigger] dm[q] == vm(ds@[q]),
            idx_of_id_from(dm, id.model(), 0) == idx_of_id_from(dm, id.model(), i as int),
            idx_of_id_from(dm, id.model(), i as int) >= i,
        decreases n - i,
    {
        let hit = match ds[i].doc_id() {
            Some(o) => o.value == id.value,
            None => false,
        };
        if hit {
            proof {
                assert(doc_id_m(dm[i as int]) == Some(id.model()));
                assert(idx_of_id_from(dm, id.model(), i as int) == i);
            }
            return Some(i);
        }
        proof {
            assert(doc_id_m(dm[i as int]) != Some(id.model()));
            lemma_idx_of_id_bounds(dm, id.model(), i as int + 1);
        }
        i = i + 1;
    }
    None
}

/// An embedded-copy patch leaves a document's identifier alone.
pub proof fn lemma_patch_doc_keeps_id(d: Vm, af: Seq<char>, id: nat, rep: Vm)
    requires
        af != "_id"@,
    ensures
        patch_doc(d, af, id, rep) is Obj == d is Obj,
        doc_id_m(patch_doc(d, af, id, rep)) == doc_id_m(d),
{
    match get_m(d, af) {
        Some(w) => match w {
            Vm::Arr(els) => {
                crate::value::lemma_set_keeps_id(d, af, Vm::Arr(patch_arr(els, id, rep)));
            },
            _ => {},
        },
        None => {},
    }
}

/// Builds the embedded-copy patch of one document: the array at `af` with
/// every element carrying `id` replaced by `rep`.
fn patch_doc_exec(d: &Value, af: &str, id: Oid, rep: &Value) -> (r: Value)
    ensures
        vm(r) == patch_doc(vm(*d), af@, id.model(), vm(*rep)),
{
    let found = d.get_field(af);
    match found {
        Some(w) => {
            match w {
                Value::Arr(els) => {
                    proof {
                        lemma_vm_seq(els@);
                        assert(get_m(vm(*d), af@) == Some(Vm::Arr(vm_seq(els@))));
                    }
                    let n = els.len();
                    let mut na: Vec<Value> = Vec::new();
                    let mut k: usize = 0;
                    while k < n
                        invariant
                            n == els@.len(),
                            0 <= k <= n,
                            vm_seq(els@).len() == n,
                            forall|q: int| 0 <= q < n ==> #[trigger] vm_seq(els@)[q] == vm(
                                els@[q],
                            ),
                            na@.len() == k,
                            forall|q: int|
                                0 <= q < k ==> vm(#[trigger] na@[q]) == patch_elem(
                                    vm_seq(els@)[q],
                                    id.model(),
                                    vm(*rep),
                                ),
                        decreases n - k,
                    {
                        let is_hit = match els[k].doc_id() {
                            Some(o) => o.value == id.value,
                            None => false,
                        };
                        proof {
                            if is_hit {
                                assert(doc_id_m(vm(els@[k as int])) == Some(id.model()));
                            } else {
                                assert(doc_id_m(vm(els@[k as int])) != Some(id.model()));
                            }
                        }
                        let c = if is_hit {
                            rep.deep_copy()
                        } else {
                            els[k].deep_copy()
                        };
                        na.push(c);
                        k = k + 1;
                    }
                    proof {
                        lemma_vm_seq(na@);
                        assert(vm_seq(na@) =~= patch_arr(vm_seq(els@), id.model(), vm(*rep)));
                    }
                    let copy = d.deep_copy();
                    let newd = copy.set_field(af, Value::Arr(na));
                    proof {
                        assert(vm(newd) == set_m(
                            vm(*d),
                            af@,
                            Vm::Arr(patch_arr(vm_seq(els@), id.model(), vm(*rep))),
                        ));
                    }
                    newd
                },
                _ => {
                    proof {
                        assert(patch_doc(vm(*d), af@, id.model(), vm(*rep)) == vm(*d));
                    }
                    d.deep_copy()
                },
            }
        },
        None => {
            proof {
                assert(patch_doc(vm(*d), af@, id.model(), vm(*rep)) == vm(*d));
            }
            d.deep_copy()
        },
    }
}

/// The numeric model of an optional excepted identifier.
pub open spec fn except_model(e: Option<Oid>) -> Option<nat> {
    match e {
        Some(o) => Some(o.model()),
        None => None,
    }
}

/// Well-formedness of documents is monotone in the identifier bound.
pub proof fn lemma_docs_wf_mono(ds: Seq<Vm>, a: nat, b: nat)
    requires
        docs_wf(ds, a),
        a <= b,
    ensures
        docs_wf(ds, b),
{
    assert forall|j: int| 0 <= j < ds.len() implies doc_wf(#[trigger] ds[j], b) by {
        assert(doc_wf(ds[j], a));
    }
}

/// After replacing the documents of one collection, lookups of its name see
/// the new documents and every other name is untouched.
pub proof fn lemma_docs_frame(pre: Store, post: Store, p: int, name: Seq<char>)
    requires
        forall|i: int, j: int|
            0 <= i < j < pre.collections@.len() ==> (#[trigger] pre.collections@[i]).name@ != (
            #[trigger] pre.collections@[j]).name@,
        post.collections@.len() == pre.collections@.len(),
        forall|k: int|
            0 <= k < pre.collections@.len() && k != p ==> #[trigger] post.collections@[k]
                == pre.collections@[k],
        0 <= p < pre.collections@.len(),
        post.collections@[p].name@ == pre.collections@[p].name@,
        pre.collections@[p].name@ == name,
        pre.coll_idx(name) == p,
    ensures
        post.coll_idx(name) == p,
        post.docs(name) == vm_seq(post.collections@[p].docs@),
        forall|n: Seq<char>| #![trigger post.docs(n)] n != name ==> post.docs(n) == pre.docs(n),
{
    assert forall|n: Seq<char>| true implies #[trigger] post.coll_idx(n) == pre.coll_idx(n) by {
        lemma_coll_at_same_names(pre, post, n, 0);
    }
    assert forall|n: Seq<char>| #![trigger post.docs(n)] n != name
        implies post.docs(n) == pre.docs(n) by {
        pre.lemma_coll_at_bounds(n, 0);
        if pre.coll_idx(n) < pre.collections@.len() {
            assert(pre.collections@[pre.coll_idx(n)].name@ == n);
            assert(pre.coll_idx(n) != p);
            assert(post.collections@[pre.coll_idx(n)] == pre.collections@[pre.coll_idx(n)]);
        }
    }
}

/// A store stays well-formed when one collection's documents are replaced
/// by well-formed documents with distinct identifiers, and the identifier
/// counter does not go down.
pub proof fn lemma_wf_update(pre: Store, post: Store, p: int)
    requires
        pre.wf(),
        post.collections@.len() == pre.collections@.len(),
        forall|k: int|
            0 <= k < pre.collections@.len() && k != p ==> #[trigger] post.collections@[k]
                == pre.collections@[k],
        0 <= p < pre.collections@.len(),
        post.collections@[p].name@ == pre.collections@[p].name@,
        pre.next_id <= post.next_id,
        docs_wf(vm_seq(post.collections@[p].docs@), post.next_id as nat),
        ids_distinct(vm_seq(post.collections@[p].docs@)),
    ensures
        post.wf(),
{
    assert forall|i: int, j: int| 0 <= i < j < post.collections@.len()
        implies (#[trigger] post.collections@[i]).name@ != (
        #[trigger] post.collections@[j]).name@ by {
        assert(post.collections@[i].name@ == pre.collections@[i].name@);
        assert(post.collections@[j].name@ == pre.collections@[j].name@);
    }
    assert forall|i: int| 0 <= i < post.collections@.len() implies docs_wf(
        vm_seq((#[trigger] post.collections@[i]).docs@),
        post.next_id as nat,
    ) && ids_distinct(vm_seq(post.collections@[i].docs@)) by {
        if i != p {
            assert(post.collections@[i] == pre.collections@[i]);
            lemma_docs_wf_mono(
                vm_seq(pre.collections@[i].docs@),
                pre.next_id as nat,
                post.next_id as nat,
            );
            assert(ids_distinct(vm_seq(pre.collections@[i].docs@)));
        }
    }
}

/// Collection lookup depends only on the collection names.
pub proof fn lemma_coll_at_same_names(a: Store, b: Store, name: Seq<char>, i: int)
    requires
        a.collections@.len() == b.collections@.len(),
        forall|k: int|
            0 <= k < a.collections@.len() ==> (#[trigger] a.collections@[k]).name@
                == b.collections@[k].name@,
        0 <= i <= a.collections@.len(),
    ensures
        a.coll_at(name, i) == b.coll_at(name, i),
    decreases a.collections@.len() - i,
{
    if i < a.collections@.len() && a.collections@[i].name@ != name {
        lemma_coll_at_same_names(a, b, name, i + 1);
    }
}

/// When a name is absent, no collection bears it.
pub proof fn lemma_coll_at_none(s: Store, name: Seq<char>, i: int)
    requires
        0 <= i,
        s.coll_at(name, i) == s.collections@.len(),
    ensures
        forall|k: int| i <= k < s.collections@.len() ==> (#[trigger] s.collections@[k]).name@
            != name,
    decreases s.collections@.len() - i,
{
    if i < s.collections@.len() {
        s.lemma_coll_at_bounds(name, i + 1);
        lemma_coll_at_none(s, name, i + 1);
    }
}

/// Appending one collection only affects lookups of names that were absent.
pub proof fn lemma_coll_at_append(a: Store, b: Store, name: Seq<char>, i: int)
    requires
        b.collections@.len() == a.collections@.len() + 1,
        forall|k: int|
            0 <= k < a.collections@.len() ==> #[trigger] b.collections@[k]
                == a.collections@[k],
        0 <= i <= a.collections@.len(),
    ensures
        a.coll_at(name, i) < a.collections@.len() ==> b.coll_at(name, i) == a.coll_at(name, i),
        a.coll_at(name, i) == a.collections@.len() ==> (if b.collections@[a.collections@.len()
            as int].name@ == name {
            b.coll_at(name, i) == a.collections@.len()
        } else {
            b.coll_at(name, i) == a.collections@.len() + 1
        }),
    decreases a.collections@.len() - i,
{
    let alen = a.collections@.len() as int;
    if i < alen {
        assert(b.collections@[i] == a.collections@[i]);
        if a.collections@[i].name@ != name {
            lemma_coll_at_append(a, b, name, i + 1);
        }
    } else {
        assert(a.coll_at(name, i) == alen);
        if b.collections@[alen].name@ == name {
            assert(b.coll_at(name, i) == alen);
        } else {
            assert(b.coll_at(name, i + 1) == alen + 1);
            assert(b.coll_at(name, i) == alen + 1);
        }
    }
}

} // verus!
