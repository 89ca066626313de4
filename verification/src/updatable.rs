//! The generic persistence protocol: the capability set every entity type
//! opts into, with the create / update / delete / lookup / pagination
//! behaviour implemented once, and entity-specific fan-out of updates to
//! embedded copies.

use crate::filter::{Filter, FilterM};
use crate::store::{
    filtered, find_by_id, idx_of_id_from, index_conflict, page_of, Store,
};
use crate::value::{doc_id_m, strip_id_m, vm, vm_seq, with_id_m, Oid, Value, Vm};
use crate::Erro;
use vstd::prelude::*;
use vstd::string::*;

verus! {

/// The numeric model of an optional identifier.
pub open spec fn spec_id_model(o: Option<Oid>) -> Option<nat> {
    match o {
        Some(x) => Some(x.model()),
        None => None,
    }
}

/// The identifier a parsed entity carries: the one of its document.
pub open spec fn oid_of_doc(d: Vm) -> Option<Oid> {
    match doc_id_m(d) {
        Some(n) => Some(Oid { value: n as u128 }),
        None => None,
    }
}

/// The character-level model of a status result.
pub open spec fn res_view(r: Result<String, Erro>) -> Result<Seq<char>, Erro> {
    match r {
        Ok(s) => Ok(s@),
        Err(e) => Err(e),
    }
}

/// The pagination offset: pages are one-indexed, and page zero reads like
/// page one.
pub open spec fn list_skip(page: u64, per_page: u64) -> nat {
    if page >= 1 {
        ((page - 1) * per_page) as nat
    } else {
        0
    }
}

/// An entity type persisted by the generic protocol.
///
/// An implementation supplies its storage namespace, its serialized
/// document form, its identifier accessor and its propagation of updates to
/// dependent documents; the protocol supplies create, update, delete,
/// lookup and pagination on top of those.
pub trait Updatable: Sized {
    /// The storage namespace for this entity type.
    spec fn spec_collection_name() -> Seq<char>;

    /// The serialized document of this entity: the identifier field stands
    /// first exactly when the entity has an identifier.
    spec fn spec_doc(self) -> Vm;

    /// The entity's identifier, or none before its first save.
    spec fn spec_id(self) -> Option<Oid>;

    /// Which documents parse back into an entity.
    spec fn doc_ok(d: Vm) -> bool;

    /// The canonical re-serialization of a parseable document: what the
    /// entity parsed from `d` serializes to.
    spec fn canon(d: Vm) -> Vm;

    /// How this entity's update fans out to the documents that embed it:
    /// relates the store before, the store after and the status report.
    spec fn propagate_post(self, pre: Store, post: Store, r: Result<Seq<char>, Erro>) -> bool;

    /// The serialized document is a document, and carries the entity's
    /// identifier.
    proof fn lemma_doc_shape(self)
        ensures
            self.spec_doc() is Obj,
            doc_id_m(self.spec_doc()) == spec_id_model(self.spec_id()),
    ;

    /// The storage namespace.
    fn collection_name() -> (r: &'static str)
        ensures
            r@ == Self::spec_collection_name(),
    ;

    /// The entity's current identifier, if any.
    fn id_opt(&self) -> (r: Option<Oid>)
        ensures
            r == self.spec_id(),
    ;

    /// Serializes the entity to its document.
    fn to_doc(&self) -> (d: Value)
        ensures
            vm(d) == self.spec_doc(),
    ;

    /// Reads an entity back from a document.
    fn from_doc(d: &Value) -> (r: Option<Self>)
        ensures
            r is Some <==> Self::doc_ok(vm(*d)),
            match r {
                Some(e) => e.spec_doc() == Self::canon(vm(*d)) && e.spec_id() == oid_of_doc(
                    vm(*d),
                ),
                None => true,
            },
    ;

    /// Entity-specific fan-out: pushes this entity's current state into
    /// every dependent document that embeds a copy of it.
    fn update_all_products(&self, store: &mut Store) -> (r: Result<String, Erro>)
        requires
            old(store).wf(),
        ensures
            final(store).wf(),
            self.propagate_post(*old(store), *final(store), res_view(r)),
    ;

    /// Inserts the entity as a new document: its serialized form, stripped
    /// of any identifier field, under a fresh identifier.
    fn create(&self, store: &mut Store) -> (r: Result<Oid, Erro>)
        requires
            old(store).wf(),
            old(store).next_id < u64::MAX,
        ensures
            final(store).wf(),
            final(store).indexes == old(store).indexes,
            match r {
                Ok(id) => {
                    &&& id.model() == old(store).next_id as nat
                    &&& id.valid()
                    &&& final(store).next_id == old(store).next_id + 1
                    &&& final(store).docs(Self::spec_collection_name()) == old(store).docs(
                        Self::spec_collection_name(),
                    ).push(with_id_m(strip_id_m(self.spec_doc()), id.model()))
                    &&& forall|n: Seq<char>|
                        #![trigger final(store).docs(n)]
                        n != Self::spec_collection_name() ==> final(store).docs(n) == old(
                            store,
                        ).docs(n)
                    &&& !index_conflict(
                        *old(store),
                        Self::spec_collection_name(),
                        with_id_m(strip_id_m(self.spec_doc()), old(store).next_id as nat),
                        None,
                    )
                },
                Err(e) => {
                    &&& e == Erro::DuplicateKey
                    &&& index_conflict(
                        *old(store),
                        Self::spec_collection_name(),
                        with_id_m(strip_id_m(self.spec_doc()), old(store).next_id as nat),
                        None,
                    )
                    &&& *final(store) == *old(store)
                },
            },
    {
        proof {
            self.lemma_doc_shape();
            crate::value::lemma_strip_no_id(self.spec_doc());
        }
        let d = self.to_doc().strip_id();
        store.insert_one(Self::collection_name(), d)
    }

    /// Saves an already-created entity: a full-document replace keyed by
    /// its identifier, followed unconditionally by the fan-out to
    /// dependent documents. An entity without an identifier is rejected; a
    /// replace that matched no document is reported as such; a fan-out
    /// failure surfaces even though the primary write already happened.
    fn update(&self, store: &mut Store) -> (r: Result<String, Erro>)
        requires
            old(store).wf(),
        ensures
            final(store).wf(),
            match self.spec_id() {
                None => r == Err::<String, Erro>(Erro::MissingIdentifier) && *final(store)
                    == *old(store),
                Some(id) => {
                    let ds = old(store).docs(Self::spec_collection_name());
                    let p = idx_of_id_from(ds, id.model(), 0);
                    let newdoc = with_id_m(strip_id_m(self.spec_doc()), id.model());
                    if p >= ds.len() {
                        r == Err::<String, Erro>(Erro::NotFoundOnReplace) && *final(store)
                            == *old(store)
                    } else {
                        ||| {
                            &&& r == Err::<String, Erro>(Erro::DuplicateKey)
                            &&& index_conflict(
                                *old(store),
                                Self::spec_collection_name(),
                                newdoc,
                                Some(id.model()),
                            )
                            &&& *final(store) == *old(store)
                        }
                        ||| {
                        &&& !index_conflict(
                            *old(store),
                            Self::spec_collection_name(),
                            newdoc,
                            Some(id.model()),
                        )
                        &&& exists|mid: Store, pr: Result<Seq<char>, Erro>|
                            {
                                &&& mid.wf()
                                &&& mid.docs(Self::spec_collection_name()) == ds.update(
                                    p,
                                    newdoc,
                                )
                                &&& (forall|n: Seq<char>|
                                    #![trigger mid.docs(n)]
                                    n != Self::spec_collection_name() ==> mid.docs(n) == old(
                                        store,
                                    ).docs(n))
                                &&& mid.indexes == old(store).indexes
                                &&& mid.next_id == old(store).next_id
                                &&& #[trigger] self.propagate_post(mid, *final(store), pr)
                                &&& match pr {
                                    Ok(m) => r is Ok && r->Ok_0@ == "Entity saved and "@ + m,
                                    Err(e) => r == Err::<String, Erro>(e),
                                }
                            }
                        }
                    }
                },
            },
    {
        proof {
            self.lemma_doc_shape();
            crate::value::lemma_strip_no_id(self.spec_doc());
        }
        let ido = self.id_opt();
        match ido {
            None => Err(Erro::MissingIdentifier),
            Some(id) => {
                let d = self.to_doc().strip_id();
                let rep = store.replace_one(Self::collection_name(), id, d);
                match rep {
                    Err(e) => Err(e),
                    Ok(matched) => {
                        if matched == 0 {
                            Err(Erro::NotFoundOnReplace)
                        } else {
                            let ghost mid = *store;
                            let up = self.update_all_products(store);
                            match up {
                                Ok(msg) => {
                                    let ghost prm = msg@;
                                    let mut out = String::from_str("Entity saved and ");
                                    out.append(msg.as_str());
                                    proof {
                                        reveal_strlit("Entity saved and ");
                                        assert(self.propagate_post(
                                            mid,
                                            *store,
                                            Ok::<Seq<char>, Erro>(prm),
                                        ));
                                        assert(out@ == "Entity saved and "@ + prm);
                                    }
                                    Ok(out)
                                },
                                Err(e) => {
                                    proof {
                                        assert(self.propagate_post(
                                            mid,
                                            *store,
                                            Err::<Seq<char>, Erro>(e),
                                        ));
                                    }
                                    Err(e)
                                },
                            }
                        }
                    },
                }
            },
        }
    }

    /// Deletes the entity's document by its identifier, reporting how many
    /// documents (one or zero) were removed. Dependent embedded copies are
    /// left alone.
    fn delete(&self, store: &mut Store) -> (r: Result<u64, Erro>)
        requires
            old(store).wf(),
        ensures
            final(store).wf(),
            final(store).indexes == old(store).indexes,
            final(store).next_id == old(store).next_id,
            match self.spec_id() {
                None => r == Err::<u64, Erro>(Erro::MissingIdentifier) && *final(store) == *old(
                    store,
                ),
                Some(id) => {
                    let ds = old(store).docs(Self::spec_collection_name());
                    let p = idx_of_id_from(ds, id.model(), 0);
                    match r {
                        Ok(n) => {
                            if p < ds.len() {
                                &&& n == 1
                                &&& final(store).docs(Self::spec_collection_name())
                                    == ds.remove(p)
                                &&& forall|nm: Seq<char>|
                                    #![trigger final(store).docs(nm)]
                                    nm != Self::spec_collection_name() ==> final(store).docs(nm)
                                        == old(store).docs(nm)
                            } else {
                                n == 0 && *final(store) == *old(store)
                            }
                        },
                        Err(_) => false,
                    }
                },
            },
    {
        let ido = self.id_opt();
        match ido {
            None => Err(Erro::MissingIdentifier),
            Some(id) => {
                let n = store.delete_one(Self::collection_name(), id);
                Ok(n)
            },
        }
    }

    /// Point lookup by identifier; an absent document is not an error.
    fn get_by_id(store: &Store, id: Oid) -> (r: Result<Option<Self>, Erro>)
        requires
            store.wf(),
        ensures
            match r {
                Ok(opt) => match find_by_id(store.docs(Self::spec_collection_name()), id.model()) {
                    None => opt is None,
                    Some(d) => {
                        &&& Self::doc_ok(d)
                        &&& match opt {
                            Some(e) => e.spec_doc() == Self::canon(d) && e.spec_id()
                                == oid_of_doc(d),
                            None => false,
                        }
                    },
                },
                Err(e) => {
                    &&& e == Erro::Serialization
                    &&& match find_by_id(store.docs(Self::spec_collection_name()), id.model()) {
                        Some(d) => !Self::doc_ok(d),
                        None => false,
                    }
                },
            },
    {
        let found = store.find_one_by_id(Self::collection_name(), id);
        match found {
            None => Ok(None),
            Some(d) => match Self::from_doc(&d) {
                Some(e) => Ok(Some(e)),
                None => Err(Erro::Serialization),
            },
        }
    }

    /// One page of the collection in storage order, one-indexed, together
    /// with the total count of all its documents.
    fn list_paginated(store: &Store, page: u64, per_page: u64) -> (r: Result<
        (Vec<Self>, u64),
        Erro,
    >)
        requires
            store.wf(),
        ensures
            ({
                let ds = store.docs(Self::spec_collection_name());
                let win = page_of(ds, list_skip(page, per_page), per_page as nat);
                match r {
                    Ok(p) => {
                        &&& p.1 as nat == ds.len()
                        &&& p.0@.len() == win.len()
                        &&& forall|j: int|
                            0 <= j < win.len() ==> Self::doc_ok(#[trigger] win[j])
                                && p.0@[j].spec_doc() == Self::canon(win[j])
                                && p.0@[j].spec_id() == oid_of_doc(win[j])
                    },
                    Err(e) => {
                        &&& e == Erro::Serialization
                        &&& exists|j: int| 0 <= j < win.len() && !Self::doc_ok(#[trigger] win[j])
                    },
                }
            }),
    {
        let all = Filter::All;
        proof {
            crate::store::lemma_filtered_all(store.docs(Self::spec_collection_name()));
        }
        let ghost ds = store.docs(Self::spec_collection_name());
        let total = store.count_documents(Self::collection_name(), &all);
        let skip = compute_skip(page, per_page, total);
        proof {
            lemma_page_saturated(ds, list_skip(page, per_page), skip as nat, per_page as nat);
        }
        let pagev = store.find_page(Self::collection_name(), &all, skip, per_page);
        let ghost win = page_of(ds, list_skip(page, per_page), per_page as nat);
        proof {
            crate::value::lemma_vm_seq(pagev@);
        }
        let n = pagev.len();
        let mut es: Vec<Self> = Vec::new();
        let mut i: usize = 0;
        while i < n
            invariant
                n == pagev@.len(),
                0 <= i <= n,
                es@.len() == i,
                win == vm_seq(pagev@),
                win == page_of(
                    store.docs(Self::spec_collection_name()),
                    list_skip(page, per_page),
                    per_page as nat,
                ),
                win.len() == n,
                forall|q: int| 0 <= q < n ==> #[trigger] win[q] == vm(pagev@[q]),
                forall|j: int|
                    0 <= j < i ==> Self::doc_ok(#[trigger] win[j]) && es@[j].spec_doc()
                        == Self::canon(win[j]) && es@[j].spec_id() == oid_of_doc(win[j]),
            decreases n - i,
        {
            match Self::from_doc(&pagev[i]) {
                Some(e) => {
                    es.push(e);
                },
                None => {
                    proof {
                        assert(!Self::doc_ok(win[i as int]));
                    }
                    return Err(Erro::Serialization);
                },
            }
            i = i + 1;
        }
        Ok((es, total))
    }

    /// One page of the documents matching a filter on a single dotted
    /// attribute path, together with the total count matching the filter.
    /// The path is caller-supplied and unchecked.
    fn filter_by_attribute(store: &Store, filter: &Filter, page: u64, per_page: u64) -> (r:
        Result<(Vec<Self>, u64), Erro>)
        requires
            store.wf(),
        ensures
            ({
                let sel = filtered(store.docs(Self::spec_collection_name()), filter@);
                let win = page_of(sel, list_skip(page, per_page), per_page as nat);
                match r {
                    Ok(p) => {
                        &&& p.1 as nat == sel.len()
                        &&& p.0@.len() == win.len()
                        &&& forall|j: int|
                            0 <= j < win.len() ==> Self::doc_ok(#[trigger] win[j])
                                && p.0@[j].spec_doc() == Self::canon(win[j])
                                && p.0@[j].spec_id() == oid_of_doc(win[j])
                    },
                    Err(e) => {
                        &&& e == Erro::Serialization
                        &&& exists|j: int| 0 <= j < win.len() && !Self::doc_ok(#[trigger] win[j])
                    },
                }
            }),
    {
        let ghost sel = filtered(store.docs(Self::spec_collection_name()), filter@);
        let total = store.count_documents(Self::collection_name(), filter);
        let skip = compute_skip(page, per_page, total);
        proof {
            lemma_page_saturated(sel, list_skip(page, per_page), skip as nat, per_page as nat);
        }
        let pagev = store.find_page(Self::collection_name(), filter, skip, per_page);
        let ghost win = page_of(sel, list_skip(page, per_page), per_page as nat);
        proof {
            crate::value::lemma_vm_seq(pagev@);
        }
        let n = pagev.len();
        let mut es: Vec<Self> = Vec::new();
        let mut i: usize = 0;
        while i < n
            invariant
                n == pagev@.len(),
                0 <= i <= n,
                es@.len() == i,
                win == vm_seq(pagev@),
                win == page_of(
                    filtered(store.docs(Self::spec_collection_name()), filter@),
                    list_skip(page, per_page),
                    per_page as nat,
                ),
                win.len() == n,
                forall|q: int| 0 <= q < n ==> #[trigger] win[q] == vm(pagev@[q]),
                forall|j: int|
                    0 <= j < i ==> Self::doc_ok(#[trigger] win[j]) && es@[j].spec_doc()
                        == Self::canon(win[j]) && es@[j].spec_id() == oid_of_doc(win[j]),
            decreases n - i,
        {
            match Self::from_doc(&pagev[i]) {
                Some(e) => {
                    es.push(e);
                },
                None => {
                    proof {
                        assert(!Self::doc_ok(win[i as int]));
                    }
                    return Err(Erro::Serialization);
                },
            }
            i = i + 1;
        }
        Ok((es, total))
    }
}

/// The pagination offset that fits in a machine word: past the end of the
/// data it saturates to the given count, which gives the same empty page.
fn compute_skip(page: u64, per_page: u64, cap: u64) -> (r: u64)
    ensures
        r as nat == list_skip(page, per_page) || (r == cap && list_skip(page, per_page)
            >= cap),
{
    if page == 0 {
        0
    } else {
        match (page - 1).checked_mul(per_page) {
            Some(v) => v,
            None => cap,
        }
    }
}

/// Two offsets at or past the end of the sequence give the same (empty)
/// page; below the end only the true offset occurs.
pub proof fn lemma_page_saturated(ds: Seq<Vm>, true_skip: nat, used_skip: nat, limit: nat)
    requires
        used_skip == true_skip || (used_skip <= true_skip && used_skip >= ds.len()),
    ensures
        page_of(ds, used_skip, limit) == page_of(ds, true_skip, limit),
{
    if used_skip != true_skip {
        assert(page_of(ds, used_skip, limit) =~= page_of(ds, true_skip, limit));
    }
}

} // verus!
