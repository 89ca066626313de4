//! Tags: named labels with a globally unique name, embedded verbatim
//! (identifier and name) inside every product that references them.

use crate::filter::Filter;
use crate::store::{
    dup_on, filtered, find_by_id, idx_of_id_from, page_of, patch_changed_count, patch_many,
    Store,
};
use crate::text;
use crate::updatable::{list_skip, oid_of_doc, spec_id_model, Updatable};
use crate::value::{doc_id_m, get_m, vm, vm_fields, Oid, Value, Vm};
use crate::Erro;
use vstd::prelude::*;
use vstd::string::*;

verus! {

/// A tag: an optional identifier and a globally unique name.
#[derive(Debug, PartialEq, Clone)]
pub struct Tag {
    pub _id: Option<Oid>,
    pub nome: String,
}

/// The status message of a tag fan-out that touched `cnt` products.
pub open spec fn tag_msg(cnt: nat, nome: Seq<char>) -> Seq<char> {
    "Updated "@ + text::dec_model(cnt) + " products for tag "@ + nome
}

impl Updatable for Tag {
    open spec fn spec_collection_name() -> Seq<char> {
        "tags"@
    }

    open spec fn spec_doc(self) -> Vm {
        match self._id {
            Some(o) => Vm::Obj(
                seq![("_id"@, Vm::Id(o.model())), ("nome"@, Vm::Str(self.nome@))],
            ),
            None => Vm::Obj(seq![("nome"@, Vm::Str(self.nome@))]),
        }
    }

    open spec fn spec_id(self) -> Option<Oid> {
        self._id
    }

    open spec fn doc_ok(d: Vm) -> bool {
        &&& d is Obj
        &&& get_m(d, "nome"@) matches Some(v) && v is Str
        &&& match get_m(d, "_id"@) {
            Some(v) => v is Id,
            None => true,
        }
    }

    open spec fn canon(d: Vm) -> Vm {
        let nome = get_m(d, "nome"@)->Some_0->Str_0;
        match get_m(d, "_id"@) {
            Some(v) => Vm::Obj(seq![("_id"@, v), ("nome"@, Vm::Str(nome))]),
            None => Vm::Obj(seq![("nome"@, Vm::Str(nome))]),
        }
    }

    open spec fn propagate_post(self, pre: Store, post: Store, r: Result<Seq<char>, Erro>) -> bool {
        match self._id {
            None => post == pre && r == Ok::<Seq<char>, Erro>(
                "No id, skipping tag product update"@,
            ),
            Some(id) => {
                &&& post.docs("produtos"@) == patch_many(
                    pre.docs("produtos"@),
                    "tags"@,
                    id.model(),
                    self.spec_doc(),
                )
                &&& forall|n: Seq<char>|
                    #![trigger post.docs(n)]
                    n != "produtos"@ ==> post.docs(n) == pre.docs(n)
                &&& post.indexes == pre.indexes
                &&& post.next_id == pre.next_id
                &&& r == Ok::<Seq<char>, Erro>(
                    tag_msg(
                        patch_changed_count(
                            pre.docs("produtos"@),
                            "tags"@,
                            id.model(),
                            self.spec_doc(),
                            pre.docs("produtos"@).len() as int,
                        ),
                        self.nome@,
                    ),
                )
            },
        }
    }

    proof fn lemma_doc_shape(self) {
        proof_tag_doc_shape(self);
    }

    fn collection_name() -> (r: &'static str) {
        "tags"
    }

    fn id_opt(&self) -> (r: Option<Oid>) {
        self._id
    }

    fn to_doc(&self) -> (d: Value) {
        let mut fs: Vec<(String, Value)> = Vec::new();
        match self._id {
            Some(o) => {
                fs.push((String::from_str("_id"), Value::Id(o)));
            },
            None => {},
        }
        fs.push((String::from_str("nome"), Value::Str(self.nome.clone())));
        let d = Value::Obj(fs);
        proof {
            crate::value::lemma_vm_fields(d->Obj_0@);
            assert(vm_fields(d->Obj_0@) =~= self.spec_doc()->Obj_0);
        }
        d
    }

    fn from_doc(d: &Value) -> (r: Option<Self>) {
        let nomev = {
            proof {
                reveal_strlit("nome");
            }
            d.get_field("nome")
        };
        let nome = match nomev {
            Some(Value::Str(s)) => s.clone(),
            _ => {
                return None;
            },
        };
        let idv = {
            proof {
                reveal_strlit("_id");
            }
            d.get_field("_id")
        };
        let id = match idv {
            Some(Value::Id(o)) => Some(*o),
            Some(_) => {
                return None;
            },
            None => None,
        };
        let e = Tag { _id: id, nome };
        proof {
            assert(e.spec_doc() =~~= Self::canon(vm(*d)));
        }
        Some(e)
    }

    fn update_all_products(&self, store: &mut Store) -> (r: Result<String, Erro>) {
        let ido = self.id_opt();
        match ido {
            None => {
                let m = String::from_str("No id, skipping tag product update");
                proof {
                    reveal_strlit("No id, skipping tag product update");
                }
                Ok(m)
            },
            Some(id) => {
                let rep = self.to_doc();
                proof {
                    reveal_strlit("tags");
                    reveal_strlit("_id");
                    assert("tags"@.len() == 4);
                    assert("_id"@.len() == 3);
                    assert("tags"@ != "_id"@);
                }
                let cnt = store.update_many_replace_in_array("produtos", "tags", id, &rep);
                let dec = text::u64_to_dec(cnt);
                let mut msg = String::from_str("Updated ");
                msg.append(dec.as_str());
                msg.append(" products for tag ");
                msg.append(self.nome.as_str());
                proof {
                    assert(msg@ =~= tag_msg(cnt as nat, self.nome@));
                }
                Ok(msg)
            },
        }
    }
}

/// The serialized tag is a document carrying the tag's identifier.
proof fn proof_tag_doc_shape(t: Tag)
    ensures
        t.spec_doc() is Obj,
        doc_id_m(t.spec_doc()) == spec_id_model(t.spec_id()),
{
    reveal_strlit("_id");
    reveal_strlit("nome");
    match t._id {
        Some(o) => {
            let fs = t.spec_doc()->Obj_0;
            assert(fs[0] == ("_id"@, Vm::Id(o.model())));
            assert(crate::value::obj_get_from(fs, "_id"@, 0) == Some(Vm::Id(o.model())));
        },
        None => {
            let fs = t.spec_doc()->Obj_0;
            assert(fs[0].0 == "nome"@);
            assert("nome"@ != "_id"@);
            assert(crate::value::obj_get_from(fs, "_id"@, 1) is None);
        },
    }
}

/// Persists a new tag and echoes its serialized form (the input as given,
/// still without a store-assigned identifier).
pub fn create_tag(store: &mut Store, tag: Tag) -> (r: Result<Value, Erro>)
    requires
        old(store).wf(),
        old(store).next_id < u64::MAX,
    ensures
        final(store).wf(),
        final(store).indexes == old(store).indexes,
        match r {
            Ok(v) => {
                &&& vm(v) == tag.spec_doc()
                &&& final(store).next_id == old(store).next_id + 1
                &&& final(store).docs("tags"@) == old(store).docs("tags"@).push(
                    crate::value::with_id_m(
                        crate::value::strip_id_m(tag.spec_doc()),
                        old(store).next_id as nat,
                    ),
                )
                &&& forall|n: Seq<char>|
                    #![trigger final(store).docs(n)]
                    n != "tags"@ ==> final(store).docs(n) == old(store).docs(n)
                &&& !crate::store::index_conflict(
                    *old(store),
                    "tags"@,
                    crate::value::with_id_m(
                        crate::value::strip_id_m(tag.spec_doc()),
                        old(store).next_id as nat,
                    ),
                    None,
                )
            },
            Err(e) => {
                &&& e == Erro::DuplicateKey
                &&& crate::store::index_conflict(
                    *old(store),
                    "tags"@,
                    crate::value::with_id_m(
                        crate::value::strip_id_m(tag.spec_doc()),
                        old(store).next_id as nat,
                    ),
                    None,
                )
                &&& *final(store) == *old(store)
            },
        },
{
    let created = tag.create(store);
    match created {
        Ok(_) => Ok(tag.to_doc()),
        Err(e) => Err(e),
    }
}

/// Saves an already-created tag and fans its new name out to every product
/// embedding it.
pub fn update_tag(store: &mut Store, tag: Tag) -> (r: Result<String, Erro>)
    requires
        old(store).wf(),
    ensures
        final(store).wf(),
        match tag.spec_id() {
            None => r == Err::<String, Erro>(Erro::MissingIdentifier) && *final(store) == *old(
                store,
            ),
            Some(id) => {
                let ds = old(store).docs("tags"@);
                let p = idx_of_id_from(ds, id.model(), 0);
                let newdoc = crate::value::with_id_m(
                    crate::value::strip_id_m(tag.spec_doc()),
                    id.model(),
                );
                if p >= ds.len() {
                    r == Err::<String, Erro>(Erro::NotFoundOnReplace) && *final(store) == *old(
                        store,
                    )
                } else {
                    ||| {
                        &&& r == Err::<String, Erro>(Erro::DuplicateKey)
                        &&& crate::store::index_conflict(
                            *old(store),
                            "tags"@,
                            newdoc,
                            Some(id.model()),
                        )
                        &&& *final(store) == *old(store)
                    }
                    ||| exists|mid: Store, pr: Result<Seq<char>, Erro>|
                        {
                            &&& mid.wf()
                            &&& mid.docs("tags"@) == ds.update(p, newdoc)
                            &&& (forall|n: Seq<char>|
                                #![trigger mid.docs(n)]
                                n != "tags"@ ==> mid.docs(n) == old(store).docs(n))
                            &&& mid.next_id == old(store).next_id
                            &&& #[trigger] tag.propagate_post(mid, *final(store), pr)
                            &&& match pr {
                                Ok(m) => r is Ok && r->Ok_0@ == "Entity saved and "@ + m,
                                Err(e) => r == Err::<String, Erro>(e),
                            }
                        }
                }
            },
        },
{
    tag.update(store)
}

/// Deletes a tag by its textual identifier. Products that already embed
/// the tag keep their embedded copies.
pub fn delete_tag(store: &mut Store, id: &str) -> (r: Result<String, Erro>)
    requires
        old(store).wf(),
    ensures
        final(store).wf(),
        final(store).indexes == old(store).indexes,
        final(store).next_id == old(store).next_id,
        match r {
            Ok(m) => {
                &&& m@ == "deleted"@
                &&& text::hex24_ok(id@)
                &&& ({
                    let ds = old(store).docs("tags"@);
                    let p = idx_of_id_from(ds, text::hex24_val(id@), 0);
                    &&& p < ds.len()
                    &&& final(store).docs("tags"@) == ds.remove(p)
                    &&& forall|n: Seq<char>|
                        #![trigger final(store).docs(n)]
                        n != "tags"@ ==> final(store).docs(n) == old(store).docs(n)
                })
            },
            Err(e) => {
                &&& *final(store) == *old(store)
                &&& (e == Erro::InvalidArgument ==> !text::hex24_ok(id@))
                &&& (e == Erro::NotFound ==> text::hex24_ok(id@) && find_by_id(
                    old(store).docs("tags"@),
                    text::hex24_val(id@),
                ) is None)
                &&& (e == Erro::Serialization ==> text::hex24_ok(id@) && (find_by_id(
                    old(store).docs("tags"@),
                    text::hex24_val(id@),
                ) matches Some(d) && !Tag::doc_ok(d)))
                &&& (e == Erro::InvalidArgument || e == Erro::NotFound || e
                    == Erro::Serialization)
            },
        },
{
    let oid = match Oid::parse_str(id) {
        Ok(o) => o,
        Err(e) => {
            return Err(e);
        },
    };
    let found = Tag::get_by_id(store, oid);
    match found {
        Err(e) => Err(e),
        Ok(None) => Err(Erro::NotFound),
        Ok(Some(t)) => {
            proof {
                crate::store::lemma_idx_of_id_bounds(store.docs("tags"@), oid.model(), 0);
            }
            let deleted = t.delete(store);
            match deleted {
                Ok(_) => {
                    let m = String::from_str("deleted");
                    proof {
                        reveal_strlit("deleted");
                    }
                    Ok(m)
                },
                Err(e) => Err(e),
            }
        },
    }
}

/// Looks a tag up by its textual identifier; an absent tag is not an
/// error.
pub fn get_tag_by_id(store: &Store, id: &str) -> (r: Result<Option<Tag>, Erro>)
    requires
        store.wf(),
    ensures
        match r {
            Ok(opt) => text::hex24_ok(id@) && match find_by_id(
                store.docs("tags"@),
                text::hex24_val(id@),
            ) {
                None => opt is None,
                Some(d) => {
                    &&& Tag::doc_ok(d)
                    &&& match opt {
                        Some(e) => e.spec_doc() == Tag::canon(d) && e.spec_id() == oid_of_doc(d),
                        None => false,
                    }
                },
            },
            Err(e) => {
                &&& (e == Erro::InvalidArgument ==> !text::hex24_ok(id@))
                &&& (e == Erro::Serialization ==> text::hex24_ok(id@) && (find_by_id(
                    store.docs("tags"@),
                    text::hex24_val(id@),
                ) matches Some(d) && !Tag::doc_ok(d)))
                &&& (e == Erro::InvalidArgument || e == Erro::Serialization)
            },
        },
{
    let oid = match Oid::parse_str(id) {
        Ok(o) => o,
        Err(e) => {
            return Err(e);
        },
    };
    Tag::get_by_id(store, oid)
}

/// One page of the tags matching a filter on a single dotted attribute
/// path, with the count of all matching tags.
pub fn filter_tags(store: &Store, filter: &Filter, page: u64, per_page: u64) -> (r: Result<
    (Vec<Tag>, u64),
    Erro,
>)
    requires
        store.wf(),
    ensures
        ({
            let sel = filtered(store.docs("tags"@), filter@);
            let win = page_of(sel, list_skip(page, per_page), per_page as nat);
            match r {
                Ok(p) => {
                    &&& p.1 as nat == sel.len()
                    &&& p.0@.len() == win.len()
                    &&& forall|j: int|
                        0 <= j < win.len() ==> Tag::doc_ok(#[trigger] win[j])
                            && p.0@[j].spec_doc() == Tag::canon(win[j]) && p.0@[j].spec_id()
                            == oid_of_doc(win[j])
                },
                Err(e) => {
                    &&& e == Erro::Serialization
                    &&& exists|j: int|
                        0 <= j < win.len() && !Tag::doc_ok(#[trigger] win[j])
                },
            }
        }),
{
    Tag::filter_by_attribute(store, filter, page, per_page)
}

impl Tag {
    /// Registers the unique index on tag names; idempotent while no
    /// duplicates exist.
    pub fn ensure_indexes(store: &mut Store) -> (r: Result<(), Erro>)
        requires
            old(store).wf(),
        ensures
            final(store).wf(),
            final(store).collections == old(store).collections,
            forall|n: Seq<char>|
                #![trigger final(store).docs(n)]
                final(store).docs(n) == old(store).docs(n),
            old(store).has_index("tags"@, "nome"@) ==> *final(store) == *old(store) && r is Ok,
            !old(store).has_index("tags"@, "nome"@) ==> match r {
                Ok(u) => !dup_on(old(store).docs("tags"@), "nome"@) && final(store).has_index(
                    "tags"@,
                    "nome"@,
                ),
                Err(e) => e == Erro::DuplicateKey && dup_on(old(store).docs("tags"@), "nome"@)
                    && *final(store) == *old(store),
            },
    {
        store.ensure_unique_index("tags", "nome")
    }
}

} // verus!
