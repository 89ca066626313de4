//! Brands: named brands whose name is stored as a plain string inside each
//! product (a scalar foreign key, not an embedded object).

use crate::filter::{Filter, FilterM};
use crate::store::{
    filtered, find_by_id, idx_of_id_from, page_of, set_changed_count, set_many, Store,
};
use crate::text;
use crate::updatable::{list_skip, oid_of_doc, res_view, spec_id_model, Updatable};
use crate::value::{doc_id_m, get_m, vm, vm_fields, Oid, Value, Vm};
use crate::Erro;
use vstd::prelude::*;
use vstd::string::*;

verus! {

/// A brand: an optional identifier, a name and its timestamps.
#[derive(Debug, PartialEq, Clone)]
pub struct Marca {
    pub id: Option<Oid>,
    pub nome: String,
    pub created_at: String,
    pub updated_at: String,
}

/// The status message of a brand fan-out that touched `cnt` products.
pub open spec fn marca_msg(cnt: nat, nome: Seq<char>) -> Seq<char> {
    "Updated "@ + text::dec_model(cnt) + " products for marca "@ + nome
}

/// The filter a brand fan-out matches products with: the brand's current
/// name. A renamed brand therefore matches nothing until products carry
/// the new name by other means; the behaviour is kept as the store shows
/// it.
pub open spec fn marca_filter(nome: Seq<char>) -> FilterM {
    FilterM::Eq("marca"@, Vm::Str(nome))
}

impl Marca {
    /// Re-sets the brand-name field of every product currently carrying
    /// this brand's name, and reports how many products changed.
    pub fn update_all_products(&self, store: &mut Store) -> (r: Result<String, Erro>)
        requires
            old(store).wf(),
        ensures
            final(store).wf(),
            self.propagate_post(*old(store), *final(store), res_view(r)),
    {
        let filter = Filter::Eq(
            String::from_str("marca"),
            Value::Str(self.nome.clone()),
        );
        let val = Value::Str(self.nome.clone());
        proof {
            reveal_strlit("marca");
            reveal_strlit("_id");
            assert("marca"@.len() == 5);
            assert("_id"@.len() == 3);
            assert("marca"@ != "_id"@);
            assert(filter@ == marca_filter(self.nome@));
        }
        let cnt = store.update_many_set("produtos", &filter, "marca", &val);
        let dec = text::u64_to_dec(cnt);
        let mut msg = String::from_str("Updated ");
        msg.append(dec.as_str());
        msg.append(" products for marca ");
        msg.append(self.nome.as_str());
        proof {
            assert(msg@ =~= marca_msg(cnt as nat, self.nome@));
        }
        Ok(msg)
    }
}

impl Updatable for Marca {
    open spec fn spec_collection_name() -> Seq<char> {
        "marcas"@
    }

    open spec fn spec_doc(self) -> Vm {
        match self.id {
            Some(o) => Vm::Obj(
                seq![
                    ("_id"@, Vm::Id(o.model())),
                    ("nome"@, Vm::Str(self.nome@)),
                    ("created_at"@, Vm::Str(self.created_at@)),
                    ("updated_at"@, Vm::Str(self.updated_at@)),
                ],
            ),
            None => Vm::Obj(
                seq![
                    ("nome"@, Vm::Str(self.nome@)),
                    ("created_at"@, Vm::Str(self.created_at@)),
                    ("updated_at"@, Vm::Str(self.updated_at@)),
                ],
            ),
        }
    }

    open spec fn spec_id(self) -> Option<Oid> {
        self.id
    }

    open spec fn doc_ok(d: Vm) -> bool {
        &&& d is Obj
        &&& get_m(d, "nome"@) matches Some(v) && v is Str
        &&& get_m(d, "created_at"@) matches Some(v) && v is Str
        &&& get_m(d, "updated_at"@) matches Some(v) && v is Str
        &&& match get_m(d, "_id"@) {
            Some(v) => v is Id,
            None => true,
        }
    }

    open spec fn canon(d: Vm) -> Vm {
        let nome = get_m(d, "nome"@)->Some_0->Str_0;
        let cat = get_m(d, "created_at"@)->Some_0->Str_0;
        let uat = get_m(d, "updated_at"@)->Some_0->Str_0;
        match get_m(d, "_id"@) {
            Some(v) => Vm::Obj(
                seq![
                    ("_id"@, v),
                    ("nome"@, Vm::Str(nome)),
                    ("created_at"@, Vm::Str(cat)),
                    ("updated_at"@, Vm::Str(uat)),
                ],
            ),
            None => Vm::Obj(
                seq![
                    ("nome"@, Vm::Str(nome)),
                    ("created_at"@, Vm::Str(cat)),
                    ("updated_at"@, Vm::Str(uat)),
                ],
            ),
        }
    }

    open spec fn propagate_post(self, pre: Store, post: Store, r: Result<Seq<char>, Erro>) -> bool {
        &&& post.docs("produtos"@) == set_many(
            pre.docs("produtos"@),
            marca_filter(self.nome@),
            "marca"@,
            Vm::Str(self.nome@),
        )
        &&& forall|n: Seq<char>|
            #![trigger post.docs(n)]
            n != "produtos"@ ==> post.docs(n) == pre.docs(n)
        &&& post.indexes == pre.indexes
        &&& post.next_id == pre.next_id
        &&& r == Ok::<Seq<char>, Erro>(
            marca_msg(
                set_changed_count(
                    pre.docs("produtos"@),
                    marca_filter(self.nome@),
                    "marca"@,
                    Vm::Str(self.nome@),
                    pre.docs("produtos"@).len() as int,
                ),
                self.nome@,
            ),
        )
    }

    proof fn lemma_doc_shape(self) {
        reveal_strlit("_id");
        reveal_strlit("nome");
        match self.id {
            Some(o) => {
                let fs = self.spec_doc()->Obj_0;
                assert(fs[0] == ("_id"@, Vm::Id(o.model())));
                assert(crate::value::obj_get_from(fs, "_id"@, 0) == Some(Vm::Id(o.model())));
                assert(get_m(self.spec_doc(), "_id"@) == Some(Vm::Id(o.model())));
                assert(doc_id_m(self.spec_doc()) == Some(o.model()));
                assert(self.spec_id() == Some(o));
                assert(spec_id_model(self.spec_id()) == Some(o.model()));
            },
            None => {
                reveal_strlit("created_at");
                reveal_strlit("updated_at");
                let fs = self.spec_doc()->Obj_0;
                assert("nome"@.len() == 4);
                assert("created_at"@.len() == 10);
                assert("updated_at"@.len() == 10);
                assert("_id"@.len() == 3);
                assert("updated_at"@[0] == 'u' && "created_at"@[0] == 'c');
                assert("nome"@ != "_id"@ && "created_at"@ != "_id"@ && "updated_at"@ != "_id"@);
                assert(crate::value::obj_get_from(fs, "_id"@, 3) is None);
                assert(crate::value::obj_get_from(fs, "_id"@, 2) is None);
                assert(crate::value::obj_get_from(fs, "_id"@, 1) is None);
                assert(crate::value::obj_get_from(fs, "_id"@, 0) is None);
            },
        }
    }

    fn collection_name() -> (r: &'static str) {
        "marcas"
    }

    fn id_opt(&self) -> (r: Option<Oid>) {
        self.id
    }

    fn to_doc(&self) -> (d: Value) {
        let mut fs: Vec<(String, Value)> = Vec::new();
        match self.id {
            Some(o) => {
                fs.push((String::from_str("_id"), Value::Id(o)));
            },
            None => {},
        }
        fs.push((String::from_str("nome"), Value::Str(self.nome.clone())));
        fs.push((String::from_str("created_at"), Value::Str(self.created_at.clone())));
        fs.push((String::from_str("updated_at"), Value::Str(self.updated_at.clone())));
        let d = Value::Obj(fs);
        proof {
            crate::value::lemma_vm_fields(d->Obj_0@);
            assert(vm_fields(d->Obj_0@) =~= self.spec_doc()->Obj_0);
        }
        d
    }

    fn from_doc(d: &Value) -> (r: Option<Self>) {
        let nome = {
            proof {
                reveal_strlit("nome");
            }
            match d.get_field("nome") {
                Some(Value::Str(s)) => s.clone(),
                _ => {
                    return None;
                },
            }
        };
        let created_at = {
            proof {
                reveal_strlit("created_at");
            }
            match d.get_field("created_at") {
                Some(Value::Str(s)) => s.clone(),
                _ => {
                    return None;
                },
            }
        };
        let updated_at = {
            proof {
                reveal_strlit("updated_at");
            }
            match d.get_field("updated_at") {
                Some(Value::Str(s)) => s.clone(),
                _ => {
                    return None;
                },
            }
        };
        let id = {
            proof {
                reveal_strlit("_id");
            }
            match d.get_field("_id") {
                Some(Value::Id(o)) => Some(*o),
                Some(_) => {
                    return None;
                },
                None => None,
            }
        };
        let e = Marca { id, nome, created_at, updated_at };
        proof {
            assert(e.spec_doc() =~~= Self::canon(vm(*d)));
        }
        Some(e)
    }

    fn update_all_products(&self, store: &mut Store) -> (r: Result<String, Erro>) {
        self.update_all_products(store)
    }
}

/// Persists a new brand and echoes its serialized form.
pub fn create_marca(store: &mut Store, marca: Marca) -> (r: Result<Value, Erro>)
    requires
        old(store).wf(),
        old(store).next_id < u64::MAX,
    ensures
        final(store).wf(),
        final(store).indexes == old(store).indexes,
        match r {
            Ok(v) => {
                &&& vm(v) == marca.spec_doc()
                &&& final(store).next_id == old(store).next_id + 1
                &&& final(store).docs("marcas"@) == old(store).docs("marcas"@).push(
                    crate::value::with_id_m(
                        crate::value::strip_id_m(marca.spec_doc()),
                        old(store).next_id as nat,
                    ),
                )
                &&& forall|n: Seq<char>|
                    #![trigger final(store).docs(n)]
                    n != "marcas"@ ==> final(store).docs(n) == old(store).docs(n)
                &&& !crate::store::index_conflict(
                    *old(store),
                    "marcas"@,
                    crate::value::with_id_m(
                        crate::value::strip_id_m(marca.spec_doc()),
                        old(store).next_id as nat,
                    ),
                    None,
                )
            },
            Err(e) => {
                &&& e == Erro::DuplicateKey
                &&& crate::store::index_conflict(
                    *old(store),
                    "marcas"@,
                    crate::value::with_id_m(
                        crate::value::strip_id_m(marca.spec_doc()),
                        old(store).next_id as nat,
                    ),
                    None,
                )
                &&& *final(store) == *old(store)
            },
        },
{
    let created = marca.create(store);
    match created {
        Ok(_) => Ok(marca.to_doc()),
        Err(e) => Err(e),
    }
}

/// Saves an already-created brand and re-sets its name in every product
/// carrying it.
pub fn update_marca(store: &mut Store, marca: Marca) -> (r: Result<String, Erro>)
    requires
        old(store).wf(),
    ensures
        final(store).wf(),
        match marca.spec_id() {
            None => r == Err::<String, Erro>(Erro::MissingIdentifier) && *final(store) == *old(
                store,
            ),
            Some(id) => {
                let ds = old(store).docs("marcas"@);
                let p = idx_of_id_from(ds, id.model(), 0);
                let newdoc = crate::value::with_id_m(
                    crate::value::strip_id_m(marca.spec_doc()),
                    id.model(),
                );
                if p >= ds.len() {
                    r == Err::<String, Erro>(Erro::NotFoundOnReplace) && *final(store) == *old(
                        store,
                    )
                } else {
                    ||| {
                        &&& r == Err::<String, Erro>(Erro::DuplicateKey)
                        &&& crate::store::index_conflict(
                            *old(store),
                            "marcas"@,
                            newdoc,
                            Some(id.model()),
                        )
                        &&& *final(store) == *old(store)
                    }
                    ||| exists|mid: Store, pr: Result<Seq<char>, Erro>|
                        {
                            &&& mid.wf()
                            &&& mid.docs("marcas"@) == ds.update(p, newdoc)
                            &&& (forall|n: Seq<char>|
                                #![trigger mid.docs(n)]
                                n != "marcas"@ ==> mid.docs(n) == old(store).docs(n))
                            &&& mid.next_id == old(store).next_id
                            &&& #[trigger] marca.propagate_post(mid, *final(store), pr)
                            &&& match pr {
                                Ok(m) => r is Ok && r->Ok_0@ == "Entity saved and "@ + m,
                                Err(e) => r == Err::<String, Erro>(e),
                            }
                        }
                }
            },
        },
{
    marca.update(store)
}

/// Deletes a brand by its textual identifier.
pub fn delete_marca(store: &mut Store, id: &str) -> (r: Result<String, Erro>)
    requires
        old(store).wf(),
    ensures
        final(store).wf(),
        final(store).indexes == old(store).indexes,
        final(store).next_id == old(store).next_id,
        match r {
            Ok(m) => {
                &&& m@ == "deleted"@
                &&& text::hex24_ok(id@)
                &&& ({
                    let ds = old(store).docs("marcas"@);
                    let p = idx_of_id_from(ds, text::hex24_val(id@), 0);
                    &&& p < ds.len()
                    &&& final(store).docs("marcas"@) == ds.remove(p)
                    &&& forall|n: Seq<char>|
                        #![trigger final(store).docs(n)]
                        n != "marcas"@ ==> final(store).docs(n) == old(store).docs(n)
                })
            },
            Err(e) => {
                &&& *final(store) == *old(store)
                &&& (e == Erro::InvalidArgument ==> !text::hex24_ok(id@))
                &&& (e == Erro::NotFound ==> text::hex24_ok(id@) && find_by_id(
                    old(store).docs("marcas"@),
                    text::hex24_val(id@),
                ) is None)
                &&& (e == Erro::Serialization ==> text::hex24_ok(id@) && (find_by_id(
                    old(store).docs("marcas"@),
                    text::hex24_val(id@),
                ) matches Some(d) && !Marca::doc_ok(d)))
                &&& (e == Erro::InvalidArgument || e == Erro::NotFound || e
                    == Erro::Serialization)
            },
        },
{
    let oid = match Oid::parse_str(id) {
        Ok(o) => o,
        Err(e) => {
            return Err(e);
        },
    };
    let found = Marca::get_by_id(store, oid);
    match found {
        Err(e) => Err(e),
        Ok(None) => Err(Erro::NotFound),
        Ok(Some(m)) => {
            proof {
                crate::store::lemma_idx_of_id_bounds(store.docs("marcas"@), oid.model(), 0);
            }
            let deleted = m.delete(store);
            match deleted {
                Ok(_) => {
                    let s = String::from_str("deleted");
                    proof {
                        reveal_strlit("deleted");
                    }
                    Ok(s)
                },
                Err(e) => Err(e),
            }
        },
    }
}

/// Looks a brand up by its textual identifier; an absent brand is not an
/// error.
pub fn get_marca_by_id(store: &Store, id: &str) -> (r: Result<Option<Marca>, Erro>)
    requires
        store.wf(),
    ensures
        match r {
            Ok(opt) => text::hex24_ok(id@) && match find_by_id(
                store.docs("marcas"@),
                text::hex24_val(id@),
            ) {
                None => opt is None,
                Some(d) => {
                    &&& Marca::doc_ok(d)
                    &&& match opt {
                        Some(e) => e.spec_doc() == Marca::canon(d) && e.spec_id() == oid_of_doc(
                            d,
                        ),
                        None => false,
                    }
                },
            },
            Err(e) => {
                &&& (e == Erro::InvalidArgument ==> !text::hex24_ok(id@))
                &&& (e == Erro::Serialization ==> text::hex24_ok(id@) && (find_by_id(
                    store.docs("marcas"@),
                    text::hex24_val(id@),
                ) matches Some(d) && !Marca::doc_ok(d)))
                &&& (e == Erro::InvalidArgument || e == Erro::Serialization)
            },
        },
{
    let oid = match Oid::parse_str(id) {
        Ok(o) => o,
        Err(e) => {
            return Err(e);
        },
    };
    Marca::get_by_id(store, oid)
}

/// One page of the brands matching a filter on a single dotted attribute
/// path, with the count of all matching brands.
pub fn filter_marcas(store: &Store, filter: &Filter, page: u64, per_page: u64) -> (r: Result<
    (Vec<Marca>, u64),
    Erro,
>)
    requires
        store.wf(),
    ensures
        ({
            let sel = filtered(store.docs("marcas"@), filter@);
            let win = page_of(sel, list_skip(page, per_page), per_page as nat);
            match r {
                Ok(p) => {
                    &&& p.1 as nat == sel.len()
                    &&& p.0@.len() == win.len()
                    &&& forall|j: int|
                        0 <= j < win.len() ==> Marca::doc_ok(#[trigger] win[j])
                            && p.0@[j].spec_doc() == Marca::canon(win[j]) && p.0@[j].spec_id()
                            == oid_of_doc(win[j])
                },
                Err(e) => {
                    &&& e == Erro::Serialization
                    &&& exists|j: int|
                        0 <= j < win.len() && !Marca::doc_ok(#[trigger] win[j])
                },
            }
        }),
{
    Marca::filter_by_attribute(store, filter, page, per_page)
}

} // verus!
