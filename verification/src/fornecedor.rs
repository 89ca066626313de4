//! Suppliers: full contact records, embedded as a nested object inside
//! every product they supply; updating a supplier pushes its new snapshot
//! into all such products.

use crate::endereco::{endereco_canon, endereco_doc, endereco_from_doc, endereco_ok, endereco_to_doc, opt_str_m, Endereco};
use crate::filter::{Filter, FilterM};
use crate::store::{
    filtered, find_by_id, idx_of_id_from, page_of, set_changed_count, set_many, Store,
};
use crate::text;
use crate::updatable::{list_skip, oid_of_doc, res_view, spec_id_model, Updatable};
use crate::value::{doc_id_m, get_m, vm, vm_fields, Oid, Value, Vm};
use crate::Erro;
use vstd::prelude::*;
use vstd::string::*;

verus! {

/// A supplier: an optional identifier, its names, contact data, address
/// and activity flag.
#[derive(Debug, PartialEq, Clone)]
pub struct Fornecedor {
    pub id: Option<Oid>,
    pub razao_social: Option<String>,
    pub nome_fantasia: String,
    pub cnpj: Option<String>,
    pub contato_nome: Option<String>,
    pub endereco: Option<Endereco>,
    pub telefone: Option<String>,
    pub email: Option<String>,
    pub ativo: bool,
    pub updated_at: String,
    pub created_at: String,
}

/// The status message of a supplier fan-out that touched `cnt` products.
pub open spec fn forn_msg(cnt: nat, nome: Seq<char>) -> Seq<char> {
    "Updated "@ + text::dec_model(cnt) + " products for fornecedor "@ + nome
}

/// The value a supplier fan-out matches embedded identifiers against: the
/// supplier's identifier, or null before its first save. For an unsaved
/// supplier the null condition matches only an embedded identifier stored
/// as null, not an absent one (see the equality filter's null rule), so
/// such a fan-out touches nothing.
pub open spec fn forn_id_m(f: Fornecedor) -> Vm {
    match f.id {
        Some(o) => Vm::Id(o.model()),
        None => Vm::Null,
    }
}

/// The non-identifier fields of a supplier's document.
pub open spec fn forn_fields(f: Fornecedor) -> Seq<(Seq<char>, Vm)> {
    seq![
        ("razao_social"@, opt_str_m(f.razao_social)),
        ("nome_fantasia"@, Vm::Str(f.nome_fantasia@)),
        ("cnpj"@, opt_str_m(f.cnpj)),
        ("contato_nome"@, opt_str_m(f.contato_nome)),
        (
            "endereco"@,
            match f.endereco {
                Some(en) => endereco_doc(en),
                None => Vm::Null,
            },
        ),
        ("telefone"@, opt_str_m(f.telefone)),
        ("email"@, opt_str_m(f.email)),
        ("ativo"@, Vm::Bool(f.ativo)),
        ("updated_at"@, Vm::Str(f.updated_at@)),
        ("created_at"@, Vm::Str(f.created_at@)),
    ]
}

impl Fornecedor {
    /// Replaces the embedded supplier snapshot in every product whose
    /// embedded supplier identifier matches this supplier's, and reports
    /// how many products changed.
    pub fn update_all_products(&self, store: &mut Store) -> (r: Result<String, Erro>)
        requires
            old(store).wf(),
        ensures
            final(store).wf(),
            self.propagate_post(*old(store), *final(store), res_view(r)),
    {
        let idv = match self.id {
            Some(o) => Value::Id(o),
            None => Value::Null,
        };
        let filter = Filter::Eq(String::from_str("fornecedor._id"), idv);
        let snapshot = self.to_doc();
        proof {
            reveal_strlit("fornecedor");
            reveal_strlit("_id");
            assert("fornecedor"@.len() == 10);
            assert("_id"@.len() == 3);
            assert("fornecedor"@ != "_id"@);
            assert(filter@ == FilterM::Eq("fornecedor._id"@, forn_id_m(*self)));
        }
        let cnt = store.update_many_set("produtos", &filter, "fornecedor", &snapshot);
        let dec = text::u64_to_dec(cnt);
        let mut msg = String::from_str("Updated ");
        msg.append(dec.as_str());
        msg.append(" products for fornecedor ");
        msg.append(self.nome_fantasia.as_str());
        proof {
            assert(msg@ =~= forn_msg(cnt as nat, self.nome_fantasia@));
        }
        Ok(msg)
    }
}

impl Updatable for Fornecedor {
    open spec fn spec_collection_name() -> Seq<char> {
        "fornecedores"@
    }

    open spec fn spec_doc(self) -> Vm {
        match self.id {
            Some(o) => Vm::Obj(seq![("_id"@, Vm::Id(o.model()))] + forn_fields(self)),
            None => Vm::Obj(forn_fields(self)),
        }
    }

    open spec fn spec_id(self) -> Option<Oid> {
        self.id
    }

    open spec fn doc_ok(d: Vm) -> bool {
        &&& d is Obj
        &&& get_m(d, "razao_social"@) matches Some(v) && (v is Null || v is Str)
        &&& get_m(d, "nome_fantasia"@) matches Some(v) && v is Str
        &&& get_m(d, "cnpj"@) matches Some(v) && (v is Null || v is Str)
        &&& get_m(d, "contato_nome"@) matches Some(v) && (v is Null || v is Str)
        &&& get_m(d, "endereco"@) matches Some(v) && (v is Null || endereco_ok(v))
        &&& get_m(d, "telefone"@) matches Some(v) && (v is Null || v is Str)
        &&& get_m(d, "email"@) matches Some(v) && (v is Null || v is Str)
        &&& get_m(d, "ativo"@) matches Some(v) && v is Bool
        &&& get_m(d, "updated_at"@) matches Some(v) && v is Str
        &&& get_m(d, "created_at"@) matches Some(v) && v is Str
        &&& match get_m(d, "_id"@) {
            Some(v) => v is Id,
            None => true,
        }
    }

    open spec fn canon(d: Vm) -> Vm {
        let fields = seq![
            ("razao_social"@, get_m(d, "razao_social"@)->Some_0),
            ("nome_fantasia"@, get_m(d, "nome_fantasia"@)->Some_0),
            ("cnpj"@, get_m(d, "cnpj"@)->Some_0),
            ("contato_nome"@, get_m(d, "contato_nome"@)->Some_0),
            (
                "endereco"@,
                if get_m(d, "endereco"@)->Some_0 is Null {
                    Vm::Null
                } else {
                    endereco_canon(get_m(d, "endereco"@)->Some_0)
                },
            ),
            ("telefone"@, get_m(d, "telefone"@)->Some_0),
            ("email"@, get_m(d, "email"@)->Some_0),
            ("ativo"@, get_m(d, "ativo"@)->Some_0),
            ("updated_at"@, get_m(d, "updated_at"@)->Some_0),
            ("created_at"@, get_m(d, "created_at"@)->Some_0),
        ];
        match get_m(d, "_id"@) {
            Some(v) => Vm::Obj(seq![("_id"@, v)] + fields),
            None => Vm::Obj(fields),
        }
    }

    open spec fn propagate_post(self, pre: Store, post: Store, r: Result<Seq<char>, Erro>) -> bool {
        &&& post.docs("produtos"@) == set_many(
            pre.docs("produtos"@),
            FilterM::Eq("fornecedor._id"@, forn_id_m(self)),
            "fornecedor"@,
            self.spec_doc(),
        )
        &&& forall|n: Seq<char>|
            #![trigger post.docs(n)]
            n != "produtos"@ ==> post.docs(n) == pre.docs(n)
        &&& post.indexes == pre.indexes
        &&& post.next_id == pre.next_id
        &&& r == Ok::<Seq<char>, Erro>(
            forn_msg(
                set_changed_count(
                    pre.docs("produtos"@),
                    FilterM::Eq("fornecedor._id"@, forn_id_m(self)),
                    "fornecedor"@,
                    self.spec_doc(),
                    pre.docs("produtos"@).len() as int,
                ),
                self.nome_fantasia@,
            ),
        )
    }

    proof fn lemma_doc_shape(self) {
        reveal_strlit("_id");
        match self.id {
            Some(o) => {
                let fs = self.spec_doc()->Obj_0;
                assert(fs[0] == ("_id"@, Vm::Id(o.model())));
                assert(crate::value::obj_get_from(fs, "_id"@, 0) == Some(Vm::Id(o.model())));
                assert(get_m(self.spec_doc(), "_id"@) == Some(Vm::Id(o.model())));
                assert(doc_id_m(self.spec_doc()) == Some(o.model()));
                assert(self.spec_id() == Some(o));
                assert(spec_id_model(self.spec_id()) == Some(o.model()));
            },
            None => {
                reveal_strlit("razao_social");
                reveal_strlit("nome_fantasia");
                reveal_strlit("cnpj");
                reveal_strlit("contato_nome");
                reveal_strlit("endereco");
                reveal_strlit("telefone");
                reveal_strlit("email");
                reveal_strlit("ativo");
                reveal_strlit("updated_at");
                reveal_strlit("created_at");
                let fs = self.spec_doc()->Obj_0;
                assert("_id"@.len() == 3);
                assert("razao_social"@.len() == 12 && "nome_fantasia"@.len() == 13
                    && "cnpj"@.len() == 4 && "contato_nome"@.len() == 12 && "endereco"@.len()
                    == 8 && "telefone"@.len() == 8 && "email"@.len() == 5 && "ativo"@.len() == 5
                    && "updated_at"@.len() == 10 && "created_at"@.len() == 10);
                assert(crate::value::obj_get_from(fs, "_id"@, 10) is None);
                assert(crate::value::obj_get_from(fs, "_id"@, 9) is None);
                assert(crate::value::obj_get_from(fs, "_id"@, 8) is None);
                assert(crate::value::obj_get_from(fs, "_id"@, 7) is None);
                assert(crate::value::obj_get_from(fs, "_id"@, 6) is None);
                assert(crate::value::obj_get_from(fs, "_id"@, 5) is None);
                assert(crate::value::obj_get_from(fs, "_id"@, 4) is None);
                assert(crate::value::obj_get_from(fs, "_id"@, 3) is None);
                assert(crate::value::obj_get_from(fs, "_id"@, 2) is None);
                assert(crate::value::obj_get_from(fs, "_id"@, 1) is None);
                assert(crate::value::obj_get_from(fs, "_id"@, 0) is None);
            },
        }
    }

    fn collection_name() -> (r: &'static str) {
        "fornecedores"
    }

    fn id_opt(&self) -> (r: Option<Oid>) {
        self.id
    }

    fn to_doc(&self) -> (d: Value) {
        let mut fs: Vec<(String, Value)> = Vec::new();
        match self.id {
            Some(o) => {
                fs.push((String::from_str("_id"), Value::Id(o)));
            },
            None => {},
        }
        let rs = match &self.razao_social {
            Some(s) => Value::Str(s.clone()),
            None => Value::Null,
        };
        fs.push((String::from_str("razao_social"), rs));
        fs.push((String::from_str("nome_fantasia"), Value::Str(self.nome_fantasia.clone())));
        let cn = match &self.cnpj {
            Some(s) => Value::Str(s.clone()),
            None => Value::Null,
        };
        fs.push((String::from_str("cnpj"), cn));
        let ct = match &self.contato_nome {
            Some(s) => Value::Str(s.clone()),
            None => Value::Null,
        };
        fs.push((String::from_str("contato_nome"), ct));
        let en = match &self.endereco {
            Some(e) => endereco_to_doc(e),
            None => Value::Null,
        };
        fs.push((String::from_str("endereco"), en));
        let tf = match &self.telefone {
            Some(s) => Value::Str(s.clone()),
            None => Value::Null,
        };
        fs.push((String::from_str("telefone"), tf));
        let em = match &self.email {
            Some(s) => Value::Str(s.clone()),
            None => Value::Null,
        };
        fs.push((String::from_str("email"), em));
        fs.push((String::from_str("ativo"), Value::Bool(self.ativo)));
        fs.push((String::from_str("updated_at"), Value::Str(self.updated_at.clone())));
        fs.push((String::from_str("created_at"), Value::Str(self.created_at.clone())));
        let d = Value::Obj(fs);
        proof {
            crate::value::lemma_vm_fields(d->Obj_0@);
            assert(vm_fields(d->Obj_0@) =~~= self.spec_doc()->Obj_0);
            assert(vm(d) == self.spec_doc());
        }
        d
    }

    fn from_doc(d: &Value) -> (r: Option<Self>) {
        let razao_social = {
            proof {
                reveal_strlit("razao_social");
            }
            match d.get_field("razao_social") {
                Some(Value::Null) => None,
                Some(Value::Str(s)) => Some(s.clone()),
                _ => {
                    return None;
                },
            }
        };
        let nome_fantasia = {
            proof {
                reveal_strlit("nome_fantasia");
            }
            match d.get_field("nome_fantasia") {
                Some(Value::Str(s)) => s.clone(),
                _ => {
                    return None;
                },
            }
        };
        let cnpj = {
            proof {
                reveal_strlit("cnpj");
            }
            match d.get_field("cnpj") {
                Some(Value::Null) => None,
                Some(Value::Str(s)) => Some(s.clone()),
                _ => {
                    return None;
                },
            }
        };
        let contato_nome = {
            proof {
                reveal_strlit("contato_nome");
            }
            match d.get_field("contato_nome") {
                Some(Value::Null) => None,
                Some(Value::Str(s)) => Some(s.clone()),
                _ => {
                    return None;
                },
            }
        };
        let endereco = {
            proof {
                reveal_strlit("endereco");
            }
            match d.get_field("endereco") {
                Some(Value::Null) => None,
                Some(w) => {
                    let is_obj = w.is_obj();
                    if !is_obj {
                        return None;
                    }
                    match endereco_from_doc(w) {
                        Some(e) => Some(e),
                        None => {
                            return None;
                        },
                    }
                },
                None => {
                    return None;
                },
            }
        };
        let telefone = {
            proof {
                reveal_strlit("telefone");
            }
            match d.get_field("telefone") {
                Some(Value::Null) => None,
                Some(Value::Str(s)) => Some(s.clone()),
                _ => {
                    return None;
                },
            }
        };
        let email = {
            proof {
                reveal_strlit("email");
            }
            match d.get_field("email") {
                Some(Value::Null) => None,
                Some(Value::Str(s)) => Some(s.clone()),
                _ => {
                    return None;
                },
            }
        };
        let ativo = {
            proof {
                reveal_strlit("ativo");
            }
            match d.get_field("ativo") {
                Some(Value::Bool(b)) => *b,
                _ => {
                    return None;
                },
            }
        };
        let updated_at = {
            proof {
                reveal_strlit("updated_at");
            }
            match d.get_field("updated_at") {
                Some(Value::Str(s)) => s.clone(),
                _ => {
                    return None;
                },
            }
        };
        let created_at = {
            proof {
                reveal_strlit("created_at");
            }
            match d.get_field("created_at") {
                Some(Value::Str(s)) => s.clone(),
                _ => {
                    return None;
                },
            }
        };
        let id = {
            proof {
                reveal_strlit("_id");
            }
            match d.get_field("_id") {
                Some(Value::Id(o)) => Some(*o),
                Some(_) => {
                    return None;
                },
                None => None,
            }
        };
        let e = Fornecedor {
            id,
            razao_social,
            nome_fantasia,
            cnpj,
            contato_nome,
            endereco,
            telefone,
            email,
            ativo,
            updated_at,
            created_at,
        };
        proof {
            assert(e.spec_doc()->Obj_0 =~~= Self::canon(vm(*d))->Obj_0);
            assert(e.spec_doc() == Self::canon(vm(*d)));
        }
        Some(e)
    }

    fn update_all_products(&self, store: &mut Store) -> (r: Result<String, Erro>) {
        self.update_all_products(store)
    }
}

/// Persists a new supplier and echoes its serialized form.
pub fn create_fornecedor(store: &mut Store, fornecedor: Fornecedor) -> (r: Result<Value, Erro>)
    requires
        old(store).wf(),
        old(store).next_id < u64::MAX,
    ensures
        final(store).wf(),
        final(store).indexes == old(store).indexes,
        match r {
            Ok(v) => {
                &&& vm(v) == fornecedor.spec_doc()
                &&& final(store).next_id == old(store).next_id + 1
                &&& final(store).docs("fornecedores"@) == old(store).docs("fornecedores"@).push(
                    crate::value::with_id_m(
                        crate::value::strip_id_m(fornecedor.spec_doc()),
                        old(store).next_id as nat,
                    ),
                )
                &&& forall|n: Seq<char>|
                    #![trigger final(store).docs(n)]
                    n != "fornecedores"@ ==> final(store).docs(n) == old(store).docs(n)
                &&& !crate::store::index_conflict(
                    *old(store),
                    "fornecedores"@,
                    crate::value::with_id_m(
                        crate::value::strip_id_m(fornecedor.spec_doc()),
                        old(store).next_id as nat,
                    ),
                    None,
                )
            },
            Err(e) => {
                &&& e == Erro::DuplicateKey
                &&& crate::store::index_conflict(
                    *old(store),
                    "fornecedores"@,
                    crate::value::with_id_m(
                        crate::value::strip_id_m(fornecedor.spec_doc()),
                        old(store).next_id as nat,
                    ),
                    None,
                )
                &&& *final(store) == *old(store)
            },
        },
{
    let created = fornecedor.create(store);
    match created {
        Ok(_) => Ok(fornecedor.to_doc()),
        Err(e) => Err(e),
    }
}

/// Saves an already-created supplier and pushes its new snapshot into
/// every product embedding it.
pub fn update_fornecedor(store: &mut Store, fornecedor: Fornecedor) -> (r: Result<String, Erro>)
    requires
        old(store).wf(),
    ensures
        final(store).wf(),
        match fornecedor.spec_id() {
            None => r == Err::<String, Erro>(Erro::MissingIdentifier) && *final(store) == *old(
                store,
            ),
            Some(id) => {
                let ds = old(store).docs("fornecedores"@);
                let p = idx_of_id_from(ds, id.model(), 0);
                let newdoc = crate::value::with_id_m(
                    crate::value::strip_id_m(fornecedor.spec_doc()),
                    id.model(),
                );
                if p >= ds.len() {
                    r == Err::<String, Erro>(Erro::NotFoundOnReplace) && *final(store) == *old(
                        store,
                    )
                } else {
                    ||| {
                        &&& r == Err::<String, Erro>(Erro::DuplicateKey)
                        &&& crate::store::index_conflict(
                            *old(store),
                            "fornecedores"@,
                            newdoc,
                            Some(id.model()),
                        )
                        &&& *final(store) == *old(store)
                    }
                    ||| exists|mid: Store, pr: Result<Seq<char>, Erro>|
                        {
                            &&& mid.wf()
                            &&& mid.docs("fornecedores"@) == ds.update(p, newdoc)
                            &&& (forall|n: Seq<char>|
                                #![trigger mid.docs(n)]
                                n != "fornecedores"@ ==> mid.docs(n) == old(store).docs(n))
                            &&& mid.next_id == old(store).next_id
                            &&& #[trigger] fornecedor.propagate_post(mid, *final(store), pr)
                            &&& match pr {
                                Ok(m) => r is Ok && r->Ok_0@ == "Entity saved and "@ + m,
                                Err(e) => r == Err::<String, Erro>(e),
                            }
                        }
                }
            },
        },
{
    fornecedor.update(store)
}

/// Deletes a supplier by its textual identifier. Products embedding it
/// keep their embedded snapshots.
pub fn delete_fornecedor(store: &mut Store, id: &str) -> (r: Result<String, Erro>)
    requires
        old(store).wf(),
    ensures
        final(store).wf(),
        final(store).indexes == old(store).indexes,
        final(store).next_id == old(store).next_id,
        match r {
            Ok(m) => {
                &&& m@ == "deleted"@
                &&& text::hex24_ok(id@)
                &&& ({
                    let ds = old(store).docs("fornecedores"@);
                    let p = idx_of_id_from(ds, text::hex24_val(id@), 0);
                    &&& p < ds.len()
                    &&& final(store).docs("fornecedores"@) == ds.remove(p)
                    &&& forall|n: Seq<char>|
                        #![trigger final(store).docs(n)]
                        n != "fornecedores"@ ==> final(store).docs(n) == old(store).docs(n)
                })
            },
            Err(e) => {
                &&& *final(store) == *old(store)
                &&& (e == Erro::InvalidArgument ==> !text::hex24_ok(id@))
                &&& (e == Erro::NotFound ==> text::hex24_ok(id@) && find_by_id(
                    old(store).docs("fornecedores"@),
                    text::hex24_val(id@),
                ) is None)
                &&& (e == Erro::Serialization ==> text::hex24_ok(id@) && (find_by_id(
                    old(store).docs("fornecedores"@),
                    text::hex24_val(id@),
                ) matches Some(d) && !Fornecedor::doc_ok(d)))
                &&& (e == Erro::InvalidArgument || e == Erro::NotFound || e
                    == Erro::Serialization)
            },
        },
{
    let oid = match Oid::parse_str(id) {
        Ok(o) => o,
        Err(e) => {
            return Err(e);
        },
    };
    let found = Fornecedor::get_by_id(store, oid);
    match found {
        Err(e) => Err(e),
        Ok(None) => Err(Erro::NotFound),
        Ok(Some(f)) => {
            proof {
                crate::store::lemma_idx_of_id_bounds(
                    store.docs("fornecedores"@),
                    oid.model(),
                    0,
                );
            }
            let deleted = f.delete(store);
            match deleted {
                Ok(_) => {
                    let m = String::from_str("deleted");
                    proof {
                        reveal_strlit("deleted");
                    }
                    Ok(m)
                },
                Err(e) => Err(e),
            }
        },
    }
}

/// Looks a supplier up by its textual identifier; an absent supplier is
/// not an error.
pub fn get_fornecedor_by_id(store: &Store, id: &str) -> (r: Result<Option<Fornecedor>, Erro>)
    requires
        store.wf(),
    ensures
        match r {
            Ok(opt) => text::hex24_ok(id@) && match find_by_id(
                store.docs("fornecedores"@),
                text::hex24_val(id@),
            ) {
                None => opt is None,
                Some(d) => {
                    &&& Fornecedor::doc_ok(d)
                    &&& match opt {
                        Some(e) => e.spec_doc() == Fornecedor::canon(d) && e.spec_id()
                            == oid_of_doc(d),
                        None => false,
                    }
                },
            },
            Err(e) => {
                &&& (e == Erro::InvalidArgument ==> !text::hex24_ok(id@))
                &&& (e == Erro::Serialization ==> text::hex24_ok(id@) && (find_by_id(
                    store.docs("fornecedores"@),
                    text::hex24_val(id@),
                ) matches Some(d) && !Fornecedor::doc_ok(d)))
                &&& (e == Erro::InvalidArgument || e == Erro::Serialization)
            },
        },
{
    let oid = match Oid::parse_str(id) {
        Ok(o) => o,
        Err(e) => {
            return Err(e);
        },
    };
    Fornecedor::get_by_id(store, oid)
}

/// One page of the suppliers matching a filter on a single dotted
/// attribute path, with the count of all matching suppliers.
pub fn filter_fornecedores(store: &Store, filter: &Filter, page: u64, per_page: u64) -> (r:
    Result<(Vec<Fornecedor>, u64), Erro>)
    requires
        store.wf(),
    ensures
        ({
            let sel = filtered(store.docs("fornecedores"@), filter@);
            let win = page_of(sel, list_skip(page, per_page), per_page as nat);
            match r {
                Ok(p) => {
                    &&& p.1 as nat == sel.len()
                    &&& p.0@.len() == win.len()
                    &&& forall|j: int|
                        0 <= j < win.len() ==> Fornecedor::doc_ok(#[trigger] win[j])
                            && p.0@[j].spec_doc() == Fornecedor::canon(win[j])
                            && p.0@[j].spec_id() == oid_of_doc(win[j])
                },
                Err(e) => {
                    &&& e == Erro::Serialization
                    &&& exists|j: int|
                        0 <= j < win.len() && !Fornecedor::doc_ok(#[trigger] win[j])
                },
            }
        }),
{
    Fornecedor::filter_by_attribute(store, filter, page, per_page)
}

} // verus!
