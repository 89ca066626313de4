//! Products: the dependent records. A product carries a unique internal
//! code, embeds a full snapshot of its supplier, its brand name as a plain
//! string, its stock items and verbatim copies of its tags. Prices are
//! kept in cents.

use crate::filter::{Filter, FilterM};
use crate::fornecedor::Fornecedor;
use crate::store::{
    dup_on, filtered, find_by_id, first_match_from, idx_of_id_from, index_conflict, page_of,
    Store,
};
use crate::tag::Tag;
use crate::text;
use crate::updatable::{list_skip, oid_of_doc, spec_id_model, Updatable};
use crate::value::{doc_id_m, get_m, strip_id_m, vm, vm_fields, vm_seq, with_id_m, Oid, Value, Vm};
use crate::Erro;
use vstd::prelude::*;
use vstd::string::*;

verus! {

/// Whether product updates are propagated automatically; products opt in
/// by default.
pub fn default_update_automatico() -> (r: bool)
    ensures
        r == true,
{
    true
}

/// One stock item of a product: an optional identifier, the acquisition
/// date and a quantity.
#[derive(Debug, PartialEq, Clone)]
pub struct ItemProduto {
    pub id: Option<Oid>,
    pub data_aquisicao: String,
    pub quantidade: i32,
}

/// A product. Prices are fixed-point amounts in cents.
#[derive(Debug, PartialEq, Clone)]
pub struct Produto {
    pub id: Option<Oid>,
    pub codigo_interno: String,
    pub descricao: String,
    pub tamanho: String,
    pub fornecedor: Fornecedor,
    pub marca: String,
    pub preco_custo: i64,
    pub preco_venda: i64,
    pub fotos: Option<Vec<String>>,
    pub item_produto: Vec<ItemProduto>,
    pub update_automatico: bool,
    pub tags: Vec<Tag>,
}

/// The serialized document of one stock item.
pub open spec fn item_doc(it: ItemProduto) -> Vm {
    Vm::Obj(
        seq![
            (
                "id"@,
                match it.id {
                    Some(o) => Vm::Id(o.model()),
                    None => Vm::Null,
                },
            ),
            ("data_aquisicao"@, Vm::Str(it.data_aquisicao@)),
            ("quantidade"@, Vm::Int(it.quantidade as int)),
        ],
    )
}

/// The serialized photo list.
pub open spec fn fotos_m(fs: Seq<String>) -> Seq<Vm> {
    Seq::new(fs.len(), |i: int| Vm::Str(fs[i]@))
}

/// The serialized stock items.
pub open spec fn items_m(its: Seq<ItemProduto>) -> Seq<Vm> {
    Seq::new(its.len(), |i: int| item_doc(its[i]))
}

/// The serialized embedded tags.
pub open spec fn tags_m(ts: Seq<Tag>) -> Seq<Vm> {
    Seq::new(ts.len(), |i: int| ts[i].spec_doc())
}

/// The non-identifier fields of a product's document; the photo list is
/// present only when the product has one.
pub open spec fn produto_fields(p: Produto) -> Seq<(Seq<char>, Vm)> {
    let head = seq![
        ("codigo_interno"@, Vm::Str(p.codigo_interno@)),
        ("descricao"@, Vm::Str(p.descricao@)),
        ("tamanho"@, Vm::Str(p.tamanho@)),
        ("fornecedor"@, p.fornecedor.spec_doc()),
        ("marca"@, Vm::Str(p.marca@)),
        ("preco_custo"@, Vm::Int(p.preco_custo as int)),
        ("preco_venda"@, Vm::Int(p.preco_venda as int)),
    ];
    let mid = match p.fotos {
        Some(fs) => seq![("fotos"@, Vm::Arr(fotos_m(fs@)))],
        None => Seq::<(Seq<char>, Vm)>::empty(),
    };
    let tail = seq![
        ("item_produto"@, Vm::Arr(items_m(p.item_produto@))),
        ("update_automatico"@, Vm::Bool(p.update_automatico)),
        ("tags"@, Vm::Arr(tags_m(p.tags@))),
    ];
    head + mid + tail
}

/// Whether a stored value is a readable photo list.
pub open spec fn fotos_ok(v: Vm) -> bool {
    v is Arr && forall|j: int| 0 <= j < v->Arr_0.len() ==> (#[trigger] v->Arr_0[j]) is Str
}

/// Whether a stored value is a readable stock item.
pub open spec fn item_ok(v: Vm) -> bool {
    &&& v is Obj
    &&& get_m(v, "id"@) matches Some(w) && (w is Null || w is Id)
    &&& get_m(v, "data_aquisicao"@) matches Some(w) && w is Str
    &&& get_m(v, "quantidade"@) matches Some(w) && w is Int && i32::MIN <= w->Int_0 <= i32::MAX
}

/// The canonical re-serialization of a readable stock item.
pub open spec fn item_canon(v: Vm) -> Vm {
    Vm::Obj(
        seq![
            ("id"@, get_m(v, "id"@)->Some_0),
            ("data_aquisicao"@, get_m(v, "data_aquisicao"@)->Some_0),
            ("quantidade"@, get_m(v, "quantidade"@)->Some_0),
        ],
    )
}

/// Whether a stored value is a readable stock item list.
pub open spec fn items_ok(v: Vm) -> bool {
    v is Arr && forall|j: int| 0 <= j < v->Arr_0.len() ==> item_ok(#[trigger] v->Arr_0[j])
}

/// Whether a stored value is a readable embedded tag list.
pub open spec fn tags_ok(v: Vm) -> bool {
    v is Arr && forall|j: int| 0 <= j < v->Arr_0.len() ==> Tag::doc_ok(#[trigger] v->Arr_0[j])
}

impl Updatable for Produto {
    open spec fn spec_collection_name() -> Seq<char> {
        "produtos"@
    }

    open spec fn spec_doc(self) -> Vm {
        match self.id {
            Some(o) => Vm::Obj(seq![("_id"@, Vm::Id(o.model()))] + produto_fields(self)),
            None => Vm::Obj(produto_fields(self)),
        }
    }

    open spec fn spec_id(self) -> Option<Oid> {
        self.id
    }

    open spec fn doc_ok(d: Vm) -> bool {
        &&& d is Obj
        &&& get_m(d, "codigo_interno"@) matches Some(v) && v is Str
        &&& get_m(d, "descricao"@) matches Some(v) && v is Str
        &&& get_m(d, "tamanho"@) matches Some(v) && v is Str
        &&& get_m(d, "fornecedor"@) matches Some(v) && Fornecedor::doc_ok(v)
        &&& get_m(d, "marca"@) matches Some(v) && v is Str
        &&& get_m(d, "preco_custo"@) matches Some(v) && v is Int && i64::MIN <= v->Int_0
            <= i64::MAX
        &&& get_m(d, "preco_venda"@) matches Some(v) && v is Int && i64::MIN <= v->Int_0
            <= i64::MAX
        &&& match get_m(d, "fotos"@) {
            Some(v) => fotos_ok(v),
            None => true,
        }
        &&& match get_m(d, "item_produto"@) {
            Some(v) => items_ok(v),
            None => true,
        }
        &&& match get_m(d, "update_automatico"@) {
            Some(v) => v is Bool,
            None => true,
        }
        &&& get_m(d, "tags"@) matches Some(v) && tags_ok(v)
        &&& match get_m(d, "_id"@) {
            Some(v) => v is Id,
            None => true,
        }
    }

    open spec fn canon(d: Vm) -> Vm {
        let head = seq![
            ("codigo_interno"@, get_m(d, "codigo_interno"@)->Some_0),
            ("descricao"@, get_m(d, "descricao"@)->Some_0),
            ("tamanho"@, get_m(d, "tamanho"@)->Some_0),
            ("fornecedor"@, Fornecedor::canon(get_m(d, "fornecedor"@)->Some_0)),
            ("marca"@, get_m(d, "marca"@)->Some_0),
            ("preco_custo"@, get_m(d, "preco_custo"@)->Some_0),
            ("preco_venda"@, get_m(d, "preco_venda"@)->Some_0),
        ];
        let mid = match get_m(d, "fotos"@) {
            Some(v) => seq![("fotos"@, v)],
            None => Seq::<(Seq<char>, Vm)>::empty(),
        };
        let items = match get_m(d, "item_produto"@) {
            Some(v) => Seq::new(v->Arr_0.len(), |i: int| item_canon(v->Arr_0[i])),
            None => Seq::<Vm>::empty(),
        };
        let ua = match get_m(d, "update_automatico"@) {
            Some(v) => v,
            None => Vm::Bool(true),
        };
        let tags = Seq::new(
            get_m(d, "tags"@)->Some_0->Arr_0.len(),
            |i: int| Tag::canon(get_m(d, "tags"@)->Some_0->Arr_0[i]),
        );
        let tail = seq![
            ("item_produto"@, Vm::Arr(items)),
            ("update_automatico"@, ua),
            ("tags"@, Vm::Arr(tags)),
        ];
        match get_m(d, "_id"@) {
            Some(v) => Vm::Obj(seq![("_id"@, v)] + head + mid + tail),
            None => Vm::Obj(head + mid + tail),
        }
    }

    open spec fn propagate_post(self, pre: Store, post: Store, r: Result<Seq<char>, Erro>) -> bool {
        post == pre && r == Ok::<Seq<char>, Erro>("No related products"@)
    }

    proof fn lemma_doc_shape(self) {
        reveal_strlit("_id");
        match self.id {
            Some(o) => {
                let fs = self.spec_doc()->Obj_0;
                assert(fs[0] == ("_id"@, Vm::Id(o.model())));
                assert(crate::value::obj_get_from(fs, "_id"@, 0) == Some(Vm::Id(o.model())));
                assert(get_m(self.spec_doc(), "_id"@) == Some(Vm::Id(o.model())));
                assert(doc_id_m(self.spec_doc()) == Some(o.model()));
                assert(self.spec_id() == Some(o));
                assert(spec_id_model(self.spec_id()) == Some(o.model()));
            },
            None => {
                reveal_strlit("codigo_interno");
                reveal_strlit("descricao");
                reveal_strlit("tamanho");
                reveal_strlit("fornecedor");
                reveal_strlit("marca");
                reveal_strlit("preco_custo");
                reveal_strlit("preco_venda");
                reveal_strlit("fotos");
                reveal_strlit("item_produto");
                reveal_strlit("update_automatico");
                reveal_strlit("tags");
                let fs = self.spec_doc()->Obj_0;
                assert("_id"@.len() == 3);
                assert("codigo_interno"@.len() == 14 && "descricao"@.len() == 9
                    && "tamanho"@.len() == 7 && "fornecedor"@.len() == 10 && "marca"@.len() == 5
                    && "preco_custo"@.len() == 11 && "preco_venda"@.len() == 11
                    && "fotos"@.len() == 5 && "item_produto"@.len() == 12
                    && "update_automatico"@.len() == 17 && "tags"@.len() == 4);
                assert(forall|q: int|
                    0 <= q < fs.len() ==> (#[trigger] fs[q]).0 != "_id"@) by {
                    assert(fs.len() == if self.fotos is Some {
                        11int
                    } else {
                        10int
                    });
                }
                crate::value::lemma_key_index_bounds(fs, "_id"@, 0);
                lemma_no_id_get_none(fs);
            },
        }
    }

    fn collection_name() -> (r: &'static str) {
        "produtos"
    }

    fn id_opt(&self) -> (r: Option<Oid>) {
        self.id
    }

    fn to_doc(&self) -> (d: Value) {
        let mut fs: Vec<(String, Value)> = Vec::new();
        match self.id {
            Some(o) => {
                fs.push((String::from_str("_id"), Value::Id(o)));
            },
            None => {},
        }
        fs.push((String::from_str("codigo_interno"), Value::Str(self.codigo_interno.clone())));
        fs.push((String::from_str("descricao"), Value::Str(self.descricao.clone())));
        fs.push((String::from_str("tamanho"), Value::Str(self.tamanho.clone())));
        fs.push((String::from_str("fornecedor"), self.fornecedor.to_doc()));
        fs.push((String::from_str("marca"), Value::Str(self.marca.clone())));
        fs.push((String::from_str("preco_custo"), Value::Int(self.preco_custo)));
        fs.push((String::from_str("preco_venda"), Value::Int(self.preco_venda)));
        match &self.fotos {
            Some(photos) => {
                let n = photos.len();
                let mut arr: Vec<Value> = Vec::new();
                let mut i: usize = 0;
                while i < n
                    invariant
                        n == photos@.len(),
                        0 <= i <= n,
                        arr@.len() == i,
                        forall|q: int| 0 <= q < i ==> vm(#[trigger] arr@[q]) == Vm::Str(
                            photos@[q]@,
                        ),
                    decreases n - i,
                {
                    arr.push(Value::Str(photos[i].clone()));
                    i = i + 1;
                }
                proof {
                    crate::value::lemma_vm_seq(arr@);
                    assert(vm_seq(arr@) =~= fotos_m(photos@));
                }
                fs.push((String::from_str("fotos"), Value::Arr(arr)));
            },
            None => {},
        }
        let items = {
            let n = self.item_produto.len();
            let mut arr: Vec<Value> = Vec::new();
            let mut i: usize = 0;
            while i < n
                invariant
                    n == self.item_produto@.len(),
                    0 <= i <= n,
                    arr@.len() == i,
                    forall|q: int| 0 <= q < i ==> vm(#[trigger] arr@[q]) == item_doc(
                        self.item_produto@[q],
                    ),
                decreases n - i,
            {
                let it = item_to_doc(&self.item_produto[i]);
                arr.push(it);
                i = i + 1;
            }
            proof {
                crate::value::lemma_vm_seq(arr@);
                assert(vm_seq(arr@) =~= items_m(self.item_produto@));
            }
            arr
        };
        fs.push((String::from_str("item_produto"), Value::Arr(items)));
        fs.push((String::from_str("update_automatico"), Value::Bool(self.update_automatico)));
        let tags = {
            let n = self.tags.len();
            let mut arr: Vec<Value> = Vec::new();
            let mut i: usize = 0;
            while i < n
                invariant
                    n == self.tags@.len(),
                    0 <= i <= n,
                    arr@.len() == i,
                    forall|q: int| 0 <= q < i ==> vm(#[trigger] arr@[q])
                        == self.tags@[q].spec_doc(),
                decreases n - i,
            {
                let t = self.tags[i].to_doc();
                arr.push(t);
                i = i + 1;
            }
            proof {
                crate::value::lemma_vm_seq(arr@);
                assert(vm_seq(arr@) =~= tags_m(self.tags@));
            }
            arr
        };
        fs.push((String::from_str("tags"), Value::Arr(tags)));
        let d = Value::Obj(fs);
        proof {
            crate::value::lemma_vm_fields(d->Obj_0@);
            assert(vm_fields(d->Obj_0@) =~~= self.spec_doc()->Obj_0);
            assert(vm(d) == self.spec_doc());
        }
        d
    }

    fn from_doc(d: &Value) -> (r: Option<Self>) {
        let codigo_interno = {
            proof {
                reveal_strlit("codigo_interno");
            }
            match d.get_field("codigo_interno") {
                Some(Value::Str(s)) => s.clone(),
                _ => {
                    return None;
                },
            }
        };
        let descricao = {
            proof {
                reveal_strlit("descricao");
            }
            match d.get_field("descricao") {
                Some(Value::Str(s)) => s.clone(),
                _ => {
                    return None;
                },
            }
        };
        let tamanho = {
            proof {
                reveal_strlit("tamanho");
            }
            match d.get_field("tamanho") {
                Some(Value::Str(s)) => s.clone(),
                _ => {
                    return None;
                },
            }
        };
        let fornecedor = {
            proof {
                reveal_strlit("fornecedor");
            }
            match d.get_field("fornecedor") {
                Some(w) => match Fornecedor::from_doc(w) {
                    Some(f) => f,
                    None => {
                        return None;
                    },
                },
                None => {
                    return None;
                },
            }
        };
        let marca = {
            proof {
                reveal_strlit("marca");
            }
            match d.get_field("marca") {
                Some(Value::Str(s)) => s.clone(),
                _ => {
                    return None;
                },
            }
        };
        let preco_custo = {
            proof {
                reveal_strlit("preco_custo");
            }
            match d.get_field("preco_custo") {
                Some(Value::Int(i)) => *i,
                _ => {
                    return None;
                },
            }
        };
        let preco_venda = {
            proof {
                reveal_strlit("preco_venda");
            }
            match d.get_field("preco_venda") {
                Some(Value::Int(i)) => *i,
                _ => {
                    return None;
                },
            }
        };
        let fotos = {
            proof {
                reveal_strlit("fotos");
            }
            match d.get_field("fotos") {
                None => None,
                Some(Value::Arr(els)) => {
                    proof {
                        crate::value::lemma_vm_seq(els@);
                    }
                    let n = els.len();
                    let mut out: Vec<String> = Vec::new();
                    let mut i: usize = 0;
                    while i < n
                        invariant
                            n == els@.len(),
                            0 <= i <= n,
                            out@.len() == i,
                            vm_seq(els@).len() == n,
                            get_m(vm(*d), "fotos"@) == Some(Vm::Arr(vm_seq(els@))),
                            forall|q: int| 0 <= q < n ==> #[trigger] vm_seq(els@)[q] == vm(
                                els@[q],
                            ),
                            forall|q: int|
                                0 <= q < i ==> vm_seq(els@)[q] == Vm::Str(
                                    (#[trigger] out@[q])@,
                                ),
                        decreases n - i,
                    {
                        match &els[i] {
                            Value::Str(s) => {
                                out.push(s.clone());
                                proof {
                                    assert(vm_seq(els@)[i as int] == Vm::Str(out@[i as int]@));
                                    assert forall|q: int| 0 <= q < i + 1
                                        implies vm_seq(els@)[q] == Vm::Str(
                                        (#[trigger] out@[q])@,
                                    ) by {
                                        if q < i {
                                            assert(vm_seq(els@)[q] == Vm::Str(out@[q]@));
                                        }
                                    }
                                }
                            },
                            _ => {
                                proof {
                                    assert(!(vm_seq(els@)[i as int] is Str));
                                    assert(Vm::Arr(vm_seq(els@))->Arr_0 == vm_seq(els@));
                                    assert(!((Vm::Arr(vm_seq(els@))->Arr_0[i as int]) is Str));
                                    assert(!fotos_ok(Vm::Arr(vm_seq(els@))));
                                    assert(!Self::doc_ok(vm(*d)));
                                }
                                return None;
                            },
                        }
                        i = i + 1;
                    }
                    proof {
                        assert forall|q: int| 0 <= q < n
                            implies #[trigger] fotos_m(out@)[q] == vm_seq(els@)[q] by {
                            assert(vm_seq(els@)[q] == Vm::Str(out@[q]@));
                        }
                        assert(fotos_m(out@) =~= vm_seq(els@));
                        assert(Vm::Arr(fotos_m(out@)) == get_m(vm(*d), "fotos"@)->Some_0);
                    }
                    Some(out)
                },
                Some(_) => {
                    return None;
                },
            }
        };
        let item_produto = {
            proof {
                reveal_strlit("item_produto");
            }
            match d.get_field("item_produto") {
                None => Vec::new(),
                Some(Value::Arr(els)) => {
                    proof {
                        crate::value::lemma_vm_seq(els@);
                    }
                    let n = els.len();
                    let mut out: Vec<ItemProduto> = Vec::new();
                    let mut i: usize = 0;
                    while i < n
                        invariant
                            n == els@.len(),
                            0 <= i <= n,
                            out@.len() == i,
                            vm_seq(els@).len() == n,
                            get_m(vm(*d), "item_produto"@) == Some(Vm::Arr(vm_seq(els@))),
                            forall|q: int| 0 <= q < n ==> #[trigger] vm_seq(els@)[q] == vm(
                                els@[q],
                            ),
                            forall|q: int|
                                0 <= q < i ==> item_ok(#[trigger] vm_seq(els@)[q]) && item_doc(
                                    out@[q],
                                ) == item_canon(vm_seq(els@)[q]),
                        decreases n - i,
                    {
                        match item_from_doc(&els[i]) {
                            Some(it) => {
                                out.push(it);
                            },
                            None => {
                                proof {
                                    assert(!item_ok(vm_seq(els@)[i as int]));
                                    assert(Vm::Arr(vm_seq(els@))->Arr_0 == vm_seq(els@));
                                    assert(!item_ok(Vm::Arr(vm_seq(els@))->Arr_0[i as int]));
                                    assert(!items_ok(Vm::Arr(vm_seq(els@))));
                                    assert(!Self::doc_ok(vm(*d)));
                                }
                                return None;
                            },
                        }
                        i = i + 1;
                    }
                    proof {
                        let its = get_m(vm(*d), "item_produto"@)->Some_0->Arr_0;
                        assert(its == vm_seq(els@));
                        assert forall|q: int| 0 <= q < n
                            implies #[trigger] items_m(out@)[q] == item_canon(its[q]) by {
                            assert(items_m(out@)[q] == item_doc(out@[q]));
                            assert(item_doc(out@[q]) == item_canon(vm_seq(els@)[q]));
                        }
                        assert(items_m(out@) =~= Seq::new(
                            its.len(),
                            |i: int| item_canon(its[i]),
                        ));
                    }
                    out
                },
                Some(_) => {
                    return None;
                },
            }
        };
        let update_automatico = {
            proof {
                reveal_strlit("update_automatico");
            }
            match d.get_field("update_automatico") {
                None => default_update_automatico(),
                Some(Value::Bool(b)) => *b,
                Some(_) => {
                    return None;
                },
            }
        };
        let tags = {
            proof {
                reveal_strlit("tags");
            }
            match d.get_field("tags") {
                Some(Value::Arr(els)) => {
                    proof {
                        crate::value::lemma_vm_seq(els@);
                    }
                    let n = els.len();
                    let mut out: Vec<Tag> = Vec::new();
                    let mut i: usize = 0;
                    while i < n
                        invariant
                            n == els@.len(),
                            0 <= i <= n,
                            out@.len() == i,
                            vm_seq(els@).len() == n,
                            get_m(vm(*d), "tags"@) == Some(Vm::Arr(vm_seq(els@))),
                            forall|q: int| 0 <= q < n ==> #[trigger] vm_seq(els@)[q] == vm(
                                els@[q],
                            ),
                            forall|q: int|
                                0 <= q < i ==> Tag::doc_ok(#[trigger] vm_seq(els@)[q])
                                    && out@[q].spec_doc() == Tag::canon(vm_seq(els@)[q]),
                        decreases n - i,
                    {
                        match Tag::from_doc(&els[i]) {
                            Some(t) => {
                                out.push(t);
                            },
                            None => {
                                proof {
                                    assert(!Tag::doc_ok(vm_seq(els@)[i as int]));
                                    assert(Vm::Arr(vm_seq(els@))->Arr_0 == vm_seq(els@));
                                    assert(!Tag::doc_ok(Vm::Arr(vm_seq(els@))->Arr_0[i as int]));
                                    assert(!tags_ok(Vm::Arr(vm_seq(els@))));
                                    assert(!Self::doc_ok(vm(*d)));
                                }
                                return None;
                            },
                        }
                        i = i + 1;
                    }
                    proof {
                        let ts = get_m(vm(*d), "tags"@)->Some_0->Arr_0;
                        assert(ts == vm_seq(els@));
                        assert forall|q: int| 0 <= q < n
                            implies #[trigger] tags_m(out@)[q] == Tag::canon(ts[q]) by {
                            assert(tags_m(out@)[q] == out@[q].spec_doc());
                            assert(out@[q].spec_doc() == Tag::canon(vm_seq(els@)[q]));
                        }
                        assert(tags_m(out@) =~= Seq::new(ts.len(), |i: int| Tag::canon(ts[i])));
                    }
                    out
                },
                _ => {
                    return None;
                },
            }
        };
        let id = {
            proof {
                reveal_strlit("_id");
            }
            match d.get_field("_id") {
                Some(Value::Id(o)) => Some(*o),
                Some(_) => {
                    return None;
                },
                None => None,
            }
        };
        let e = Produto {
            id,
            codigo_interno,
            descricao,
            tamanho,
            fornecedor,
            marca,
            preco_custo,
            preco_venda,
            fotos,
            item_produto,
            update_automatico,
            tags,
        };
        proof {
            let dm = vm(*d);
            assert(tags_m(e.tags@) =~= Seq::new(
                get_m(dm, "tags"@)->Some_0->Arr_0.len(),
                |i: int| Tag::canon(get_m(dm, "tags"@)->Some_0->Arr_0[i]),
            ));
            match get_m(dm, "item_produto"@) {
                Some(v) => {
                    assert(items_m(e.item_produto@) =~= Seq::new(
                        v->Arr_0.len(),
                        |i: int| item_canon(v->Arr_0[i]),
                    ));
                },
                None => {
                    assert(e.item_produto@.len() == 0);
                    assert(items_m(e.item_produto@) =~= Seq::<Vm>::empty());
                },
            }
            match get_m(dm, "fotos"@) {
                Some(v) => {
                    assert(e.fotos is Some);
                    assert(Vm::Arr(fotos_m(e.fotos->0@)) == v);
                },
                None => {
                    assert(e.fotos is None);
                },
            }
            assert(e.spec_doc()->Obj_0 =~~= Self::canon(vm(*d))->Obj_0);
            assert(e.spec_doc() == Self::canon(vm(*d)));
        }
        Some(e)
    }

    fn update_all_products(&self, store: &mut Store) -> (r: Result<String, Erro>) {
        let m = String::from_str("No related products");
        proof {
            reveal_strlit("No related products");
        }
        Ok(m)
    }
}

/// A document whose keys all differ from the identifier key has no
/// identifier.
proof fn lemma_no_id_get_none(fs: Seq<(Seq<char>, Vm)>)
    requires
        forall|q: int| 0 <= q < fs.len() ==> (#[trigger] fs[q]).0 != "_id"@,
    ensures
        crate::value::obj_get_from(fs, "_id"@, 0) is None,
{
    lemma_no_id_get_none_from(fs, 0);
}

proof fn lemma_no_id_get_none_from(fs: Seq<(Seq<char>, Vm)>, i: int)
    requires
        0 <= i,
        forall|q: int| 0 <= q < fs.len() ==> (#[trigger] fs[q]).0 != "_id"@,
    ensures
        crate::value::obj_get_from(fs, "_id"@, i) is None,
    decreases fs.len() - i,
{
    if i < fs.len() {
        lemma_no_id_get_none_from(fs, i + 1);
    }
}

/// Serializes one stock item.
fn item_to_doc(it: &ItemProduto) -> (d: Value)
    ensures
        vm(d) == item_doc(*it),
{
    let mut fs: Vec<(String, Value)> = Vec::new();
    let idv = match it.id {
        Some(o) => Value::Id(o),
        None => Value::Null,
    };
    fs.push((String::from_str("id"), idv));
    fs.push((String::from_str("data_aquisicao"), Value::Str(it.data_aquisicao.clone())));
    fs.push((String::from_str("quantidade"), Value::Int(it.quantidade as i64)));
    let d = Value::Obj(fs);
    proof {
        crate::value::lemma_vm_fields(d->Obj_0@);
        assert(vm_fields(d->Obj_0@) =~= item_doc(*it)->Obj_0);
    }
    d
}

/// Reads one stock item back from a stored value.
fn item_from_doc(d: &Value) -> (r: Option<ItemProduto>)
    ensures
        r is Some <==> item_ok(vm(*d)),
        match r {
            Some(it) => item_doc(it) == item_canon(vm(*d)),
            None => true,
        },
{
    let id = {
        proof {
            reveal_strlit("id");
        }
        match d.get_field("id") {
            Some(Value::Null) => None,
            Some(Value::Id(o)) => Some(*o),
            _ => {
                return None;
            },
        }
    };
    let data_aquisicao = {
        proof {
            reveal_strlit("data_aquisicao");
        }
        match d.get_field("data_aquisicao") {
            Some(Value::Str(s)) => s.clone(),
            _ => {
                return None;
            },
        }
    };
    let quantidade = {
        proof {
            reveal_strlit("quantidade");
        }
        match d.get_field("quantidade") {
            Some(Value::Int(i)) => {
                if *i < i32::MIN as i64 || *i > i32::MAX as i64 {
                    return None;
                }
                *i as i32
            },
            _ => {
                return None;
            },
        }
    };
    let it = ItemProduto { id, data_aquisicao, quantidade };
    proof {
        assert(item_doc(it)->Obj_0 =~~= item_canon(vm(*d))->Obj_0);
        assert(item_doc(it) == item_canon(vm(*d)));
    }
    Some(it)
}

/// The equality filter on internal product codes.
pub open spec fn code_filter(code: Seq<char>) -> FilterM {
    FilterM::Eq("codigo_interno"@, Vm::Str(code))
}

/// The internal code of a stored product, when it is a string.
pub open spec fn code_of(d: Vm) -> Option<Seq<char>> {
    match get_m(d, "codigo_interno"@) {
        Some(v) => match v {
            Vm::Str(s) => Some(s),
            _ => None,
        },
        None => None,
    }
}

/// Whether a stored product carries a purely numeric internal code.
pub open spec fn numeric_code(d: Vm) -> bool {
    code_of(d) matches Some(s) && text::is_numeric(s)
}

/// The numeric value of a stored product's internal code.
pub open spec fn code_val(d: Vm) -> nat {
    text::dec_val(code_of(d)->Some_0)
}

/// The largest numeric internal code among the first `i` documents, zero
/// when none is numeric.
pub open spec fn max_code(ds: Seq<Vm>, i: int) -> nat
    decreases i,
{
    if i <= 0 {
        0
    } else {
        let rest = max_code(ds, i - 1);
        if numeric_code(ds[i - 1]) && code_val(ds[i - 1]) > rest {
            code_val(ds[i - 1])
        } else {
            rest
        }
    }
}

/// Whether one of the first `i` documents carries a numeric code outside
/// the range the store's integer conversion accepts.
pub open spec fn code_overflow(ds: Seq<Vm>, i: int) -> bool {
    exists|j: int| 0 <= j < i && numeric_code(#[trigger] ds[j]) && code_val(ds[j]) > 0x7fffffff
}

/// Persists a new product, first rejecting a duplicate internal code by an
/// explicit lookup (the unique index, when registered, backs this up), and
/// echoes the product's serialized form.
pub fn create_produto(store: &mut Store, produto: Produto) -> (r: Result<Value, Erro>)
    requires
        old(store).wf(),
        old(store).next_id < u64::MAX,
    ensures
        final(store).wf(),
        final(store).indexes == old(store).indexes,
        ({
            let cf = code_filter(produto.codigo_interno@);
            let ds = old(store).docs("produtos"@);
            match r {
                Ok(v) => {
                    &&& first_match_from(ds, cf, 0) == ds.len()
                    &&& vm(v) == produto.spec_doc()
                    &&& final(store).next_id == old(store).next_id + 1
                    &&& final(store).docs("produtos"@) == ds.push(
                        with_id_m(strip_id_m(produto.spec_doc()), old(store).next_id as nat),
                    )
                    &&& forall|n: Seq<char>|
                        #![trigger final(store).docs(n)]
                        n != "produtos"@ ==> final(store).docs(n) == old(store).docs(n)
                },
                Err(e) => {
                    &&& e == Erro::DuplicateKey
                    &&& *final(store) == *old(store)
                    &&& (first_match_from(ds, cf, 0) < ds.len() || index_conflict(
                        *old(store),
                        "produtos"@,
                        with_id_m(strip_id_m(produto.spec_doc()), old(store).next_id as nat),
                        None,
                    ))
                },
            }
        }),
{
    let cf = Filter::Eq(
        String::from_str("codigo_interno"),
        Value::Str(produto.codigo_interno.clone()),
    );
    proof {
        assert(cf@ == code_filter(produto.codigo_interno@));
        crate::store::lemma_first_match_bounds(
            store.docs("produtos"@),
            cf@,
            0,
        );
    }
    let existing = store.find_first("produtos", &cf);
    match existing {
        Some(_) => Err(Erro::DuplicateKey),
        None => {
            let created = produto.create(store);
            match created {
                Ok(_) => Ok(produto.to_doc()),
                Err(e) => Err(e),
            }
        },
    }
}

/// Saves an already-created product, first rejecting an internal code
/// already carried by a different product.
pub fn update_produto(store: &mut Store, produto: Produto) -> (r: Result<String, Erro>)
    requires
        old(store).wf(),
    ensures
        final(store).wf(),
        ({
            let cf = code_filter(produto.codigo_interno@);
            let ds = old(store).docs("produtos"@);
            let fm = first_match_from(ds, cf, 0);
            if fm < ds.len() && doc_id_m(ds[fm]) != spec_id_model(produto.spec_id()) {
                r == Err::<String, Erro>(Erro::DuplicateKey) && *final(store) == *old(store)
            } else {
                match produto.spec_id() {
                    None => r == Err::<String, Erro>(Erro::MissingIdentifier) && *final(store)
                        == *old(store),
                    Some(id) => {
                        let p = idx_of_id_from(ds, id.model(), 0);
                        let newdoc = with_id_m(strip_id_m(produto.spec_doc()), id.model());
                        if p >= ds.len() {
                            r == Err::<String, Erro>(Erro::NotFoundOnReplace) && *final(store)
                                == *old(store)
                        } else {
                            ||| {
                                &&& r == Err::<String, Erro>(Erro::DuplicateKey)
                                &&& index_conflict(
                                    *old(store),
                                    "produtos"@,
                                    newdoc,
                                    Some(id.model()),
                                )
                                &&& *final(store) == *old(store)
                            }
                            ||| exists|mid: Store, pr: Result<Seq<char>, Erro>|
                                {
                                    &&& mid.wf()
                                    &&& mid.docs("produtos"@) == ds.update(p, newdoc)
                                    &&& (forall|n: Seq<char>|
                                        #![trigger mid.docs(n)]
                                        n != "produtos"@ ==> mid.docs(n) == old(store).docs(n))
                                    &&& mid.next_id == old(store).next_id
                                    &&& #[trigger] produto.propagate_post(mid, *final(store), pr)
                                    &&& match pr {
                                        Ok(m) => r is Ok && r->Ok_0@ == "Entity saved and "@
                                            + m,
                                        Err(e) => r == Err::<String, Erro>(e),
                                    }
                                }
                        }
                    },
                }
            }
        }),
{
    let cf = Filter::Eq(
        String::from_str("codigo_interno"),
        Value::Str(produto.codigo_interno.clone()),
    );
    proof {
        assert(cf@ == code_filter(produto.codigo_interno@));
        crate::store::lemma_first_match_bounds(
            store.docs("produtos"@),
            cf@,
            0,
        );
    }
    let existing = store.find_first("produtos", &cf);
    match existing {
        Some(d) => {
            let same = match (d.doc_id(), produto.id_opt()) {
                (Some(a), Some(b)) => a.value == b.value,
                (None, None) => true,
                _ => false,
            };
            if !same {
                return Err(Erro::DuplicateKey);
            }
            produto.update(store)
        },
        None => produto.update(store),
    }
}

/// Deletes a product by its textual identifier.
pub fn delete_produto(store: &mut Store, id: &str) -> (r: Result<String, Erro>)
    requires
        old(store).wf(),
    ensures
        final(store).wf(),
        final(store).indexes == old(store).indexes,
        final(store).next_id == old(store).next_id,
        match r {
            Ok(m) => {
                &&& m@ == "deleted"@
                &&& text::hex24_ok(id@)
                &&& ({
                    let ds = old(store).docs("produtos"@);
                    let p = idx_of_id_from(ds, text::hex24_val(id@), 0);
                    &&& p < ds.len()
                    &&& final(store).docs("produtos"@) == ds.remove(p)
                    &&& forall|n: Seq<char>|
                        #![trigger final(store).docs(n)]
                        n != "produtos"@ ==> final(store).docs(n) == old(store).docs(n)
                })
            },
            Err(e) => {
                &&& *final(store) == *old(store)
                &&& (e == Erro::InvalidArgument ==> !text::hex24_ok(id@))
                &&& (e == Erro::NotFound ==> text::hex24_ok(id@) && find_by_id(
                    old(store).docs("produtos"@),
                    text::hex24_val(id@),
                ) is None)
                &&& (e == Erro::Serialization ==> text::hex24_ok(id@) && (find_by_id(
                    old(store).docs("produtos"@),
                    text::hex24_val(id@),
                ) matches Some(d) && !Produto::doc_ok(d)))
                &&& (e == Erro::InvalidArgument || e == Erro::NotFound || e
                    == Erro::Serialization)
            },
        },
{
    let oid = match Oid::parse_str(id) {
        Ok(o) => o,
        Err(e) => {
            return Err(e);
        },
    };
    let found = Produto::get_by_id(store, oid);
    match found {
        Err(e) => Err(e),
        Ok(None) => Err(Erro::NotFound),
        Ok(Some(p)) => {
            proof {
                crate::store::lemma_idx_of_id_bounds(store.docs("produtos"@), oid.model(), 0);
            }
            let deleted = p.delete(store);
            match deleted {
                Ok(_) => {
                    let m = String::from_str("deleted");
                    proof {
                        reveal_strlit("deleted");
                    }
                    Ok(m)
                },
                Err(e) => Err(e),
            }
        },
    }
}

/// Looks a product up by its textual identifier; an absent product is not
/// an error.
pub fn get_produto_by_id(store: &Store, id: &str) -> (r: Result<Option<Produto>, Erro>)
    requires
        store.wf(),
    ensures
        match r {
            Ok(opt) => text::hex24_ok(id@) && match find_by_id(
                store.docs("produtos"@),
                text::hex24_val(id@),
            ) {
                None => opt is None,
                Some(d) => {
                    &&& Produto::doc_ok(d)
                    &&& match opt {
                        Some(e) => e.spec_doc() == Produto::canon(d) && e.spec_id()
                            == oid_of_doc(d),
                        None => false,
                    }
                },
            },
            Err(e) => {
                &&& (e == Erro::InvalidArgument ==> !text::hex24_ok(id@))
                &&& (e == Erro::Serialization ==> text::hex24_ok(id@) && (find_by_id(
                    store.docs("produtos"@),
                    text::hex24_val(id@),
                ) matches Some(d) && !Produto::doc_ok(d)))
                &&& (e == Erro::InvalidArgument || e == Erro::Serialization)
            },
        },
{
    let oid = match Oid::parse_str(id) {
        Ok(o) => o,
        Err(e) => {
            return Err(e);
        },
    };
    Produto::get_by_id(store, oid)
}

/// One page of the products matching a filter on a single dotted attribute
/// path, with the count of all matching products.
pub fn filter_produtos(store: &Store, filter: &Filter, page: u64, per_page: u64) -> (r: Result<
    (Vec<Produto>, u64),
    Erro,
>)
    requires
        store.wf(),
    ensures
        ({
            let sel = filtered(store.docs("produtos"@), filter@);
            let win = page_of(sel, list_skip(page, per_page), per_page as nat);
            match r {
                Ok(p) => {
                    &&& p.1 as nat == sel.len()
                    &&& p.0@.len() == win.len()
                    &&& forall|j: int|
                        0 <= j < win.len() ==> Produto::doc_ok(#[trigger] win[j])
                            && p.0@[j].spec_doc() == Produto::canon(win[j])
                            && p.0@[j].spec_id() == oid_of_doc(win[j])
                },
                Err(e) => {
                    &&& e == Erro::Serialization
                    &&& exists|j: int|
                        0 <= j < win.len() && !Produto::doc_ok(#[trigger] win[j])
                },
            }
        }),
{
    Produto::filter_by_attribute(store, filter, page, per_page)
}

/// One page of the products whose description contains the given text,
/// without regard to ASCII case.
pub fn list_produtos_by_description(store: &Store, descricao: &str, page: u64, per_page: u64) -> (r:
    Result<(Vec<Produto>, u64), Erro>)
    requires
        store.wf(),
    ensures
        ({
            let sel = filtered(
                store.docs("produtos"@),
                FilterM::Regex("descricao"@, descricao@),
            );
            let win = page_of(sel, list_skip(page, per_page), per_page as nat);
            match r {
                Ok(p) => {
                    &&& p.1 as nat == sel.len()
                    &&& p.0@.len() == win.len()
                    &&& forall|j: int|
                        0 <= j < win.len() ==> Produto::doc_ok(#[trigger] win[j])
                            && p.0@[j].spec_doc() == Produto::canon(win[j])
                            && p.0@[j].spec_id() == oid_of_doc(win[j])
                },
                Err(e) => {
                    &&& e == Erro::Serialization
                    &&& exists|j: int|
                        0 <= j < win.len() && !Produto::doc_ok(#[trigger] win[j])
                },
            }
        }),
{
    let f = Filter::Regex(String::from_str("descricao"), String::from_str(descricao));
    proof {
        assert(f@ == FilterM::Regex("descricao"@, descricao@));
    }
    Produto::filter_by_attribute(store, &f, page, per_page)
}

/// The identifiers of a tag list, as stored values.
pub open spec fn tag_ids_m(ids: Seq<String>) -> Seq<Vm> {
    Seq::new(ids.len(), |i: int| Vm::Id(text::hex24_val(ids[i]@)))
}

/// One page of the products embedding every one of the given tags, looked
/// up by their textual identifiers.
pub fn list_produtos_by_tags(store: &Store, tag_ids: &Vec<String>, page: u64, per_page: u64) -> (r:
    Result<(Vec<Produto>, u64), Erro>)
    requires
        store.wf(),
    ensures
        ({
            let sel = filtered(
                store.docs("produtos"@),
                FilterM::AllOf("tags._id"@, tag_ids_m(tag_ids@)),
            );
            let win = page_of(sel, list_skip(page, per_page), per_page as nat);
            match r {
                Ok(p) => {
                    &&& forall|j: int|
                        0 <= j < tag_ids@.len() ==> text::hex24_ok((#[trigger] tag_ids@[j])@)
                    &&& p.1 as nat == sel.len()
                    &&& p.0@.len() == win.len()
                    &&& forall|j: int|
                        0 <= j < win.len() ==> Produto::doc_ok(#[trigger] win[j])
                            && p.0@[j].spec_doc() == Produto::canon(win[j])
                            && p.0@[j].spec_id() == oid_of_doc(win[j])
                },
                Err(e) => {
                    &&& (e == Erro::InvalidArgument ==> exists|j: int|
                        0 <= j < tag_ids@.len() && !text::hex24_ok((#[trigger] tag_ids@[j])@))
                    &&& (e == Erro::Serialization ==> (forall|j: int|
                        0 <= j < tag_ids@.len() ==> text::hex24_ok((#[trigger] tag_ids@[j])@))
                        && exists|j: int| 0 <= j < win.len() && !Produto::doc_ok(
                        #[trigger] win[j],
                    ))
                    &&& (e == Erro::InvalidArgument || e == Erro::Serialization)
                },
            }
        }),
{
    let n = tag_ids.len();
    let mut objs: Vec<Value> = Vec::new();
    let mut i: usize = 0;
    while i < n
        invariant
            n == tag_ids@.len(),
            0 <= i <= n,
            objs@.len() == i,
            forall|q: int| 0 <= q < i ==> text::hex24_ok((#[trigger] tag_ids@[q])@),
            forall|q: int| 0 <= q < i ==> vm(#[trigger] objs@[q]) == Vm::Id(
                text::hex24_val(tag_ids@[q]@),
            ),
        decreases n - i,
    {
        match Oid::parse_str(tag_ids[i].as_str()) {
            Ok(o) => {
                objs.push(Value::Id(o));
            },
            Err(e) => {
                return Err(e);
            },
        }
        i = i + 1;
    }
    let f = Filter::AllOf(String::from_str("tags._id"), objs);
    proof {
        crate::value::lemma_vm_seq(f->AllOf_1@);
        assert(vm_seq(f->AllOf_1@) =~= tag_ids_m(tag_ids@));
        assert(f@ == FilterM::AllOf("tags._id"@, tag_ids_m(tag_ids@)));
    }
    Produto::filter_by_attribute(store, &f, page, per_page)
}

/// One page of the products carrying the given brand name.
pub fn list_produtos_by_marca(store: &Store, marca: &str, page: u64, per_page: u64) -> (r: Result<
    (Vec<Produto>, u64),
    Erro,
>)
    requires
        store.wf(),
    ensures
        ({
            let sel = filtered(
                store.docs("produtos"@),
                FilterM::Eq("marca"@, Vm::Str(marca@)),
            );
            let win = page_of(sel, list_skip(page, per_page), per_page as nat);
            match r {
                Ok(p) => {
                    &&& p.1 as nat == sel.len()
                    &&& p.0@.len() == win.len()
                    &&& forall|j: int|
                        0 <= j < win.len() ==> Produto::doc_ok(#[trigger] win[j])
                            && p.0@[j].spec_doc() == Produto::canon(win[j])
                            && p.0@[j].spec_id() == oid_of_doc(win[j])
                },
                Err(e) => {
                    &&& e == Erro::Serialization
                    &&& exists|j: int|
                        0 <= j < win.len() && !Produto::doc_ok(#[trigger] win[j])
                },
            }
        }),
{
    let f = Filter::Eq(String::from_str("marca"), Value::Str(String::from_str(marca)));
    proof {
        assert(f@ == FilterM::Eq("marca"@, Vm::Str(marca@)));
    }
    Produto::filter_by_attribute(store, &f, page, per_page)
}

/// One page of the products embedding the supplier with the given textual
/// identifier.
pub fn list_produtos_by_fornecedor(
    store: &Store,
    fornecedor_id: &str,
    page: u64,
    per_page: u64,
) -> (r: Result<(Vec<Produto>, u64), Erro>)
    requires
        store.wf(),
    ensures
        ({
            let sel = filtered(
                store.docs("produtos"@),
                FilterM::Eq("fornecedor._id"@, Vm::Id(text::hex24_val(fornecedor_id@))),
            );
            let win = page_of(sel, list_skip(page, per_page), per_page as nat);
            match r {
                Ok(p) => {
                    &&& text::hex24_ok(fornecedor_id@)
                    &&& p.1 as nat == sel.len()
                    &&& p.0@.len() == win.len()
                    &&& forall|j: int|
                        0 <= j < win.len() ==> Produto::doc_ok(#[trigger] win[j])
                            && p.0@[j].spec_doc() == Produto::canon(win[j])
                            && p.0@[j].spec_id() == oid_of_doc(win[j])
                },
                Err(e) => {
                    &&& (e == Erro::InvalidArgument ==> !text::hex24_ok(fornecedor_id@))
                    &&& (e == Erro::Serialization ==> text::hex24_ok(fornecedor_id@)
                        && exists|j: int| 0 <= j < win.len() && !Produto::doc_ok(
                        #[trigger] win[j],
                    ))
                    &&& (e == Erro::InvalidArgument || e == Erro::Serialization)
                },
            }
        }),
{
    let oid = match Oid::parse_str(fornecedor_id) {
        Ok(o) => o,
        Err(e) => {
            return Err(e);
        },
    };
    let f = Filter::Eq(String::from_str("fornecedor._id"), Value::Id(oid));
    proof {
        assert(f@ == FilterM::Eq(
            "fornecedor._id"@,
            Vm::Id(text::hex24_val(fornecedor_id@)),
        ));
    }
    Produto::filter_by_attribute(store, &f, page, per_page)
}

/// The next numeric internal code: one more than the largest purely
/// numeric code in use, as a string, and the first code when none is in
/// use. The value is not reserved; the uniqueness check is the backstop.
pub fn next_codigo_interno(store: &Store) -> (r: Result<String, Erro>)
    requires
        store.wf(),
    ensures
        ({
            let ds = store.docs("produtos"@);
            match r {
                Ok(s) => !code_overflow(ds, ds.len() as int) && s@ == text::dec_model(
                    max_code(ds, ds.len() as int) + 1,
                ),
                Err(e) => e == Erro::Store && code_overflow(ds, ds.len() as int),
            }
        }),
{
    let all = Filter::All;
    proof {
        crate::store::lemma_filtered_all(store.docs("produtos"@));
    }
    let total = store.count_documents("produtos", &all);
    let pagev = store.find_page("produtos", &all, 0, total);
    let ghost ds = store.docs("produtos"@);
    proof {
        crate::value::lemma_vm_seq(pagev@);
        assert(page_of(ds, 0, total as nat) =~= ds);
        assert(vm_seq(pagev@) == ds);
    }
    let n = pagev.len();
    let mut mx: u32 = 0;
    let mut i: usize = 0;
    while i < n
        invariant
            n == pagev@.len(),
            0 <= i <= n,
            ds == store.docs("produtos"@),
            ds == vm_seq(pagev@),
            ds.len() == n,
            forall|q: int| 0 <= q < n ==> #[trigger] ds[q] == vm(pagev@[q]),
            mx <= 0x7fffffff,
            mx as nat == max_code(ds, i as int),
            !code_overflow(ds, i as int),
        decreases n - i,
    {
        let codev = {
            proof {
                reveal_strlit("codigo_interno");
            }
            pagev[i].get_field("codigo_interno")
        };
        match codev {
            Some(Value::Str(code)) => {
                match text::parse_numeric(code.as_str()) {
                    text::NumParse::NotNumeric => {
                        proof {
                            assert(!numeric_code(ds[i as int]));
                            lemma_no_overflow_step(ds, i as int);
                        }
                    },
                    text::NumParse::TooBig => {
                        proof {
                            assert(numeric_code(ds[i as int]) && code_val(ds[i as int])
                                > 0x7fffffff);
                            assert(code_overflow(ds, ds.len() as int));
                        }
                        return Err(Erro::Store);
                    },
                    text::NumParse::Val(v) => {
                        proof {
                            assert(numeric_code(ds[i as int]) && code_val(ds[i as int])
                                == v as nat);
                            lemma_no_overflow_step(ds, i as int);
                        }
                        if v > mx {
                            mx = v;
                        }
                    },
                }
            },
            _ => {
                proof {
                    assert(!numeric_code(ds[i as int]));
                    lemma_no_overflow_step(ds, i as int);
                }
            },
        }
        i = i + 1;
    }
    let next = (mx as u64) + 1;
    let s = text::u64_to_dec(next);
    Ok(s)
}

/// One more well-behaved document cannot create an overflow.
proof fn lemma_no_overflow_step(ds: Seq<Vm>, i: int)
    requires
        0 <= i < ds.len(),
        !code_overflow(ds, i),
        !(numeric_code(ds[i]) && code_val(ds[i]) > 0x7fffffff),
    ensures
        !code_overflow(ds, i + 1),
{
    if code_overflow(ds, i + 1) {
        let j = choose|j: int|
            0 <= j < i + 1 && numeric_code(#[trigger] ds[j]) && code_val(ds[j]) > 0x7fffffff;
        if j < i {
            assert(code_overflow(ds, i));
        }
    }
}

impl Produto {
    /// Registers the unique index on internal product codes.
    pub fn ensure_indexes(store: &mut Store) -> (r: Result<(), Erro>)
        requires
            old(store).wf(),
        ensures
            final(store).wf(),
            final(store).collections == old(store).collections,
            forall|n: Seq<char>|
                #![trigger final(store).docs(n)]
                final(store).docs(n) == old(store).docs(n),
            old(store).has_index("produtos"@, "codigo_interno"@) ==> *final(store) == *old(store)
                && r is Ok,
            !old(store).has_index("produtos"@, "codigo_interno"@) ==> match r {
                Ok(u) => !dup_on(old(store).docs("produtos"@), "codigo_interno"@)
                    && final(store).has_index("produtos"@, "codigo_interno"@),
                Err(e) => e == Erro::DuplicateKey && dup_on(
                    old(store).docs("produtos"@),
                    "codigo_interno"@,
                ) && *final(store) == *old(store),
            },
    {
        store.ensure_unique_index("produtos", "codigo_interno")
    }
}

} // verus!
