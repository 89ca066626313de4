//! The laws of the persistence protocol: what holds across several
//! operations, proved once over the store model and the entity contracts.

use crate::filter::{m_eq, FilterM};
use crate::fornecedor::{forn_id_m, Fornecedor};
use crate::store::{
    doc_wf, find_by_id, idx_of_id_from, ids_distinct, page_of, patch_arr, patch_doc, set_one,
    Store,
};
use crate::tag::Tag;
use crate::updatable::Updatable;
use crate::value::{doc_id_m, get_m, strip_id_m, with_id_m, Oid, Vm};
use crate::Erro;
use vstd::prelude::*;

verus! {

/// No document of a sequence that lacks identifier `id` is found under it.
proof fn lemma_idx_none(ds: Seq<Vm>, id: nat, i: int)
    requires
        0 <= i,
        forall|j: int| 0 <= j < ds.len() ==> doc_id_m(#[trigger] ds[j]) != Some(id),
    ensures
        idx_of_id_from(ds, id, i) == ds.len(),
    decreases ds.len() - i,
{
    if i < ds.len() {
        lemma_idx_none(ds, id, i + 1);
    }
}

/// Searching a sequence whose prefix lacks identifier `id` skips that
/// prefix.
proof fn lemma_idx_skips(ds: Seq<Vm>, id: nat, i: int)
    requires
        0 <= i < ds.len(),
        forall|j: int| 0 <= j < ds.len() - 1 ==> doc_id_m(#[trigger] ds[j]) != Some(id),
    ensures
        idx_of_id_from(ds, id, i) == if doc_id_m(ds[ds.len() - 1]) == Some(id) {
            ds.len() - 1
        } else {
            ds.len() as int
        },
    decreases ds.len() - i,
{
    if i < ds.len() - 1 {
        assert(doc_id_m(ds[i]) != Some(id));
        lemma_idx_skips(ds, id, i + 1);
    } else {
        assert(idx_of_id_from(ds, id, ds.len() as int) == ds.len());
    }
}

/// Creating an entity and then looking its assigned identifier up yields
/// exactly the document that was saved: the entity's serialized form,
/// stripped of any prior identifier, under the fresh identifier.
pub proof fn lemma_create_then_get<T: Updatable>(pre: Store, post: Store, id: Oid, e: T)
    requires
        pre.wf(),
        id.model() == pre.next_id as nat,
        post.docs(T::spec_collection_name()) == pre.docs(T::spec_collection_name()).push(
            with_id_m(strip_id_m(e.spec_doc()), id.model()),
        ),
    ensures
        find_by_id(post.docs(T::spec_collection_name()), id.model()) == Some(
            with_id_m(strip_id_m(e.spec_doc()), id.model()),
        ),
{
    let c = T::spec_collection_name();
    let ds = post.docs(c);
    pre.lemma_docs_wf(c);
    e.lemma_doc_shape();
    crate::value::lemma_strip_no_id(e.spec_doc());
    crate::value::lemma_with_id_id(strip_id_m(e.spec_doc()), id.model());
    assert(doc_id_m(ds[ds.len() - 1]) == Some(id.model()));
    assert forall|j: int| 0 <= j < ds.len() - 1 implies doc_id_m(#[trigger] ds[j]) != Some(
        id.model(),
    ) by {
        assert(ds[j] == pre.docs(c)[j]);
        assert(doc_wf(pre.docs(c)[j], pre.next_id as nat));
    }
    lemma_idx_skips(ds, id.model(), 0);
}

/// Deleting a document and then looking its identifier up finds nothing.
pub proof fn lemma_delete_then_get(pre: Store, post: Store, c: Seq<char>, id: nat)
    requires
        pre.wf(),
        idx_of_id_from(pre.docs(c), id, 0) < pre.docs(c).len(),
        post.docs(c) == pre.docs(c).remove(idx_of_id_from(pre.docs(c), id, 0)),
    ensures
        find_by_id(post.docs(c), id) is None,
{
    let ds = pre.docs(c);
    let p = idx_of_id_from(ds, id, 0);
    pre.lemma_docs_wf(c);
    crate::store::lemma_idx_of_id_bounds(ds, id, 0);
    assert forall|j: int| 0 <= j < post.docs(c).len() implies doc_id_m(
        #[trigger] post.docs(c)[j],
    ) != Some(id) by {
        if j < p {
            assert(post.docs(c)[j] == ds[j]);
            assert(doc_id_m(ds[j]) != doc_id_m(ds[p]));
        } else {
            assert(post.docs(c)[j] == ds[j + 1]);
            assert(doc_id_m(ds[p]) != doc_id_m(ds[j + 1]));
        }
    }
    lemma_idx_none(post.docs(c), id, 0);
}

/// The first two pages of a listing never share a document identifier, and
/// together they never exceed the total count.
pub proof fn lemma_pages_disjoint(ds: Seq<Vm>, per: nat)
    requires
        ids_distinct(ds),
        ds.len() >= 2 * per,
    ensures
        page_of(ds, 0, per).len() + page_of(ds, per, per).len() <= ds.len(),
        forall|a: int, b: int|
            0 <= a < page_of(ds, 0, per).len() && 0 <= b < page_of(ds, per, per).len()
                ==> doc_id_m(#[trigger] page_of(ds, 0, per)[a]) != doc_id_m(
                #[trigger] page_of(ds, per, per)[b],
            ),
{
    let p1 = page_of(ds, 0, per);
    let p2 = page_of(ds, per, per);
    assert forall|a: int, b: int| 0 <= a < p1.len() && 0 <= b < p2.len() implies doc_id_m(
        #[trigger] p1[a],
    ) != doc_id_m(#[trigger] p2[b]) by {
        assert(p1[a] == ds[a]);
        assert(p2[b] == ds[per + b]);
        assert(doc_id_m(ds[a]) != doc_id_m(ds[per + b]));
    }
}

/// After a supplier update fans out, every product whose embedded supplier
/// identifier matched carries the supplier's new snapshot, and every other
/// product is untouched.
pub proof fn lemma_supplier_propagation(
    f: Fornecedor,
    pre: Store,
    post: Store,
    r: Result<Seq<char>, Erro>,
    j: int,
)
    requires
        f.propagate_post(pre, post, r),
        0 <= j < pre.docs("produtos"@).len(),
        pre.docs("produtos"@)[j] is Obj,
    ensures
        post.docs("produtos"@).len() == pre.docs("produtos"@).len(),
        m_eq(pre.docs("produtos"@)[j], "fornecedor._id"@, forn_id_m(f)) ==> get_m(
            post.docs("produtos"@)[j],
            "fornecedor"@,
        ) == Some(f.spec_doc()),
        !m_eq(pre.docs("produtos"@)[j], "fornecedor._id"@, forn_id_m(f)) ==> post.docs(
            "produtos"@,
        )[j] == pre.docs("produtos"@)[j],
{
    let ds = pre.docs("produtos"@);
    let fm = FilterM::Eq("fornecedor._id"@, forn_id_m(f));
    assert(post.docs("produtos"@)[j] == set_one(ds[j], fm, "fornecedor"@, f.spec_doc()));
    if m_eq(ds[j], "fornecedor._id"@, forn_id_m(f)) {
        crate::value::lemma_get_set_same(ds[j], "fornecedor"@, f.spec_doc());
    }
}

/// After a tag update fans out, the matching element of each product's tag
/// array is replaced in place: the array keeps its length and order, other
/// elements stay, and only elements carrying the tag's identifier become
/// the tag's new form.
pub proof fn lemma_tag_propagation(
    t: Tag,
    pre: Store,
    post: Store,
    r: Result<Seq<char>, Erro>,
    id: Oid,
    j: int,
)
    requires
        t._id == Some(id),
        t.propagate_post(pre, post, r),
        0 <= j < pre.docs("produtos"@).len(),
        get_m(pre.docs("produtos"@)[j], "tags"@) matches Some(w) && w is Arr,
    ensures
        post.docs("produtos"@).len() == pre.docs("produtos"@).len(),
        ({
            let els = get_m(pre.docs("produtos"@)[j], "tags"@)->Some_0->Arr_0;
            &&& get_m(post.docs("produtos"@)[j], "tags"@) == Some(
                Vm::Arr(patch_arr(els, id.model(), t.spec_doc())),
            )
            &&& patch_arr(els, id.model(), t.spec_doc()).len() == els.len()
            &&& forall|k: int|
                0 <= k < els.len() ==> #[trigger] patch_arr(els, id.model(), t.spec_doc())[k]
                    == (if doc_id_m(els[k]) == Some(id.model()) {
                    t.spec_doc()
                } else {
                    els[k]
                })
        }),
{
    let ds = pre.docs("produtos"@);
    let els = get_m(ds[j], "tags"@)->Some_0->Arr_0;
    assert(post.docs("produtos"@)[j] == patch_doc(ds[j], "tags"@, id.model(), t.spec_doc()));
    reveal_strlit("tags");
    reveal_strlit("_id");
    assert("tags"@.len() == 4 && "_id"@.len() == 3);
    crate::value::lemma_get_set_same(
        ds[j],
        "tags"@,
        Vm::Arr(patch_arr(els, id.model(), t.spec_doc())),
    );
}

/// Deleting from one collection leaves every other collection alone; in
/// particular, deleting a tag leaves the copies embedded in products
/// exactly as they were.
pub proof fn lemma_delete_keeps_other_collections(pre: Store, post: Store, c: Seq<char>)
    requires
        forall|n: Seq<char>| #![trigger post.docs(n)] n != c ==> post.docs(n) == pre.docs(n),
        c == "tags"@,
    ensures
        post.docs("produtos"@) == pre.docs("produtos"@),
{
    reveal_strlit("tags");
    reveal_strlit("produtos");
    assert("tags"@.len() == 4 && "produtos"@.len() == 8);
    assert("produtos"@ != "tags"@);
}

/// A tag's own serialized document reads back as the same document.
pub proof fn lemma_tag_canon_own(t: Tag)
    ensures
        Tag::doc_ok(t.spec_doc()),
        Tag::canon(t.spec_doc()) == t.spec_doc(),
{
    reveal_strlit("_id");
    reveal_strlit("nome");
    assert("_id"@.len() == 3 && "nome"@.len() == 4);
    let fs = t.spec_doc()->Obj_0;
    match t._id {
        Some(o) => {
            assert(fs[0] == ("_id"@, Vm::Id(o.model())));
            assert(fs[1] == ("nome"@, Vm::Str(t.nome@)));
            assert(crate::value::obj_get_from(fs, "_id"@, 0) == Some(Vm::Id(o.model())));
            assert(crate::value::obj_get_from(fs, "nome"@, 1) == Some(Vm::Str(t.nome@)));
            assert(crate::value::obj_get_from(fs, "nome"@, 0) == Some(Vm::Str(t.nome@)));
            assert(Tag::canon(t.spec_doc())->Obj_0 =~= fs);
        },
        None => {
            assert(fs[0] == ("nome"@, Vm::Str(t.nome@)));
            assert(crate::value::obj_get_from(fs, "nome"@, 0) == Some(Vm::Str(t.nome@)));
            assert(crate::value::obj_get_from(fs, "_id"@, 1) is None);
            assert(crate::value::obj_get_from(fs, "_id"@, 0) is None);
            assert(Tag::canon(t.spec_doc())->Obj_0 =~= fs);
        },
    }
    assert(Tag::canon(t.spec_doc()) == t.spec_doc());
}

/// The document saved for a tag is the tag's own document under the
/// assigned identifier: what `create` writes reads back as a tag equal to
/// the input, up to the identifier.
pub proof fn lemma_tag_saved_form(t: Tag, o: Oid)
    ensures
        with_id_m(strip_id_m(t.spec_doc()), o.model()) == (Tag {
            _id: Some(o),
            nome: t.nome,
        }).spec_doc(),
{
    reveal_strlit("_id");
    reveal_strlit("nome");
    assert("_id"@.len() == 3 && "nome"@.len() == 4);
    let fs = t.spec_doc()->Obj_0;
    let stripped = strip_id_m(t.spec_doc());
    match t._id {
        Some(x) => {
            assert(fs[0].0 == "_id"@ && fs[1].0 == "nome"@);
            assert(crate::value::obj_remove_from(fs, "_id"@, 2) =~= Seq::<(Seq<char>, Vm)>::empty());
            assert(crate::value::obj_remove_from(fs, "_id"@, 1) =~= seq![fs[1]]);
            assert(crate::value::obj_remove_from(fs, "_id"@, 0)
                =~= seq![("nome"@, Vm::Str(t.nome@))]);
        },
        None => {
            assert(fs[0].0 == "nome"@);
            assert(crate::value::obj_remove_from(fs, "_id"@, 1) =~= Seq::<(Seq<char>, Vm)>::empty());
            assert(crate::value::obj_remove_from(fs, "_id"@, 0)
                =~= seq![("nome"@, Vm::Str(t.nome@))]);
        },
    }
    assert(with_id_m(stripped, o.model())->Obj_0 =~= (Tag {
        _id: Some(o),
        nome: t.nome,
    }).spec_doc()->Obj_0);
}

/// A brand's own serialized document reads back as the same document.
pub proof fn lemma_marca_canon_own(m: crate::marca::Marca)
    ensures
        crate::marca::Marca::doc_ok(m.spec_doc()),
        crate::marca::Marca::canon(m.spec_doc()) == m.spec_doc(),
{
    reveal_strlit("_id");
    reveal_strlit("nome");
    reveal_strlit("created_at");
    reveal_strlit("updated_at");
    assert("_id"@.len() == 3 && "nome"@.len() == 4 && "created_at"@.len() == 10
        && "updated_at"@.len() == 10);
    assert("updated_at"@[0] == 'u' && "created_at"@[0] == 'c');
    let fs = m.spec_doc()->Obj_0;
    match m.id {
        Some(o) => {
            assert(fs[0] == ("_id"@, Vm::Id(o.model())));
            assert(fs[1] == ("nome"@, Vm::Str(m.nome@)));
            assert(fs[2] == ("created_at"@, Vm::Str(m.created_at@)));
            assert(fs[3] == ("updated_at"@, Vm::Str(m.updated_at@)));
            assert(crate::value::obj_get_from(fs, "_id"@, 0) == Some(Vm::Id(o.model())));
            assert(crate::value::obj_get_from(fs, "nome"@, 1) == Some(Vm::Str(m.nome@)));
            assert(crate::value::obj_get_from(fs, "nome"@, 0) == Some(Vm::Str(m.nome@)));
            assert(crate::value::obj_get_from(fs, "created_at"@, 2) == Some(
                Vm::Str(m.created_at@),
            ));
            assert(crate::value::obj_get_from(fs, "created_at"@, 1) == Some(
                Vm::Str(m.created_at@),
            ));
            assert(crate::value::obj_get_from(fs, "created_at"@, 0) == Some(
                Vm::Str(m.created_at@),
            ));
            assert(crate::value::obj_get_from(fs, "updated_at"@, 3) == Some(
                Vm::Str(m.updated_at@),
            ));
            assert(crate::value::obj_get_from(fs, "updated_at"@, 2) == Some(
                Vm::Str(m.updated_at@),
            ));
            assert(crate::value::obj_get_from(fs, "updated_at"@, 1) == Some(
                Vm::Str(m.updated_at@),
            ));
            assert(crate::value::obj_get_from(fs, "updated_at"@, 0) == Some(
                Vm::Str(m.updated_at@),
            ));
            assert(crate::marca::Marca::canon(m.spec_doc())->Obj_0 =~= fs);
        },
        None => {
            assert(fs[0] == ("nome"@, Vm::Str(m.nome@)));
            assert(fs[1] == ("created_at"@, Vm::Str(m.created_at@)));
            assert(fs[2] == ("updated_at"@, Vm::Str(m.updated_at@)));
            assert(crate::value::obj_get_from(fs, "nome"@, 0) == Some(Vm::Str(m.nome@)));
            assert(crate::value::obj_get_from(fs, "created_at"@, 1) == Some(
                Vm::Str(m.created_at@),
            ));
            assert(crate::value::obj_get_from(fs, "created_at"@, 0) == Some(
                Vm::Str(m.created_at@),
            ));
            assert(crate::value::obj_get_from(fs, "updated_at"@, 2) == Some(
                Vm::Str(m.updated_at@),
            ));
            assert(crate::value::obj_get_from(fs, "updated_at"@, 1) == Some(
                Vm::Str(m.updated_at@),
            ));
            assert(crate::value::obj_get_from(fs, "updated_at"@, 0) == Some(
                Vm::Str(m.updated_at@),
            ));
            assert(crate::value::obj_get_from(fs, "_id"@, 3) is None);
            assert(crate::value::obj_get_from(fs, "_id"@, 2) is None);
            assert(crate::value::obj_get_from(fs, "_id"@, 1) is None);
            assert(crate::value::obj_get_from(fs, "_id"@, 0) is None);
            assert(crate::marca::Marca::canon(m.spec_doc())->Obj_0 =~= fs);
        },
    }
    assert(crate::marca::Marca::canon(m.spec_doc()) == m.spec_doc());
}

/// What `create` writes for a tag reads back unchanged: the saved document
/// is well-formed and is its own canonical form.
pub proof fn lemma_tag_create_readback(t: Tag, o: Oid)
    ensures
        Tag::doc_ok(with_id_m(strip_id_m(t.spec_doc()), o.model())),
        Tag::canon(with_id_m(strip_id_m(t.spec_doc()), o.model())) == with_id_m(
            strip_id_m(t.spec_doc()),
            o.model(),
        ),
{
    lemma_tag_saved_form(t, o);
    lemma_tag_canon_own(Tag { _id: Some(o), nome: t.nome });
}

/// The document saved for a brand is the brand's own document under the
/// assigned identifier.
pub proof fn lemma_marca_saved_form(m: crate::marca::Marca, o: Oid)
    ensures
        with_id_m(strip_id_m(m.spec_doc()), o.model()) == (crate::marca::Marca {
            id: Some(o),
            nome: m.nome,
            created_at: m.created_at,
            updated_at: m.updated_at,
        }).spec_doc(),
{
    reveal_strlit("_id");
    reveal_strlit("nome");
    reveal_strlit("created_at");
    reveal_strlit("updated_at");
    assert("_id"@.len() == 3 && "nome"@.len() == 4 && "created_at"@.len() == 10
        && "updated_at"@.len() == 10);
    let fs = m.spec_doc()->Obj_0;
    let rest = seq![
        ("nome"@, Vm::Str(m.nome@)),
        ("created_at"@, Vm::Str(m.created_at@)),
        ("updated_at"@, Vm::Str(m.updated_at@)),
    ];
    match m.id {
        Some(x) => {
            assert(crate::value::obj_remove_from(fs, "_id"@, 4)
                =~= Seq::<(Seq<char>, Vm)>::empty());
            assert(crate::value::obj_remove_from(fs, "_id"@, 3) =~= seq![fs[3]]);
            assert(crate::value::obj_remove_from(fs, "_id"@, 2) =~= seq![fs[2], fs[3]]);
            assert(crate::value::obj_remove_from(fs, "_id"@, 1) =~= seq![fs[1], fs[2], fs[3]]);
            assert(crate::value::obj_remove_from(fs, "_id"@, 0) =~= rest);
        },
        None => {
            assert(crate::value::obj_remove_from(fs, "_id"@, 3)
                =~= Seq::<(Seq<char>, Vm)>::empty());
            assert(crate::value::obj_remove_from(fs, "_id"@, 2) =~= seq![fs[2]]);
            assert(crate::value::obj_remove_from(fs, "_id"@, 1) =~= seq![fs[1], fs[2]]);
            assert(crate::value::obj_remove_from(fs, "_id"@, 0) =~= rest);
        },
    }
    assert(with_id_m(strip_id_m(m.spec_doc()), o.model())->Obj_0 =~= (crate::marca::Marca {
        id: Some(o),
        nome: m.nome,
        created_at: m.created_at,
        updated_at: m.updated_at,
    }).spec_doc()->Obj_0);
}

/// What `create` writes for a brand reads back unchanged.
pub proof fn lemma_marca_create_readback(m: crate::marca::Marca, o: Oid)
    ensures
        crate::marca::Marca::doc_ok(with_id_m(strip_id_m(m.spec_doc()), o.model())),
        crate::marca::Marca::canon(with_id_m(strip_id_m(m.spec_doc()), o.model())) == with_id_m(
            strip_id_m(m.spec_doc()),
            o.model(),
        ),
{
    lemma_marca_saved_form(m, o);
    lemma_marca_canon_own(crate::marca::Marca {
        id: Some(o),
        nome: m.nome,
        created_at: m.created_at,
        updated_at: m.updated_at,
    });
}

/// A supplier's own serialized document reads back as the same document,
/// nested address included.
pub proof fn lemma_fornecedor_canon_own(f: Fornecedor)
    ensures
        Fornecedor::doc_ok(f.spec_doc()),
        Fornecedor::canon(f.spec_doc()) == f.spec_doc(),
{
    reveal_strlit("_id");
    reveal_strlit("razao_social");
    reveal_strlit("nome_fantasia");
    reveal_strlit("cnpj");
    reveal_strlit("contato_nome");
    reveal_strlit("endereco");
    reveal_strlit("telefone");
    reveal_strlit("email");
    reveal_strlit("ativo");
    reveal_strlit("updated_at");
    reveal_strlit("created_at");
    assert("_id"@.len() == 3 && "razao_social"@.len() == 12 && "nome_fantasia"@.len() == 13
        && "cnpj"@.len() == 4 && "contato_nome"@.len() == 12 && "endereco"@.len() == 8
        && "telefone"@.len() == 8 && "email"@.len() == 5 && "ativo"@.len() == 5
        && "updated_at"@.len() == 10 && "created_at"@.len() == 10);
    assert("razao_social"@[0] == 'r' && "contato_nome"@[0] == 'c' && "endereco"@[0] == 'e'
        && "telefone"@[0] == 't' && "email"@[0] == 'e' && "ativo"@[0] == 'a'
        && "updated_at"@[0] == 'u' && "created_at"@[0] == 'c');
    match f.endereco {
        Some(en) => {
            crate::endereco::lemma_endereco_canon_own(en);
        },
        None => {},
    }
    let fs = f.spec_doc()->Obj_0;
    match f.id {
        Some(o) => {
            assert(fs[0].0 == "_id"@ && fs[1].0 == "razao_social"@ && fs[2].0
                == "nome_fantasia"@ && fs[3].0 == "cnpj"@ && fs[4].0 == "contato_nome"@
                && fs[5].0 == "endereco"@ && fs[6].0 == "telefone"@ && fs[7].0 == "email"@
                && fs[8].0 == "ativo"@ && fs[9].0 == "updated_at"@ && fs[10].0
                == "created_at"@);
            crate::value::lemma_get_at_first(fs, "_id"@, 0, 0);
            crate::value::lemma_get_at_first(fs, "razao_social"@, 0, 1);
            crate::value::lemma_get_at_first(fs, "nome_fantasia"@, 0, 2);
            crate::value::lemma_get_at_first(fs, "cnpj"@, 0, 3);
            crate::value::lemma_get_at_first(fs, "contato_nome"@, 0, 4);
            crate::value::lemma_get_at_first(fs, "endereco"@, 0, 5);
            crate::value::lemma_get_at_first(fs, "telefone"@, 0, 6);
            crate::value::lemma_get_at_first(fs, "email"@, 0, 7);
            crate::value::lemma_get_at_first(fs, "ativo"@, 0, 8);
            crate::value::lemma_get_at_first(fs, "updated_at"@, 0, 9);
            crate::value::lemma_get_at_first(fs, "created_at"@, 0, 10);
            assert(Fornecedor::canon(f.spec_doc())->Obj_0 =~= fs);
        },
        None => {
            assert(fs[0].0 == "razao_social"@ && fs[1].0 == "nome_fantasia"@ && fs[2].0
                == "cnpj"@ && fs[3].0 == "contato_nome"@ && fs[4].0 == "endereco"@ && fs[5].0
                == "telefone"@ && fs[6].0 == "email"@ && fs[7].0 == "ativo"@ && fs[8].0
                == "updated_at"@ && fs[9].0 == "created_at"@);
            crate::value::lemma_get_at_first(fs, "razao_social"@, 0, 0);
            crate::value::lemma_get_at_first(fs, "nome_fantasia"@, 0, 1);
            crate::value::lemma_get_at_first(fs, "cnpj"@, 0, 2);
            crate::value::lemma_get_at_first(fs, "contato_nome"@, 0, 3);
            crate::value::lemma_get_at_first(fs, "endereco"@, 0, 4);
            crate::value::lemma_get_at_first(fs, "telefone"@, 0, 5);
            crate::value::lemma_get_at_first(fs, "email"@, 0, 6);
            crate::value::lemma_get_at_first(fs, "ativo"@, 0, 7);
            crate::value::lemma_get_at_first(fs, "updated_at"@, 0, 8);
            crate::value::lemma_get_at_first(fs, "created_at"@, 0, 9);
            assert forall|q: int| 0 <= q < fs.len() implies (#[trigger] fs[q]).0 != "_id"@ by {}
            crate::value::lemma_get_none_when_no_key(fs, "_id"@, 0);
            assert(Fornecedor::canon(f.spec_doc())->Obj_0 =~= fs);
        },
    }
    assert(Fornecedor::canon(f.spec_doc()) == f.spec_doc());
}

/// A stock item's own serialized document reads back as the same document.
pub proof fn lemma_item_canon_own(it: crate::produto::ItemProduto)
    ensures
        crate::produto::item_ok(crate::produto::item_doc(it)),
        crate::produto::item_canon(crate::produto::item_doc(it)) == crate::produto::item_doc(
            it,
        ),
{
    reveal_strlit("id");
    reveal_strlit("data_aquisicao");
    reveal_strlit("quantidade");
    assert("id"@.len() == 2 && "data_aquisicao"@.len() == 14 && "quantidade"@.len() == 10);
    let fs = crate::produto::item_doc(it)->Obj_0;
    assert(fs[0].0 == "id"@ && fs[1].0 == "data_aquisicao"@ && fs[2].0 == "quantidade"@);
    crate::value::lemma_get_at_first(fs, "id"@, 0, 0);
    crate::value::lemma_get_at_first(fs, "data_aquisicao"@, 0, 1);
    crate::value::lemma_get_at_first(fs, "quantidade"@, 0, 2);
    assert(crate::produto::item_canon(crate::produto::item_doc(it))->Obj_0 =~= fs);
    assert(crate::produto::item_canon(crate::produto::item_doc(it)) == crate::produto::item_doc(
        it,
    ));
}

/// A product's own serialized document reads back as the same document,
/// embedded supplier, stock items and tags included.
pub proof fn lemma_produto_canon_own(p: crate::produto::Produto)
    ensures
        crate::produto::Produto::doc_ok(p.spec_doc()),
        crate::produto::Produto::canon(p.spec_doc()) == p.spec_doc(),
{
    reveal_strlit("_id");
    reveal_strlit("codigo_interno");
    reveal_strlit("descricao");
    reveal_strlit("tamanho");
    reveal_strlit("fornecedor");
    reveal_strlit("marca");
    reveal_strlit("preco_custo");
    reveal_strlit("preco_venda");
    reveal_strlit("fotos");
    reveal_strlit("item_produto");
    reveal_strlit("update_automatico");
    reveal_strlit("tags");
    assert("_id"@.len() == 3 && "codigo_interno"@.len() == 14 && "descricao"@.len() == 9
        && "tamanho"@.len() == 7 && "fornecedor"@.len() == 10 && "marca"@.len() == 5
        && "preco_custo"@.len() == 11 && "preco_venda"@.len() == 11 && "fotos"@.len() == 5
        && "item_produto"@.len() == 12 && "update_automatico"@.len() == 17 && "tags"@.len()
        == 4);
    assert("preco_custo"@[6] == 'c' && "preco_venda"@[6] == 'v' && "marca"@[0] == 'm'
        && "fotos"@[0] == 'f');
    lemma_fornecedor_canon_own(p.fornecedor);
    let im = crate::produto::items_m(p.item_produto@);
    assert forall|q: int| 0 <= q < im.len() implies crate::produto::item_ok(#[trigger] im[q])
        && crate::produto::item_canon(im[q]) == im[q] by {
        assert(im[q] == crate::produto::item_doc(p.item_produto@[q]));
        lemma_item_canon_own(p.item_produto@[q]);
    }
    let fs = p.spec_doc()->Obj_0;
    fs_keys_produto(p);
    let base: int = if p.id is Some {
        1
    } else {
        0
    };
    let off: int = if p.fotos is Some {
        1
    } else {
        0
    };
    if p.id is Some {
        crate::value::lemma_get_at_first(fs, "_id"@, 0, 0);
    } else {
        assert forall|q: int| 0 <= q < fs.len() implies (#[trigger] fs[q]).0 != "_id"@ by {}
        crate::value::lemma_get_none_when_no_key(fs, "_id"@, 0);
    }
    crate::value::lemma_get_at_first(fs, "codigo_interno"@, 0, base);
    crate::value::lemma_get_at_first(fs, "descricao"@, 0, base + 1);
    crate::value::lemma_get_at_first(fs, "tamanho"@, 0, base + 2);
    crate::value::lemma_get_at_first(fs, "fornecedor"@, 0, base + 3);
    crate::value::lemma_get_at_first(fs, "marca"@, 0, base + 4);
    crate::value::lemma_get_at_first(fs, "preco_custo"@, 0, base + 5);
    crate::value::lemma_get_at_first(fs, "preco_venda"@, 0, base + 6);
    if p.fotos is Some {
        crate::value::lemma_get_at_first(fs, "fotos"@, 0, base + 7);
    } else {
        assert forall|q: int| 0 <= q < fs.len() implies (#[trigger] fs[q]).0 != "fotos"@ by {}
        crate::value::lemma_get_none_when_no_key(fs, "fotos"@, 0);
    }
    crate::value::lemma_get_at_first(fs, "item_produto"@, 0, base + 7 + off);
    crate::value::lemma_get_at_first(fs, "update_automatico"@, 0, base + 8 + off);
    crate::value::lemma_get_at_first(fs, "tags"@, 0, base + 9 + off);
    let tags_field = crate::value::get_m(p.spec_doc(), "tags"@)->Some_0->Arr_0;
    assert(tags_field == crate::produto::tags_m(p.tags@));
    assert forall|q: int| 0 <= q < tags_field.len() implies Tag::doc_ok(
        #[trigger] tags_field[q],
    ) && Tag::canon(tags_field[q]) == tags_field[q] by {
        assert(tags_field[q] == p.tags@[q].spec_doc());
        lemma_tag_canon_own(p.tags@[q]);
    }
    assert(Seq::new(tags_field.len(), |i: int| Tag::canon(tags_field[i])) =~= tags_field);
    let items_field = crate::value::get_m(p.spec_doc(), "item_produto"@)->Some_0->Arr_0;
    assert(items_field == im);
    assert(Seq::new(items_field.len(), |i: int| crate::produto::item_canon(items_field[i]))
        =~= items_field);
    assert(crate::produto::Produto::canon(p.spec_doc())->Obj_0 =~= fs);
    assert(crate::produto::Produto::canon(p.spec_doc()) == p.spec_doc());
}

/// The field names of a product document, position by position.
proof fn fs_keys_produto(p: crate::produto::Produto)
    ensures
        ({
            let fs = p.spec_doc()->Obj_0;
            let base: int = if p.id is Some {
                1
            } else {
                0
            };
            let off: int = if p.fotos is Some {
                1
            } else {
                0
            };
            &&& fs.len() == base + 10 + off
            &&& (p.id is Some ==> fs[0] == ("_id"@, Vm::Id(p.id->0.model())))
            &&& fs[base].0 == "codigo_interno"@
            &&& fs[base + 1].0 == "descricao"@
            &&& fs[base + 2].0 == "tamanho"@
            &&& fs[base + 3].0 == "fornecedor"@ && fs[base + 3].1 == p.fornecedor.spec_doc()
            &&& fs[base + 4].0 == "marca"@
            &&& fs[base + 5].0 == "preco_custo"@
            &&& fs[base + 6].0 == "preco_venda"@
            &&& (p.fotos is Some ==> fs[base + 7].0 == "fotos"@)
            &&& fs[base + 7 + off].0 == "item_produto"@ && fs[base + 7 + off].1 == Vm::Arr(
                crate::produto::items_m(p.item_produto@),
            )
            &&& fs[base + 8 + off].0 == "update_automatico"@
            &&& fs[base + 9 + off].0 == "tags"@ && fs[base + 9 + off].1 == Vm::Arr(
                crate::produto::tags_m(p.tags@),
            )
        }),
{
}

/// The document saved for a supplier is the supplier's own document under
/// the assigned identifier.
pub proof fn lemma_fornecedor_saved_form(f: Fornecedor, o: Oid)
    ensures
        with_id_m(strip_id_m(f.spec_doc()), o.model()) == (Fornecedor {
            id: Some(o),
            ..f
        }).spec_doc(),
{
    reveal_strlit("_id");
    reveal_strlit("razao_social");
    reveal_strlit("nome_fantasia");
    reveal_strlit("cnpj");
    reveal_strlit("contato_nome");
    reveal_strlit("endereco");
    reveal_strlit("telefone");
    reveal_strlit("email");
    reveal_strlit("ativo");
    reveal_strlit("updated_at");
    reveal_strlit("created_at");
    assert("_id"@.len() == 3 && "razao_social"@.len() == 12 && "nome_fantasia"@.len() == 13
        && "cnpj"@.len() == 4 && "contato_nome"@.len() == 12 && "endereco"@.len() == 8
        && "telefone"@.len() == 8 && "email"@.len() == 5 && "ativo"@.len() == 5
        && "updated_at"@.len() == 10 && "created_at"@.len() == 10);
    let rest = crate::fornecedor::forn_fields(f);
    assert(crate::fornecedor::forn_fields(Fornecedor { id: Some(o), ..f }) == rest);
    assert forall|q: int| 0 <= q < rest.len() implies (#[trigger] rest[q]).0 != "_id"@ by {}
    let fs = f.spec_doc()->Obj_0;
    match f.id {
        Some(x) => {
            assert(fs =~= seq![("_id"@, Vm::Id(x.model()))] + rest);
            assert(fs.subrange(1, fs.len() as int) =~= rest);
            crate::value::lemma_remove_absent(rest, "_id"@, 0);
            assert(crate::value::obj_remove_from(fs, "_id"@, 1) =~= rest) by {
                lemma_remove_shift(fs, rest, "_id"@);
            }
            assert(crate::value::obj_remove_from(fs, "_id"@, 0) =~= rest);
        },
        None => {
            assert(fs == rest);
            crate::value::lemma_remove_absent(fs, "_id"@, 0);
            assert(crate::value::obj_remove_from(fs, "_id"@, 0) =~= rest);
        },
    }
    assert(with_id_m(strip_id_m(f.spec_doc()), o.model())->Obj_0 =~= (Fornecedor {
        id: Some(o),
        ..f
    }).spec_doc()->Obj_0);
}

/// Removing from position one of an identifier-headed field list removes
/// from the tail.
proof fn lemma_remove_shift(fs: Seq<(Seq<char>, Vm)>, rest: Seq<(Seq<char>, Vm)>, key: Seq<
    char,
>)
    requires
        fs.len() == rest.len() + 1,
        forall|q: int| 0 <= q < rest.len() ==> fs[q + 1] == #[trigger] rest[q],
        forall|q: int| 0 <= q < rest.len() ==> (#[trigger] rest[q]).0 != key,
    ensures
        crate::value::obj_remove_from(fs, key, 1) == rest,
{
    assert forall|q: int| 1 <= q < fs.len() implies (#[trigger] fs[q]).0 != key by {
        assert(fs[q] == rest[q - 1]);
        assert(rest[q - 1].0 != key);
    }
    lemma_remove_suffix(fs, key, 1);
    assert(fs.subrange(1, fs.len() as int) =~= rest);
}

/// Removing an absent key from a suffix keeps the suffix.
proof fn lemma_remove_suffix(fs: Seq<(Seq<char>, Vm)>, key: Seq<char>, i: int)
    requires
        0 <= i <= fs.len(),
        forall|q: int| i <= q < fs.len() ==> (#[trigger] fs[q]).0 != key,
    ensures
        crate::value::obj_remove_from(fs, key, i) == fs.subrange(i, fs.len() as int),
    decreases fs.len() - i,
{
    if i < fs.len() {
        lemma_remove_suffix(fs, key, i + 1);
        assert(crate::value::obj_remove_from(fs, key, i) =~= fs.subrange(
            i,
            fs.len() as int,
        ));
    } else {
        assert(crate::value::obj_remove_from(fs, key, i) =~= fs.subrange(
            i,
            fs.len() as int,
        ));
    }
}

/// What `create` writes for a supplier reads back unchanged.
pub proof fn lemma_fornecedor_create_readback(f: Fornecedor, o: Oid)
    ensures
        Fornecedor::doc_ok(with_id_m(strip_id_m(f.spec_doc()), o.model())),
        Fornecedor::canon(with_id_m(strip_id_m(f.spec_doc()), o.model())) == with_id_m(
            strip_id_m(f.spec_doc()),
            o.model(),
        ),
{
    lemma_fornecedor_saved_form(f, o);
    lemma_fornecedor_canon_own(Fornecedor { id: Some(o), ..f });
}

/// The document saved for a product is the product's own document under
/// the assigned identifier.
pub proof fn lemma_produto_saved_form(p: crate::produto::Produto, o: Oid)
    ensures
        with_id_m(strip_id_m(p.spec_doc()), o.model()) == (crate::produto::Produto {
            id: Some(o),
            ..p
        }).spec_doc(),
{
    fs_keys_produto(p);
    reveal_strlit("_id");
    reveal_strlit("codigo_interno");
    reveal_strlit("descricao");
    reveal_strlit("tamanho");
    reveal_strlit("fornecedor");
    reveal_strlit("marca");
    reveal_strlit("preco_custo");
    reveal_strlit("preco_venda");
    reveal_strlit("fotos");
    reveal_strlit("item_produto");
    reveal_strlit("update_automatico");
    reveal_strlit("tags");
    assert("_id"@.len() == 3 && "codigo_interno"@.len() == 14 && "descricao"@.len() == 9
        && "tamanho"@.len() == 7 && "fornecedor"@.len() == 10 && "marca"@.len() == 5
        && "preco_custo"@.len() == 11 && "preco_venda"@.len() == 11 && "fotos"@.len() == 5
        && "item_produto"@.len() == 12 && "update_automatico"@.len() == 17 && "tags"@.len()
        == 4);
    let rest = crate::produto::produto_fields(p);
    assert(crate::produto::produto_fields(crate::produto::Produto { id: Some(o), ..p })
        == rest);
    assert forall|q: int| 0 <= q < rest.len() implies (#[trigger] rest[q]).0 != "_id"@ by {
        let fs = p.spec_doc()->Obj_0;
        let base: int = if p.id is Some {
            1
        } else {
            0
        };
        assert(fs[q + base] == rest[q]);
    }
    let fs = p.spec_doc()->Obj_0;
    match p.id {
        Some(x) => {
            assert(fs =~= seq![("_id"@, Vm::Id(x.model()))] + rest);
            lemma_remove_shift(fs, rest, "_id"@);
            assert(crate::value::obj_remove_from(fs, "_id"@, 0) =~= rest);
        },
        None => {
            assert(fs == rest);
            crate::value::lemma_remove_absent(fs, "_id"@, 0);
            assert(crate::value::obj_remove_from(fs, "_id"@, 0) =~= rest);
        },
    }
    assert(with_id_m(strip_id_m(p.spec_doc()), o.model())->Obj_0
        =~= (crate::produto::Produto { id: Some(o), ..p }).spec_doc()->Obj_0);
}

/// What `create` writes for a product reads back unchanged.
pub proof fn lemma_produto_create_readback(p: crate::produto::Produto, o: Oid)
    ensures
        crate::produto::Produto::doc_ok(with_id_m(strip_id_m(p.spec_doc()), o.model())),
        crate::produto::Produto::canon(with_id_m(strip_id_m(p.spec_doc()), o.model()))
            == with_id_m(strip_id_m(p.spec_doc()), o.model()),
{
    lemma_produto_saved_form(p, o);
    lemma_produto_canon_own(crate::produto::Produto { id: Some(o), ..p });
}

/// Under the product uniqueness policy — a unique index on internal codes
/// and nothing else registered for the product collection — a fresh code
/// is never refused: no duplicate-key conflict can arise for a product
/// whose code matches no stored product, so `create_produto`'s contract
/// owes success on it.
pub proof fn lemma_fresh_code_creates(s: Store, p: crate::produto::Produto)
    requires
        s.wf(),
        forall|f: Seq<char>| #[trigger] s.has_index("produtos"@, f) ==> f == "codigo_interno"@,
        crate::store::first_match_from(
            s.docs("produtos"@),
            crate::produto::code_filter(p.codigo_interno@),
            0,
        ) == s.docs("produtos"@).len(),
    ensures
        !crate::store::index_conflict(
            s,
            "produtos"@,
            with_id_m(strip_id_m(p.spec_doc()), s.next_id as nat),
            None,
        ),
{
    let code = p.codigo_interno@;
    let newdoc = with_id_m(strip_id_m(p.spec_doc()), s.next_id as nat);
    let o = Oid { value: s.next_id as u128 };
    lemma_produto_saved_form(p, o);
    assert(o.model() == s.next_id as nat);
    let p2 = crate::produto::Produto { id: Some(o), ..p };
    assert(newdoc == p2.spec_doc());
    fs_keys_produto(p2);
    reveal_strlit("_id");
    reveal_strlit("codigo_interno");
    assert("_id"@.len() == 3 && "codigo_interno"@.len() == 14);
    let fs2 = p2.spec_doc()->Obj_0;
    crate::value::lemma_get_at_first(fs2, "codigo_interno"@, 0, 1);
    assert(get_m(newdoc, "codigo_interno"@) == Some(Vm::Str(code)));
    if crate::store::index_conflict(s, "produtos"@, newdoc, None) {
        let (a, b) = choose|a: int, b: int|
            #[trigger] crate::store::conflict_pair(s, "produtos"@, newdoc, None, a, b);
        assert(0 <= a < s.indexes@.len() && s.indexes@[a].collection@ == "produtos"@);
        assert(s.has_index("produtos"@, s.indexes@[a].field@));
        assert(s.indexes@[a].field@ == "codigo_interno"@);
        let d = s.docs("produtos"@)[b];
        assert(get_m(d, "codigo_interno"@) == Some(Vm::Str(code)));
        s.lemma_docs_wf("produtos"@);
        assert(crate::store::doc_wf(d, s.next_id as nat));
        assert(d is Obj);
        let fsb = d->Obj_0;
        crate::value::lemma_get_key_index(fsb, "codigo_interno"@, 0);
        crate::value::lemma_key_index_bounds(fsb, "codigo_interno"@, 0);
        let ki = crate::value::key_index_from(fsb, "codigo_interno"@, 0);
        assert(0 <= ki < fsb.len() && (#[trigger] fsb[ki]).0 == "codigo_interno"@ && fsb[ki].1
            == Vm::Str(code));
        assert forall|q: int| 0 <= q < "codigo_interno"@.len()
            implies "codigo_interno"@[q] != '.' by {
            assert("codigo_interno"@.len() == 14);
        }
        crate::filter::lemma_no_dot("codigo_interno"@, 0);
        assert(crate::filter::value_matches(Vm::Str(code), Vm::Str(code)));
        assert(m_eq(d, "codigo_interno"@, Vm::Str(code)));
        assert(crate::filter::matched(d, crate::produto::code_filter(code)));
        crate::store::lemma_first_match_none(
            s.docs("produtos"@),
            crate::produto::code_filter(code),
            0,
        );
        assert(false);
    }
}

} // verus!
