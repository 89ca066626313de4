//! Products and the cross-entity fan-out: duplicate codes, supplier and
//! tag propagation, the non-cascading delete, and the code allocator.

use estoque::fornecedor::{update_fornecedor, Fornecedor};
use estoque::produto::{
    create_produto, get_produto_by_id, list_produtos_by_description, list_produtos_by_fornecedor,
    list_produtos_by_marca, list_produtos_by_tags, next_codigo_interno, Produto,
};
use estoque::store::Store;
use estoque::tag::{delete_tag, update_tag, Tag};
use estoque::updatable::Updatable;
use estoque::value::Oid;
use estoque::Erro;

fn fornecedor(nome: &str) -> Fornecedor {
    Fornecedor {
        id: None,
        razao_social: None,
        nome_fantasia: String::from(nome),
        cnpj: None,
        contato_nome: None,
        endereco: None,
        telefone: None,
        email: None,
        ativo: true,
        updated_at: String::from("2024-01-01"),
        created_at: String::from("2024-01-01"),
    }
}

fn produto(codigo: &str, forn: Fornecedor, tags: Vec<Tag>) -> Produto {
    Produto {
        id: None,
        codigo_interno: String::from(codigo),
        descricao: String::from("Camisa listrada"),
        tamanho: String::from("M"),
        fornecedor: forn,
        marca: String::from("acme"),
        preco_custo: 1250,
        preco_venda: 1999,
        fotos: None,
        item_produto: Vec::new(),
        update_automatico: true,
        tags,
    }
}

fn saved_fornecedor(store: &mut Store, nome: &str) -> Fornecedor {
    let mut f = fornecedor(nome);
    let id = f.create(store).unwrap();
    f.id = Some(id);
    f
}

fn saved_tag(store: &mut Store, nome: &str) -> Tag {
    let mut t = Tag { _id: None, nome: String::from(nome) };
    let id = t.create(store).unwrap();
    t._id = Some(id);
    t
}

#[test]
fn duplicate_internal_code_is_rejected() {
    let mut store = Store::new();
    let f = saved_fornecedor(&mut store, "Acme");
    assert!(create_produto(&mut store, produto("1", f.clone(), Vec::new())).is_ok());
    assert_eq!(
        create_produto(&mut store, produto("1", f.clone(), Vec::new())).map(|_| ()),
        Err(Erro::DuplicateKey)
    );
    assert!(create_produto(&mut store, produto("2", f, Vec::new())).is_ok());
}

#[test]
fn supplier_update_propagates_into_products() {
    let mut store = Store::new();
    let f1 = saved_fornecedor(&mut store, "Acme");
    let f2 = saved_fornecedor(&mut store, "Outra");
    let p1 = produto("1", f1.clone(), Vec::new());
    let id1 = p1.create(&mut store).unwrap();
    let p2 = produto("2", f2.clone(), Vec::new());
    let id2 = p2.create(&mut store).unwrap();

    let renamed = Fornecedor { nome_fantasia: String::from("Acme Corp"), ..f1 };
    let msg = update_fornecedor(&mut store, renamed).unwrap();
    assert_eq!(
        msg,
        String::from("Entity saved and Updated 1 products for fornecedor Acme Corp")
    );

    let got1 = get_produto_by_id(&store, &id1.to_hex()).unwrap().unwrap();
    assert_eq!(got1.fornecedor.nome_fantasia, String::from("Acme Corp"));
    let got2 = get_produto_by_id(&store, &id2.to_hex()).unwrap().unwrap();
    assert_eq!(got2.fornecedor.nome_fantasia, String::from("Outra"));
}

#[test]
fn tag_update_renames_in_place_and_keeps_order() {
    let mut store = Store::new();
    let f = saved_fornecedor(&mut store, "Acme");
    let t1 = saved_tag(&mut store, "verao");
    let t2 = saved_tag(&mut store, "oferta");
    let p = produto("1", f, vec![t1.clone(), t2.clone()]);
    let pid = p.create(&mut store).unwrap();

    let renamed = Tag { _id: t1._id, nome: String::from("inverno") };
    let msg = update_tag(&mut store, renamed).unwrap();
    assert_eq!(msg, String::from("Entity saved and Updated 1 products for tag inverno"));

    let got = get_produto_by_id(&store, &pid.to_hex()).unwrap().unwrap();
    assert_eq!(got.tags.len(), 2);
    assert_eq!(got.tags[0].nome, String::from("inverno"));
    assert_eq!(got.tags[0]._id, t1._id);
    assert_eq!(got.tags[1].nome, String::from("oferta"));
    assert_eq!(got.tags[1]._id, t2._id);
}

#[test]
fn tag_update_without_identifier_skips_products() {
    let mut store = Store::new();
    let t = Tag { _id: None, nome: String::from("solta") };
    let r = t.update_all_products(&mut store).unwrap();
    assert_eq!(r, String::from("No id, skipping tag product update"));
}

#[test]
fn deleting_a_tag_keeps_embedded_copies() {
    let mut store = Store::new();
    let f = saved_fornecedor(&mut store, "Acme");
    let t = saved_tag(&mut store, "verao");
    let p = produto("1", f, vec![t.clone()]);
    let pid = p.create(&mut store).unwrap();

    delete_tag(&mut store, &t._id.unwrap().to_hex()).unwrap();

    let got = get_produto_by_id(&store, &pid.to_hex()).unwrap().unwrap();
    assert_eq!(got.tags.len(), 1);
    assert_eq!(got.tags[0].nome, String::from("verao"));
    assert_eq!(got.tags[0]._id, t._id);
}

#[test]
fn next_internal_code_takes_the_numeric_maximum() {
    let mut store = Store::new();
    let f = saved_fornecedor(&mut store, "Acme");
    for code in ["3", "7", "x1"] {
        create_produto(&mut store, produto(code, f.clone(), Vec::new())).unwrap();
    }
    assert_eq!(next_codigo_interno(&store), Ok(String::from("8")));
}

#[test]
fn next_internal_code_starts_at_one() {
    let store = Store::new();
    assert_eq!(next_codigo_interno(&store), Ok(String::from("1")));
    let mut only_letters = Store::new();
    let f = saved_fornecedor(&mut only_letters, "Acme");
    create_produto(&mut only_letters, produto("abc", f, Vec::new())).unwrap();
    assert_eq!(next_codigo_interno(&only_letters), Ok(String::from("1")));
}

#[test]
fn next_internal_code_refuses_values_out_of_range() {
    let mut store = Store::new();
    let f = saved_fornecedor(&mut store, "Acme");
    create_produto(&mut store, produto("99999999999", f, Vec::new())).unwrap();
    assert_eq!(next_codigo_interno(&store), Err(Erro::Store));
}

#[test]
fn description_search_ignores_ascii_case() {
    let mut store = Store::new();
    let f = saved_fornecedor(&mut store, "Acme");
    create_produto(&mut store, produto("1", f, Vec::new())).unwrap();
    let (hit, total) = list_produtos_by_description(&store, "LISTRADA", 1, 20).unwrap();
    assert_eq!(total, 1);
    assert_eq!(hit.len(), 1);
    let (miss, total_miss) = list_produtos_by_description(&store, "xadrez", 1, 20).unwrap();
    assert_eq!(total_miss, 0);
    assert!(miss.is_empty());
}

#[test]
fn products_are_found_by_brand_supplier_and_tags() {
    let mut store = Store::new();
    let f = saved_fornecedor(&mut store, "Acme");
    let t1 = saved_tag(&mut store, "verao");
    let t2 = saved_tag(&mut store, "oferta");
    create_produto(&mut store, produto("1", f.clone(), vec![t1.clone(), t2.clone()]))
        .unwrap();
    create_produto(&mut store, produto("2", f.clone(), vec![t1.clone()])).unwrap();

    let (by_marca, n_marca) = list_produtos_by_marca(&store, "acme", 1, 20).unwrap();
    assert_eq!(n_marca, 2);
    assert_eq!(by_marca.len(), 2);

    let fid = f.id.unwrap().to_hex();
    let (by_forn, n_forn) = list_produtos_by_fornecedor(&store, &fid, 1, 20).unwrap();
    assert_eq!(n_forn, 2);
    assert_eq!(by_forn.len(), 2);

    let both = vec![t1._id.unwrap().to_hex(), t2._id.unwrap().to_hex()];
    let (by_both, n_both) = list_produtos_by_tags(&store, &both, 1, 20).unwrap();
    assert_eq!(n_both, 1);
    assert_eq!(by_both[0].codigo_interno, String::from("1"));

    let bad = vec![String::from("nope")];
    assert_eq!(
        list_produtos_by_tags(&store, &bad, 1, 20).map(|_| ()),
        Err(Erro::InvalidArgument)
    );
}

#[test]
fn product_round_trips_with_photos_items_and_address() {
    let mut store = Store::new();
    let mut f = fornecedor("Cheio");
    f.razao_social = Some(String::from("Cheio LTDA"));
    f.endereco = Some(estoque::endereco::Endereco::new(
        String::from("Rua A"),
        Some(-3),
        None,
        String::from("Centro"),
        String::from("Lisboa"),
        String::from("LX"),
        String::from("1000"),
    ));
    let fid = f.create(&mut store).unwrap();
    f.id = Some(fid);
    let mut p = produto("10", f, Vec::new());
    p.fotos = Some(vec![String::from("a.png"), String::from("b.png")]);
    p.item_produto = vec![estoque::produto::ItemProduto {
        id: Some(Oid { value: 5 }),
        data_aquisicao: String::from("2024-02-02"),
        quantidade: 4,
    }];
    p.update_automatico = false;
    let pid = p.create(&mut store).unwrap();
    let got = get_produto_by_id(&store, &pid.to_hex()).unwrap().unwrap();
    assert_eq!(got.fotos, p.fotos);
    assert_eq!(got.item_produto, p.item_produto);
    assert_eq!(got.update_automatico, false);
    assert_eq!(got.fornecedor.razao_social, Some(String::from("Cheio LTDA")));
    assert_eq!(
        got.fornecedor.endereco.as_ref().unwrap().numero,
        Some(-3)
    );
    assert_eq!(got.preco_custo, 1250);
    assert_eq!(got.preco_venda, 1999);
}

#[test]
fn update_produto_rejects_code_of_another_product() {
    let mut store = Store::new();
    let f = saved_fornecedor(&mut store, "Acme");
    let p1 = produto("1", f.clone(), Vec::new());
    p1.create(&mut store).unwrap();
    let p2 = produto("2", f.clone(), Vec::new());
    let id2 = p2.create(&mut store).unwrap();

    let mut stolen = produto("1", f.clone(), Vec::new());
    stolen.id = Some(id2);
    assert_eq!(
        estoque::produto::update_produto(&mut store, stolen),
        Err(Erro::DuplicateKey)
    );

    let mut kept = produto("2", f, Vec::new());
    kept.id = Some(id2);
    kept.descricao = String::from("Nova descricao");
    assert!(estoque::produto::update_produto(&mut store, kept).is_ok());
}

#[test]
fn brand_update_keys_off_the_current_name_and_changes_nothing() {
    // The brand fan-out matches products by the brand's current name, so a
    // rename can only re-set the value those products already carry: the
    // behaviour of the store is kept literally, and nothing changes.
    let mut store = Store::new();
    let f = saved_fornecedor(&mut store, "Acme");
    let pid = produto("1", f, Vec::new()).create(&mut store).unwrap();
    let mut m = estoque::marca::Marca {
        id: None,
        nome: String::from("acme"),
        created_at: String::from("2024-01-01"),
        updated_at: String::from("2024-01-01"),
    };
    let mid = m.create(&mut store).unwrap();
    m.id = Some(mid);
    m.nome = String::from("nova");
    let msg = estoque::marca::update_marca(&mut store, m).unwrap();
    assert_eq!(
        msg,
        String::from("Entity saved and Updated 0 products for marca nova")
    );
    let got = get_produto_by_id(&store, &pid.to_hex()).unwrap().unwrap();
    assert_eq!(got.marca, String::from("acme"));
}

#[test]
fn page_zero_reads_like_page_one() {
    let mut store = Store::new();
    saved_tag(&mut store, "a");
    saved_tag(&mut store, "b");
    let (p0, _) = Tag::list_paginated(&store, 0, 1).unwrap();
    let (p1, _) = Tag::list_paginated(&store, 1, 1).unwrap();
    assert_eq!(p0[0]._id, p1[0]._id);
}

#[test]
fn fresh_code_succeeds_under_the_product_index() {
    let mut store = Store::new();
    Produto::ensure_indexes(&mut store).unwrap();
    let f = saved_fornecedor(&mut store, "Acme");
    assert!(create_produto(&mut store, produto("10", f.clone(), Vec::new())).is_ok());
    assert_eq!(
        create_produto(&mut store, produto("10", f.clone(), Vec::new())).map(|_| ()),
        Err(Erro::DuplicateKey)
    );
    assert!(create_produto(&mut store, produto("11", f, Vec::new())).is_ok());
}
