//! The generic protocol on the store model: create, lookup, update,
//! delete, pagination and the boundary identifier handling.

use estoque::endereco::Endereco;
use estoque::marca::Marca;
use estoque::store::Store;
use estoque::tag::{create_tag, delete_tag, filter_tags, get_tag_by_id, update_tag, Tag};
use estoque::updatable::Updatable;
use estoque::value::{Oid, Value};
use estoque::Erro;

fn tag(nome: &str) -> Tag {
    Tag { _id: None, nome: String::from(nome) }
}

fn marca(nome: &str) -> Marca {
    Marca {
        id: None,
        nome: String::from(nome),
        created_at: String::from("2024-01-01"),
        updated_at: String::from("2024-01-01"),
    }
}

#[test]
fn create_then_get_returns_equal_tag() {
    let mut store = Store::new();
    let t = tag("promo");
    let id = t.create(&mut store).unwrap();
    let got = get_tag_by_id(&store, &id.to_hex()).unwrap().unwrap();
    assert_eq!(got.nome, String::from("promo"));
    assert_eq!(got._id, Some(id));
}

#[test]
fn create_then_get_returns_equal_marca() {
    let mut store = Store::new();
    let m = marca("acme");
    let id = m.create(&mut store).unwrap();
    let got = estoque::marca::get_marca_by_id(&store, &id.to_hex()).unwrap().unwrap();
    assert_eq!(got.nome, m.nome);
    assert_eq!(got.created_at, m.created_at);
    assert_eq!(got.updated_at, m.updated_at);
    assert_eq!(got.id, Some(id));
}

#[test]
fn update_on_nonexistent_identifier_is_rejected() {
    let mut store = Store::new();
    let mut t = tag("promo");
    t._id = Some(Oid { value: 77 });
    let r = update_tag(&mut store, t);
    assert_eq!(r, Err(Erro::NotFoundOnReplace));
    assert_eq!(
        get_tag_by_id(&store, &Oid { value: 77 }.to_hex()).unwrap(),
        None
    );
}

#[test]
fn update_without_identifier_is_rejected() {
    let mut store = Store::new();
    let r = update_tag(&mut store, tag("promo"));
    assert_eq!(r, Err(Erro::MissingIdentifier));
}

#[test]
fn update_replaces_the_document() {
    let mut store = Store::new();
    let t = tag("old");
    let id = t.create(&mut store).unwrap();
    let renamed = Tag { _id: Some(id), nome: String::from("new") };
    let msg = update_tag(&mut store, renamed).unwrap();
    assert!(msg.starts_with("Entity saved and "));
    let got = get_tag_by_id(&store, &id.to_hex()).unwrap().unwrap();
    assert_eq!(got.nome, String::from("new"));
}

#[test]
fn delete_then_get_returns_none() {
    let mut store = Store::new();
    let t = tag("promo");
    let id = t.create(&mut store).unwrap();
    let hex = id.to_hex();
    assert_eq!(delete_tag(&mut store, &hex), Ok(String::from("deleted")));
    assert_eq!(get_tag_by_id(&store, &hex).unwrap(), None);
}

#[test]
fn delete_of_absent_identifier_reports_not_found() {
    let mut store = Store::new();
    let r = delete_tag(&mut store, &Oid { value: 9 }.to_hex());
    assert_eq!(r, Err(Erro::NotFound));
}

#[test]
fn malformed_identifier_is_invalid_argument() {
    let mut store = Store::new();
    assert_eq!(delete_tag(&mut store, "zz"), Err(Erro::InvalidArgument));
    assert_eq!(
        get_tag_by_id(&store, "0123").map(|_| ()),
        Err(Erro::InvalidArgument)
    );
}

#[test]
fn identifier_hex_round_trip() {
    let o = Oid { value: 0xdeadbeef0123456789abcdefu128 };
    let hex = o.to_hex();
    assert_eq!(hex.len(), 24);
    assert_eq!(Oid::parse_str(&hex), Ok(o));
    assert_eq!(Oid::parse_str("00000000000000000000000g"), Err(Erro::InvalidArgument));
    assert_eq!(Oid::parse_str(""), Err(Erro::InvalidArgument));
}

#[test]
fn pages_are_disjoint_and_bounded_by_total() {
    let mut store = Store::new();
    let mut ids = Vec::new();
    for nome in ["a", "b", "c", "d", "e"] {
        ids.push(tag(nome).create(&mut store).unwrap());
    }
    let (p1, total1) = Tag::list_paginated(&store, 1, 2).unwrap();
    let (p2, total2) = Tag::list_paginated(&store, 2, 2).unwrap();
    assert_eq!(total1, 5);
    assert_eq!(total2, 5);
    assert_eq!(p1.len(), 2);
    assert_eq!(p2.len(), 2);
    for a in &p1 {
        for b in &p2 {
            assert_ne!(a._id, b._id);
        }
    }
    assert!(p1.len() + p2.len() <= total1 as usize);
}

#[test]
fn pagination_beyond_the_end_is_empty() {
    let mut store = Store::new();
    tag("a").create(&mut store).unwrap();
    let (items, total) = Tag::list_paginated(&store, 99, 50).unwrap();
    assert_eq!(items.len(), 0);
    assert_eq!(total, 1);
}

#[test]
fn filter_by_attribute_finds_by_name() {
    let mut store = Store::new();
    tag("verao").create(&mut store).unwrap();
    tag("inverno").create(&mut store).unwrap();
    let f = estoque::filter::Filter::Eq(
        String::from("nome"),
        Value::Str(String::from("verao")),
    );
    let (items, total) = filter_tags(&store, &f, 1, 20).unwrap();
    assert_eq!(total, 1);
    assert_eq!(items.len(), 1);
    assert_eq!(items[0].nome, String::from("verao"));
}

#[test]
fn unreadable_document_is_a_serialization_error() {
    let mut store = Store::new();
    let junk = Value::Obj(vec![(String::from("sem_nome"), Value::Bool(true))]);
    let id = store.insert_one("tags", junk).unwrap();
    assert_eq!(
        get_tag_by_id(&store, &id.to_hex()).map(|_| ()),
        Err(Erro::Serialization)
    );
}

#[test]
fn unique_index_rejects_duplicate_tag_names() {
    let mut store = Store::new();
    Tag::ensure_indexes(&mut store).unwrap();
    assert!(create_tag(&mut store, tag("promo")).is_ok());
    assert_eq!(create_tag(&mut store, tag("promo")), Err(Erro::DuplicateKey));
    assert!(create_tag(&mut store, tag("other")).is_ok());
}

#[test]
fn ensure_indexes_is_idempotent_and_refuses_existing_duplicates() {
    let mut store = Store::new();
    Tag::ensure_indexes(&mut store).unwrap();
    Tag::ensure_indexes(&mut store).unwrap();
    let mut dirty = Store::new();
    tag("same").create(&mut dirty).unwrap();
    tag("same").create(&mut dirty).unwrap();
    assert_eq!(Tag::ensure_indexes(&mut dirty), Err(Erro::DuplicateKey));
}

#[test]
fn full_address_renders_all_parts() {
    let e = Endereco::new(
        String::from("Rua A"),
        Some(12),
        Some(String::from("casa")),
        String::from("Centro"),
        String::from("Lisboa"),
        String::from("LX"),
        String::from("1000"),
    );
    assert_eq!(
        e.full_address(),
        String::from("Rua A 12, , casa , Centro , Lisboa , LX , 1000")
    );
    let sem = Endereco::new(
        String::from("Rua B"),
        None,
        None,
        String::from("Sul"),
        String::from("Porto"),
        String::from("PT"),
        String::from("4000"),
    );
    assert_eq!(sem.full_address(), String::from("Rua B ,  , Sul , Porto , PT , 4000"));
}

#[test]
fn error_messages_are_stable() {
    assert_eq!(Erro::NotFound.message(), String::from("not found"));
    assert_eq!(Erro::DuplicateKey.message(), String::from("duplicate key"));
    assert_eq!(Erro::MissingIdentifier.message(), String::from("id is required"));
    assert_eq!(Erro::InvalidArgument.message(), String::from("invalid identifier"));
}
