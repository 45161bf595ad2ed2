use product_registry::service::{add_product, delete_product, get_product, update_product_price};
use product_registry::store::Store;
use product_registry::types::{Error, ProductPayload};

fn chair_payload() -> ProductPayload {
    ProductPayload {
        product_name: String::from("Chair"),
        description: String::from("Wooden chair"),
        price: 10,
        category: None,
    }
}

#[test]
fn add_product_assigns_first_id_and_fields() {
    let mut store = Store::new();
    let caller = String::from("A");
    let p = add_product(&mut store, chair_payload(), &caller, 111).unwrap();
    assert_eq!(p.id, 1);
    assert_eq!(p.product_name, "Chair");
    assert_eq!(p.description, "Wooden chair");
    assert_eq!(p.seller, "A");
    assert_eq!(p.price, 10);
    assert_eq!(p.created_at, 111);
    assert_eq!(p.updated_at, None);
    assert!(p.category.is_none());
}

#[test]
fn add_product_rejects_bad_payload_with_both_messages() {
    let mut store = Store::new();
    let caller = String::from("A");
    let payload = ProductPayload {
        product_name: String::from(""),
        description: String::from("x"),
        price: 5,
        category: None,
    };
    match add_product(&mut store, payload, &caller, 1) {
        Err(Error::InvalidPayload { errors }) => {
            assert_eq!(errors.len(), 2);
            assert_eq!(errors[0], "Product name='' cannot be empty.");
            assert_eq!(errors[1], "Description='x' needs to be descriptive.");
        },
        _ => panic!("expected an invalid-payload error"),
    }
}

#[test]
fn failed_add_burns_no_id() {
    let mut store = Store::new();
    let caller = String::from("A");
    let bad = ProductPayload {
        product_name: String::from(""),
        description: String::from("x"),
        price: 0,
        category: None,
    };
    assert!(add_product(&mut store, bad, &caller, 1).is_err());
    let p1 = add_product(&mut store, chair_payload(), &caller, 2).unwrap();
    assert_eq!(p1.id, 1);
    let p2 = add_product(&mut store, chair_payload(), &caller, 3).unwrap();
    assert_eq!(p2.id, 2);
}

#[test]
fn update_by_other_caller_is_not_authorized() {
    let mut store = Store::new();
    let seller = String::from("A");
    let intruder = String::from("B");
    let p = add_product(&mut store, chair_payload(), &seller, 100).unwrap();
    match update_product_price(&mut store, p.id, 20, &intruder, 200) {
        Err(Error::NotSeller) => {},
        _ => panic!("expected a not-seller error"),
    }
    let unchanged = get_product(&store, p.id).unwrap();
    assert_eq!(unchanged.price, 10);
    assert_eq!(unchanged.updated_at, None);
}

#[test]
fn update_by_seller_sets_price_and_update_time() {
    let mut store = Store::new();
    let seller = String::from("A");
    let p = add_product(&mut store, chair_payload(), &seller, 100).unwrap();
    let updated = update_product_price(&mut store, p.id, 20, &seller, 200).unwrap();
    assert_eq!(updated.price, 20);
    assert_eq!(updated.updated_at, Some(200));
    assert!(updated.updated_at.unwrap() >= updated.created_at);
    let read_back = get_product(&store, p.id).unwrap();
    assert_eq!(read_back.price, 20);
    assert_eq!(read_back.updated_at, Some(200));
}

#[test]
fn update_to_zero_price_is_rejected() {
    let mut store = Store::new();
    let seller = String::from("A");
    let p = add_product(&mut store, chair_payload(), &seller, 100).unwrap();
    match update_product_price(&mut store, p.id, 0, &seller, 200) {
        Err(Error::InvalidPayload { errors }) => {
            assert_eq!(errors, vec![String::from("New price must be greater than zero.")]);
        },
        _ => panic!("expected an invalid-payload error"),
    }
    assert_eq!(get_product(&store, p.id).unwrap().price, 10);
}

#[test]
fn update_of_missing_record_is_not_found() {
    let mut store = Store::new();
    let caller = String::from("A");
    match update_product_price(&mut store, 7, 20, &caller, 200) {
        Err(Error::NotFound { msg }) => {
            assert_eq!(msg, "couldn't update a product with product_id=7. Product not found");
        },
        _ => panic!("expected a not-found error"),
    }
}

#[test]
fn delete_returns_latest_record_then_reads_not_found() {
    let mut store = Store::new();
    let seller = String::from("A");
    let p = add_product(&mut store, chair_payload(), &seller, 100).unwrap();
    update_product_price(&mut store, p.id, 20, &seller, 200).unwrap();
    let removed = delete_product(&mut store, p.id, &seller).unwrap();
    assert_eq!(removed.price, 20);
    match get_product(&store, p.id) {
        Err(Error::NotFound { .. }) => {},
        _ => panic!("expected a not-found error"),
    }
    match delete_product(&mut store, p.id, &seller) {
        Err(Error::NotFound { .. }) => {},
        _ => panic!("expected a not-found error on the second delete"),
    }
}

#[test]
fn delete_by_other_caller_is_not_authorized() {
    let mut store = Store::new();
    let seller = String::from("A");
    let intruder = String::from("B");
    let p = add_product(&mut store, chair_payload(), &seller, 100).unwrap();
    match delete_product(&mut store, p.id, &intruder) {
        Err(Error::NotSeller) => {},
        _ => panic!("expected a not-seller error"),
    }
    assert!(get_product(&store, p.id).is_ok());
}

#[test]
fn get_of_never_created_id_names_it() {
    let store = Store::new();
    match get_product(&store, 999) {
        Err(Error::NotFound { msg }) => {
            assert_eq!(msg, "Product with product ID 999 not found");
            assert!(msg.contains("999"));
        },
        _ => panic!("expected a not-found error"),
    }
}

#[test]
fn repeated_get_returns_identical_record() {
    let mut store = Store::new();
    let seller = String::from("A");
    let p = add_product(&mut store, chair_payload(), &seller, 100).unwrap();
    let a = get_product(&store, p.id).unwrap();
    let b = get_product(&store, p.id).unwrap();
    assert_eq!(a.id, b.id);
    assert_eq!(a.product_name, b.product_name);
    assert_eq!(a.description, b.description);
    assert_eq!(a.seller, b.seller);
    assert_eq!(a.price, b.price);
    assert_eq!(a.created_at, b.created_at);
    assert_eq!(a.updated_at, b.updated_at);
    assert_eq!(a.category, b.category);
}

#[test]
fn unicode_record_survives_the_round_trip() {
    let mut store = Store::new();
    let seller = String::from("sèller-α");
    let payload = ProductPayload {
        product_name: String::from("Chaise longue é✓"),
        description: String::from("très confortable"),
        price: 42,
        category: Some(String::from("möbel")),
    };
    let p = add_product(&mut store, payload, &seller, 7).unwrap();
    let back = get_product(&store, p.id).unwrap();
    assert_eq!(back.product_name, "Chaise longue é✓");
    assert_eq!(back.description, "très confortable");
    assert_eq!(back.seller, "sèller-α");
    assert_eq!(back.category, Some(String::from("möbel")));
}

#[test]
fn oversize_record_is_rejected_loudly() {
    let mut store = Store::new();
    let caller = String::from("A");
    let payload = ProductPayload {
        product_name: "a".repeat(300),
        description: String::from("big enough item"),
        price: 5,
        category: None,
    };
    match add_product(&mut store, payload, &caller, 1) {
        Err(Error::InvalidPayload { errors }) => {
            assert_eq!(errors.len(), 1);
            assert_eq!(errors[0], "Product record does not fit in 1024 serialized bytes.");
        },
        _ => panic!("expected the serialization-ceiling error"),
    }
    match get_product(&store, 1) {
        Err(Error::NotFound { .. }) => {},
        _ => panic!("the rejected record must not be stored"),
    }
}

#[test]
fn counter_tracks_issued_ids() {
    let mut store = Store::new();
    let caller = String::from("A");
    assert_eq!(store.current_counter(), 0);
    add_product(&mut store, chair_payload(), &caller, 1).unwrap();
    assert_eq!(store.current_counter(), 1);
    add_product(&mut store, chair_payload(), &caller, 2).unwrap();
    assert_eq!(store.current_counter(), 2);
    delete_product(&mut store, 1, &caller).unwrap();
    // deletions never roll the counter back, so ids are never reused
    assert_eq!(store.current_counter(), 2);
}

#[test]
fn open_on_a_fresh_medium_starts_empty_at_zero() {
    // Off the hosting platform the durable medium is a fresh one, so the
    // validated open yields an empty store with the counter at zero.
    let mut store = Store::open().expect("a fresh medium must open");
    assert_eq!(store.current_counter(), 0);
    assert!(store.product_ids().is_empty());
    let caller = String::from("A");
    let p = add_product(&mut store, chair_payload(), &caller, 9).unwrap();
    assert_eq!(p.id, 1);
}

#[test]
fn product_ids_lists_live_records_in_order() {
    let mut store = Store::new();
    let caller = String::from("A");
    add_product(&mut store, chair_payload(), &caller, 1).unwrap();
    add_product(&mut store, chair_payload(), &caller, 2).unwrap();
    add_product(&mut store, chair_payload(), &caller, 3).unwrap();
    assert_eq!(store.product_ids(), vec![1, 2, 3]);
    delete_product(&mut store, 2, &caller).unwrap();
    assert_eq!(store.product_ids(), vec![1, 3]);
}
