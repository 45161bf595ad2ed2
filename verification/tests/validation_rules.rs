use product_registry::service::is_caller_product_seller;
use product_registry::store::{do_insert, validate_entries, Store, _get_product};
use product_registry::types::{Error, Product, ProductPayload};
use product_registry::validation::validate_product_payload;
use product_registry::codec::{encode_product, try_decode_product};

fn payload(name: &str, description: &str, price: u64, category: Option<&str>) -> ProductPayload {
    ProductPayload {
        product_name: String::from(name),
        description: String::from(description),
        price,
        category: category.map(String::from),
    }
}

#[test]
fn valid_payload_passes() {
    assert!(validate_product_payload(&payload("Chair", "Wooden chair", 10, None)).is_ok());
    assert!(validate_product_payload(&payload("Chair", "Wooden chair", 10, Some("furniture"))).is_ok());
}

#[test]
fn blank_name_is_reported() {
    match validate_product_payload(&payload("   ", "Wooden chair", 10, None)) {
        Err(Error::InvalidPayload { errors }) => {
            assert_eq!(errors, vec![String::from("Product name='   ' cannot be empty.")]);
        },
        _ => panic!("expected an invalid-payload error"),
    }
}

#[test]
fn one_word_description_is_reported() {
    match validate_product_payload(&payload("Chair", "chair", 10, None)) {
        Err(Error::InvalidPayload { errors }) => {
            assert_eq!(errors, vec![String::from("Description='chair' needs to be descriptive.")]);
        },
        _ => panic!("expected an invalid-payload error"),
    }
}

#[test]
fn any_whitespace_separates_words() {
    // Tokens are whitespace-separated: a tab or a non-breaking space
    // between words counts as much as a plain space.
    assert!(validate_product_payload(&payload("Chair", "a\tb", 10, None)).is_ok());
    assert!(validate_product_payload(&payload("Chair", "a\u{a0}b", 10, None)).is_ok());
    assert!(validate_product_payload(&payload("Chair", " a b ", 10, None)).is_ok());
    assert!(validate_product_payload(&payload("Chair", "  a  ", 10, None)).is_err());
}

#[test]
fn blank_category_is_reported_absent_category_is_not() {
    match validate_product_payload(&payload("Chair", "Wooden chair", 10, Some(" "))) {
        Err(Error::InvalidPayload { errors }) => {
            assert_eq!(
                errors,
                vec![String::from(
                    "If a category is provided, category=' ' cannot be an empty string."
                )]
            );
        },
        _ => panic!("expected an invalid-payload error"),
    }
    assert!(validate_product_payload(&payload("Chair", "Wooden chair", 10, None)).is_ok());
}

#[test]
fn zero_price_is_reported() {
    match validate_product_payload(&payload("Chair", "Wooden chair", 0, None)) {
        Err(Error::InvalidPayload { errors }) => {
            assert_eq!(errors, vec![String::from("Price must be greater than zero.")]);
        },
        _ => panic!("expected an invalid-payload error"),
    }
}

#[test]
fn three_violations_give_three_messages_in_rule_order() {
    match validate_product_payload(&payload("", "word", 0, None)) {
        Err(Error::InvalidPayload { errors }) => {
            assert_eq!(errors.len(), 3);
            assert_eq!(errors[0], "Product name='' cannot be empty.");
            assert_eq!(errors[1], "Description='word' needs to be descriptive.");
            assert_eq!(errors[2], "Price must be greater than zero.");
        },
        _ => panic!("expected an invalid-payload error"),
    }
}

#[test]
fn four_violations_give_four_messages() {
    match validate_product_payload(&payload(" ", "", 0, Some("\t"))) {
        Err(Error::InvalidPayload { errors }) => {
            assert_eq!(errors.len(), 4);
        },
        _ => panic!("expected an invalid-payload error"),
    }
}

#[test]
fn seller_check_compares_exact_identity() {
    let product = Product {
        id: 1,
        product_name: String::from("Chair"),
        description: String::from("Wooden chair"),
        seller: String::from("alice"),
        price: 10,
        created_at: 1,
        updated_at: None,
        category: None,
    };
    assert!(is_caller_product_seller(&product, &String::from("alice")).is_ok());
    match is_caller_product_seller(&product, &String::from("Alice")) {
        Err(Error::NotSeller) => {},
        _ => panic!("expected a not-seller error"),
    }
}

#[test]
fn store_insert_and_lookup_round_trip() {
    let mut store = Store::new();
    // issue ids up to 5 so the record's id is one the counter handed out
    for _ in 0..5 {
        store.next_id();
    }
    let product = Product {
        id: 5,
        product_name: String::from("Desk"),
        description: String::from("Oak desk"),
        seller: String::from("carol"),
        price: 99,
        created_at: 4,
        updated_at: Some(6),
        category: Some(String::from("office")),
    };
    do_insert(&mut store, &product);
    let found = _get_product(&store, &5).expect("the inserted record must be found");
    assert_eq!(found.id, 5);
    assert_eq!(found.product_name, "Desk");
    assert_eq!(found.description, "Oak desk");
    assert_eq!(found.seller, "carol");
    assert_eq!(found.price, 99);
    assert_eq!(found.created_at, 4);
    assert_eq!(found.updated_at, Some(6));
    assert_eq!(found.category, Some(String::from("office")));
    assert!(_get_product(&store, &6).is_none());
}

#[test]
fn decoding_certifies_bytes_by_reencoding() {
    let product = Product {
        id: 3,
        product_name: String::from("Lamp"),
        description: String::from("Desk lamp"),
        seller: String::from("dave"),
        price: 7,
        created_at: 11,
        updated_at: None,
        category: None,
    };
    let bytes = encode_product(&product);
    let back = try_decode_product(&bytes).expect("an encoded record must decode");
    assert_eq!(back.id, 3);
    assert_eq!(back.product_name, "Lamp");
    assert_eq!(back.seller, "dave");
    assert!(try_decode_product(&vec![1, 2, 3]).is_none());
    let mut tampered = encode_product(&product);
    tampered.push(0);
    assert!(try_decode_product(&tampered).is_none());
}

#[test]
fn boot_validation_accepts_only_issued_well_formed_records() {
    let record = Product {
        id: 1,
        product_name: String::from("Chair"),
        description: String::from("Wooden chair"),
        seller: String::from("A"),
        price: 10,
        created_at: 1,
        updated_at: None,
        category: None,
    };
    let bytes = encode_product(&record);
    // a well-formed record under its own key, within the issued id range
    assert!(validate_entries(1, &vec![(1, bytes.clone())]).is_some());
    // an id the counter never issued
    assert!(validate_entries(0, &vec![(1, bytes.clone())]).is_none());
    // a record filed under a foreign key
    assert!(validate_entries(5, &vec![(2, bytes.clone())]).is_none());
    // bytes that serialize no record
    assert!(validate_entries(5, &vec![(1, vec![7, 7, 7])]).is_none());
    // a persisted record with a zero price
    let mut depriced = record;
    depriced.price = 0;
    assert!(validate_entries(1, &vec![(1, encode_product(&depriced))]).is_none());
}

#[test]
fn boot_validation_wants_keys_in_ascending_order() {
    let first = Product {
        id: 1,
        product_name: String::from("Chair"),
        description: String::from("Wooden chair"),
        seller: String::from("A"),
        price: 10,
        created_at: 1,
        updated_at: None,
        category: None,
    };
    let mut second = first.clone();
    second.id = 2;
    let b1 = encode_product(&first);
    let b2 = encode_product(&second);
    assert!(validate_entries(2, &vec![(1, b1.clone()), (2, b2.clone())]).is_some());
    assert!(validate_entries(2, &vec![(2, b2), (1, b1)]).is_none());
}
