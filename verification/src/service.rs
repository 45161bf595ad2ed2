//! The service operations: get, add, update-price and delete, each a single
//! atomic transition over the record store, in the fixed order existence
//! check, authorization check, business-rule check, mutation.
use vstd::prelude::*;
use vstd::string::StrSliceExecFns;
use vstd::string::StringExecFns;

use crate::codec::{encoded_len, MAX_RECORD_BYTES};
use crate::store::{do_insert, remove_record, Store, _get_product};
use crate::text::{append_decimal, dec_str};
use crate::types::{Error, PayloadModel, Product, ProductModel, ProductPayload};
use crate::validation::{payload_valid, validate_product_payload, violation_msgs};

verus! {

/// The record a successful add writes: the payload's fields, the issued id,
/// the caller as seller, the clock as creation time, and no update yet.
pub open spec fn new_product_model(
    pl: PayloadModel,
    id: u64,
    seller: Seq<char>,
    now: u64,
) -> ProductModel {
    ProductModel {
        id,
        product_name: pl.product_name,
        description: pl.description,
        seller,
        price: pl.price,
        created_at: now,
        updated_at: None,
        category: pl.category,
    }
}

/// The record a successful price update writes: the old record with the new
/// price and the clock as its update time.
pub open spec fn updated_price_model(m: ProductModel, price: u64, now: u64) -> ProductModel {
    ProductModel { price, updated_at: Some(now), ..m }
}

pub open spec fn not_found_msg(id: u64) -> Seq<char> {
    "Product with product ID "@ + dec_str(id) + " not found"@
}

pub open spec fn update_not_found_msg(id: u64) -> Seq<char> {
    "couldn't update a product with product_id="@ + dec_str(id) + ". Product not found"@
}

pub open spec fn delete_not_found_msg(id: u64) -> Seq<char> {
    "couldn't delete a Product with product_id="@ + dec_str(id) + ". product not found."@
}

pub open spec fn new_price_violation() -> Seq<char> {
    "New price must be greater than zero."@
}

pub open spec fn record_too_large_msg() -> Seq<char> {
    "Product record does not fit in 1024 serialized bytes."@
}

fn build_not_found_msg(id: u64) -> (m: String)
    ensures
        m@ == not_found_msg(id),
{
    let mut m = "Product with product ID ".to_owned();
    append_decimal(&mut m, id);
    m.append(" not found");
    m
}

fn build_update_not_found_msg(id: u64) -> (m: String)
    ensures
        m@ == update_not_found_msg(id),
{
    let mut m = "couldn't update a product with product_id=".to_owned();
    append_decimal(&mut m, id);
    m.append(". Product not found");
    m
}

fn build_delete_not_found_msg(id: u64) -> (m: String)
    ensures
        m@ == delete_not_found_msg(id),
{
    let mut m = "couldn't delete a Product with product_id=".to_owned();
    append_decimal(&mut m, id);
    m.append(". product not found.");
    m
}

fn too_large_errors() -> (v: Vec<String>)
    ensures
        v.deep_view() == seq![record_too_large_msg()],
{
    let mut v: Vec<String> = Vec::new();
    v.push("Product record does not fit in 1024 serialized bytes.".to_owned());
    proof {
        assert(v.deep_view() =~= seq![record_too_large_msg()]);
    }
    v
}

/// Whether the record stays within the serialization ceiling. The id and
/// the timestamps' values never change the size.
fn record_len_ok(p: &Product) -> (b: bool)
    ensures
        b == (encoded_len(p@) <= MAX_RECORD_BYTES as int),
{
    let nl = p.product_name.as_str().unicode_len();
    let dl = p.description.as_str().unicode_len();
    let sl = p.seller.as_str().unicode_len();
    if nl > MAX_RECORD_BYTES || dl > MAX_RECORD_BYTES || sl > MAX_RECORD_BYTES {
        return false;
    }
    let updated_part: usize = match p.updated_at {
        None => 1,
        Some(_) => 9,
    };
    let category_part: usize = match &p.category {
        None => 1,
        Some(c) => {
            let cl = c.as_str().unicode_len();
            if cl > MAX_RECORD_BYTES {
                return false;
            }
            9 + 4 * cl
        },
    };
    let total: usize = 24 + updated_part + 8 + 4 * nl + 8 + 4 * dl + 8 + 4 * sl + category_part;
    total <= MAX_RECORD_BYTES
}

/// Succeeds exactly when the caller is the record's seller; reveals nothing
/// else about the record.
pub fn is_caller_product_seller(product: &Product, caller: &String) -> (r: Result<(), Error>)
    ensures
        r is Ok <==> product@.seller == caller@,
        product@.seller != caller@ ==> r matches Err(Error::NotSeller),
{
    if product.seller == *caller {
        Ok(())
    } else {
        Err(Error::NotSeller)
    }
}

/// Point read: the record under the id, or a not-found error naming the id.
pub fn get_product(store: &Store, product_id: u64) -> (r: Result<Product, Error>)
    requires
        store.wf(),
    ensures
        store.products().dom().contains(product_id) ==> (r matches Ok(p) && p@ == store.products()[product_id]),
        !store.products().dom().contains(product_id) ==> (r matches Err(Error::NotFound { msg })
            && msg@ == not_found_msg(product_id)),
{
    match _get_product(store, &product_id) {
        Some(product) => Ok(product),
        None => Err(Error::NotFound { msg: build_not_found_msg(product_id) }),
    }
}

/// Creates a record from a valid payload: validation runs strictly before
/// id allocation, so a rejected payload burns no id and touches nothing.
pub fn add_product(store: &mut Store, payload: ProductPayload, caller: &String, now: u64) -> (r:
    Result<Product, Error>)
    requires
        old(store).wf(),
        old(store).counter_value() < u64::MAX,
        caller@.len() > 0,
    ensures
        final(store).wf(),
        !payload_valid(payload@) ==> (r matches Err(Error::InvalidPayload { errors })
            && errors.deep_view() == violation_msgs(payload@) && final(store).products() == old(store).products() && final(store).counter_value() == old(store).counter_value()),
        payload_valid(payload@) && encoded_len(
            new_product_model(payload@, (old(store).counter_value() + 1) as u64, caller@, now),
        ) > MAX_RECORD_BYTES as int ==> (r matches Err(Error::InvalidPayload { errors })
            && errors.deep_view() == seq![record_too_large_msg()] && final(store).products()
            == old(store).products() && final(store).counter_value() == old(store).counter_value()),
        payload_valid(payload@) && encoded_len(
            new_product_model(payload@, (old(store).counter_value() + 1) as u64, caller@, now),
        ) <= MAX_RECORD_BYTES as int ==> (r matches Ok(p) && p@ == new_product_model(
            payload@,
            (old(store).counter_value() + 1) as u64,
            caller@,
            now,
        ) && final(store).counter_value() == old(store).counter_value() + 1 && final(store).products() == old(store).products().insert(p@.id, p@)),
{
    match validate_product_payload(&payload) {
        Err(e) => {
            return Err(e);
        },
        Ok(()) => {},
    }
    let mut product = Product {
        id: 0,
        product_name: payload.product_name,
        description: payload.description,
        seller: caller.clone(),
        price: payload.price,
        created_at: now,
        updated_at: None,
        category: payload.category,
    };
    if !record_len_ok(&product) {
        return Err(Error::InvalidPayload { errors: too_large_errors() });
    }
    let id = store.next_id();
    product.id = id;
    do_insert(store, &product);
    Ok(product)
}

/// Updates a record's price for its seller: existence, then authorization,
/// then the positive-price rule, then the single mutation.
pub fn update_product_price(
    store: &mut Store,
    product_id: u64,
    price: u64,
    caller: &String,
    now: u64,
) -> (r: Result<Product, Error>)
    requires
        old(store).wf(),
    ensures
        final(store).wf(),
        final(store).counter_value() == old(store).counter_value(),
        !old(store).products().dom().contains(product_id) ==> (r matches Err(Error::NotFound {
            msg,
        }) && msg@ == update_not_found_msg(product_id) && final(store).products() == old(store).products()),
        old(store).products().dom().contains(product_id) && old(store).products()[product_id].seller
            != caller@ ==> (r matches Err(Error::NotSeller) && final(store).products() == old(store).products()),
        old(store).products().dom().contains(product_id) && old(store).products()[product_id].seller
            == caller@ && price == 0 ==> (r matches Err(Error::InvalidPayload { errors })
            && errors.deep_view() == seq![new_price_violation()] && final(store).products() == old(store).products()),
        old(store).products().dom().contains(product_id) && old(store).products()[product_id].seller
            == caller@ && price > 0 && encoded_len(
            updated_price_model(old(store).products()[product_id], price, now),
        ) <= MAX_RECORD_BYTES as int ==> (r matches Ok(p) && p@ == updated_price_model(
            old(store).products()[product_id],
            price,
            now,
        ) && final(store).products() == old(store).products().insert(product_id, p@)),
        old(store).products().dom().contains(product_id) && old(store).products()[product_id].seller
            == caller@ && price > 0 && encoded_len(
            updated_price_model(old(store).products()[product_id], price, now),
        ) > MAX_RECORD_BYTES as int ==> (r matches Err(Error::InvalidPayload { errors })
            && errors.deep_view() == seq![record_too_large_msg()] && final(store).products() == old(store).products()),
{
    match _get_product(store, &product_id) {
        Some(product) => {
            proof {
                store.lemma_record_ok(product_id);
            }
            match is_caller_product_seller(&product, caller) {
                Err(e) => {
                    return Err(e);
                },
                Ok(()) => {},
            }
            if price == 0 {
                let mut errors: Vec<String> = Vec::new();
                errors.push("New price must be greater than zero.".to_owned());
                proof {
                    assert(errors.deep_view() =~= seq![new_price_violation()]);
                }
                return Err(Error::InvalidPayload { errors });
            }
            let mut updated = product;
            updated.price = price;
            updated.updated_at = Some(now);
            if !record_len_ok(&updated) {
                return Err(Error::InvalidPayload { errors: too_large_errors() });
            }
            do_insert(store, &updated);
            Ok(updated)
        },
        None => Err(Error::NotFound { msg: build_update_not_found_msg(product_id) }),
    }
}

/// Deletes a record for its seller and returns it; afterwards the id reads
/// as not found, permanently.
pub fn delete_product(store: &mut Store, product_id: u64, caller: &String) -> (r: Result<
    Product,
    Error,
>)
    requires
        old(store).wf(),
    ensures
        final(store).wf(),
        final(store).counter_value() == old(store).counter_value(),
        !old(store).products().dom().contains(product_id) ==> (r matches Err(Error::NotFound {
            msg,
        }) && msg@ == not_found_msg(product_id) && final(store).products() == old(store).products()),
        old(store).products().dom().contains(product_id) && old(store).products()[product_id].seller
            != caller@ ==> (r matches Err(Error::NotSeller) && final(store).products() == old(store).products()),
        old(store).products().dom().contains(product_id) && old(store).products()[product_id].seller
            == caller@ ==> (r matches Ok(p) && p@ == old(store).products()[product_id] && final(store).products() == old(store).products().remove(product_id)),
{
    let product = match get_product(store, product_id) {
        Ok(p) => p,
        Err(e) => {
            return Err(e);
        },
    };
    match is_caller_product_seller(&product, caller) {
        Err(e) => {
            return Err(e);
        },
        Ok(()) => {},
    }
    match remove_record(store, product_id) {
        Some(removed) => Ok(removed),
        None => Err(Error::NotFound { msg: build_delete_not_found_msg(product_id) }),
    }
}

} // verus!
