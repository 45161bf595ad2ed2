//! The registry's cross-operation guarantees, stated and proved over the
//! same mathematical models that the operations' contracts use.
use vstd::prelude::*;

use crate::service::new_product_model;
use crate::store::Store;
use crate::types::{PayloadModel, ProductModel};
use crate::validation::{category_ok, desc_ok, name_ok, price_ok, violation_msgs};

verus! {

/// What a read of `products` under `id` returns: the record, or nothing.
pub open spec fn spec_get(products: Map<u64, ProductModel>, id: u64) -> Option<ProductModel> {
    if products.dom().contains(id) {
        Some(products[id])
    } else {
        None
    }
}

/// Ids are strictly increasing with no gaps across successful adds: each
/// successful add returns the incremented counter and persists it, so the
/// next success returns exactly one more. A rejected payload leaves the
/// counter alone — `add_product`'s error cases each state
/// `counter_value` unchanged — so failures never burn an id.
pub proof fn lemma_ids_strictly_increase(c0: u64, c1: u64, id1: u64, id2: u64)
    requires
        id1 == c0 + 1,
        c1 == c0 + 1,
        id2 == c1 + 1,
    ensures
        id2 == id1 + 1,
        id1 < id2,
{
}

/// Round trip: after a successful add issued `id` to the caller's payload,
/// the stored record under `id` carries the payload's fields plus the
/// assigned id, seller and timestamps — so a following get returns them.
pub proof fn lemma_add_get_round_trip(
    pre: Map<u64, ProductModel>,
    post: Map<u64, ProductModel>,
    pl: PayloadModel,
    caller: Seq<char>,
    now: u64,
    id: u64,
    p: ProductModel,
)
    requires
        p == new_product_model(pl, id, caller, now),
        post == pre.insert(id, p),
    ensures
        spec_get(post, id) == Some(p),
        p.product_name == pl.product_name,
        p.description == pl.description,
        p.price == pl.price,
        p.category == pl.category,
        p.id == id,
        p.seller == caller,
        p.created_at == now,
        p.updated_at is None,
{
}

/// Idempotent read: a get has no side effect — it takes the store by
/// shared reference — and its result is a function of the store's
/// contents alone, so repeated gets return identical results.
pub proof fn lemma_get_idempotent(
    products: Map<u64, ProductModel>,
    id: u64,
    r1: Option<ProductModel>,
    r2: Option<ProductModel>,
)
    requires
        r1 == spec_get(products, id),
        r2 == spec_get(products, id),
    ensures
        r1 == r2,
{
}

/// Authorization isolation: when a mutation is denied — the operations'
/// contracts give `NotSeller` and an unchanged record map whenever the
/// caller is not the stored seller — the record is untouched down to its
/// serialized bytes.
pub proof fn lemma_auth_isolation(pre: Store, post: Store, product_id: u64, caller: Seq<char>)
    requires
        pre.wf(),
        post.wf(),
        pre.products().dom().contains(product_id),
        pre.products()[product_id].seller != caller,
        post.products() == pre.products(),
    ensures
        post.products()[product_id] == pre.products()[product_id],
        post.record_bytes(product_id) == pre.record_bytes(product_id),
{
    pre.lemma_same_products_same_bytes(post, product_id);
}

/// Validation completeness: the reported list holds one message for each
/// violated rule — all violations together, not just the first.
pub proof fn lemma_validation_counts(pl: PayloadModel)
    ensures
        violation_msgs(pl).len() == (if name_ok(pl) { 0int } else { 1int }) + (if desc_ok(pl) { 0int } else { 1int })
            + (if category_ok(pl) { 0int } else { 1int }) + (if price_ok(pl) { 0int } else { 1int }),
{
}

/// A successful add never overwrites a live record: the id it issues is
/// the incremented counter, and a well-formed store keys every record by
/// an id the counter already covered, so the new id is above them all.
pub proof fn lemma_add_never_overwrites(s: Store)
    requires
        s.wf(),
        s.counter_value() < u64::MAX,
    ensures
        !s.products().dom().contains((s.counter_value() + 1) as u64),
{
    if s.products().dom().contains((s.counter_value() + 1) as u64) {
        s.lemma_record_ok((s.counter_value() + 1) as u64);
    }
}

/// Deletion finality: a successful delete removes the id from the record
/// map, so any following get returns nothing and a second delete of the
/// same id meets the not-found case.
pub proof fn lemma_deletion_final(
    pre: Map<u64, ProductModel>,
    post: Map<u64, ProductModel>,
    id: u64,
)
    requires
        post == pre.remove(id),
    ensures
        !post.dom().contains(id),
        spec_get(post, id) is None,
{
}

} // verus!

