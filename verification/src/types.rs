//! The record type, the creation payload, and the service error type.
use vstd::prelude::*;

verus! {

/// The persisted product record.
pub struct Product {
    pub id: u64,
    pub product_name: String,
    pub description: String,
    pub seller: String,
    pub price: u64,
    pub created_at: u64,
    pub updated_at: Option<u64>,
    pub category: Option<String>,
}

/// The mathematical value of a product record.
#[verifier::ext_equal]
pub ghost struct ProductModel {
    pub id: u64,
    pub product_name: Seq<char>,
    pub description: Seq<char>,
    pub seller: Seq<char>,
    pub price: u64,
    pub created_at: u64,
    pub updated_at: Option<u64>,
    pub category: Option<Seq<char>>,
}

impl View for Product {
    type V = ProductModel;

    open spec fn view(&self) -> ProductModel {
        ProductModel {
            id: self.id,
            product_name: self.product_name@,
            description: self.description@,
            seller: self.seller@,
            price: self.price,
            created_at: self.created_at,
            updated_at: self.updated_at,
            category: match self.category {
                Some(c) => Some(c@),
                None => None,
            },
        }
    }
}

impl Clone for Product {
    fn clone(&self) -> (r: Self)
        ensures
            r@ == self@,
    {
        Product {
            id: self.id,
            product_name: self.product_name.clone(),
            description: self.description.clone(),
            seller: self.seller.clone(),
            price: self.price,
            created_at: self.created_at,
            updated_at: self.updated_at,
            category: match &self.category {
                Some(c) => Some(c.clone()),
                None => None,
            },
        }
    }
}

/// What a caller hands in to create a product.
pub struct ProductPayload {
    pub product_name: String,
    pub description: String,
    pub price: u64,
    pub category: Option<String>,
}

/// The mathematical value of a creation payload.
#[verifier::ext_equal]
pub ghost struct PayloadModel {
    pub product_name: Seq<char>,
    pub description: Seq<char>,
    pub price: u64,
    pub category: Option<Seq<char>>,
}

impl View for ProductPayload {
    type V = PayloadModel;

    open spec fn view(&self) -> PayloadModel {
        PayloadModel {
            product_name: self.product_name@,
            description: self.description@,
            price: self.price,
            category: match self.category {
                Some(c) => Some(c@),
                None => None,
            },
        }
    }
}

/// The typed failures the service returns; business failures are never
/// surfaced as aborts.
#[derive(Debug)]
pub enum Error {
    NotFound { msg: String },
    InvalidPayload { errors: Vec<String> },
    NotSeller,
}

} // verus!
