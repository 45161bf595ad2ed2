//! Field-level validation of a creation payload: every rule is checked
//! independently, and all violations are reported together, in order.
use vstd::prelude::*;
use vstd::string::StrSliceExecFns;
use vstd::string::StringExecFns;

use crate::text::{blank, is_space, spec_is_space};
use crate::types::{Error, PayloadModel, ProductPayload};

verus! {

/// Whether a non-space character is followed, somewhere later, by a
/// whitespace character that still has a non-space after it: exactly when
/// the trimmed text splits on whitespace into at least two tokens.
pub open spec fn descriptive(s: Seq<char>) -> bool {
    exists|a: int, b: int, c: int|
        0 <= a < b && b < c && c < s.len() && !spec_is_space(s[a]) && spec_is_space(s[b])
            && !spec_is_space(s[c])
}

spec fn has_nonspace_upto(s: Seq<char>, i: int) -> bool {
    exists|a: int| 0 <= a < i && !spec_is_space(s[a])
}

spec fn has_pair_upto(s: Seq<char>, i: int) -> bool {
    exists|a: int, b: int| 0 <= a < b && b < i && !spec_is_space(s[a]) && spec_is_space(s[b])
}

spec fn has_triple_upto(s: Seq<char>, i: int) -> bool {
    exists|a: int, b: int, c: int|
        0 <= a < b && b < c && c < i && !spec_is_space(s[a]) && spec_is_space(s[b])
            && !spec_is_space(s[c])
}

proof fn lemma_scan_step(s: Seq<char>, i: int)
    requires
        0 <= i < s.len(),
    ensures
        has_nonspace_upto(s, i + 1) == (has_nonspace_upto(s, i) || !spec_is_space(s[i])),
        has_pair_upto(s, i + 1) == (has_pair_upto(s, i) || (has_nonspace_upto(s, i)
            && spec_is_space(s[i]))),
        has_triple_upto(s, i + 1) == (has_triple_upto(s, i) || (has_pair_upto(s, i)
            && !spec_is_space(s[i]))),
{
    if has_nonspace_upto(s, i) {
        let a = choose|a: int| 0 <= a < i && !spec_is_space(s[a]);
        assert(0 <= a < i + 1 && !spec_is_space(s[a]));
    }
    if !spec_is_space(s[i]) {
        assert(0 <= i < i + 1 && !spec_is_space(s[i]));
    }
    if has_nonspace_upto(s, i + 1) && !(has_nonspace_upto(s, i) || !spec_is_space(s[i])) {
        let a = choose|a: int| 0 <= a < i + 1 && !spec_is_space(s[a]);
        assert(0 <= a < i && !spec_is_space(s[a]));
    }
    if has_pair_upto(s, i) {
        let (a, b) = choose|a: int, b: int|
            0 <= a < b && b < i && !spec_is_space(s[a]) && spec_is_space(s[b]);
        assert(0 <= a < b && b < i + 1 && !spec_is_space(s[a]) && spec_is_space(s[b]));
    }
    if has_nonspace_upto(s, i) && spec_is_space(s[i]) {
        let a = choose|a: int| 0 <= a < i && !spec_is_space(s[a]);
        assert(0 <= a < i && i < i + 1 && !spec_is_space(s[a]) && spec_is_space(s[i]));
    }
    if has_pair_upto(s, i + 1) && !(has_pair_upto(s, i) || (has_nonspace_upto(s, i)
        && spec_is_space(s[i]))) {
        let (a, b) = choose|a: int, b: int|
            0 <= a < b && b < i + 1 && !spec_is_space(s[a]) && spec_is_space(s[b]);
        if b < i {
            assert(has_pair_upto(s, i));
        } else {
            assert(0 <= a < i && !spec_is_space(s[a]));
        }
    }
    if has_triple_upto(s, i) {
        let (a, b, c) = choose|a: int, b: int, c: int|
            0 <= a < b && b < c && c < i && !spec_is_space(s[a]) && spec_is_space(s[b])
                && !spec_is_space(s[c]);
        assert(0 <= a < b && b < c && c < i + 1 && !spec_is_space(s[a]) && spec_is_space(s[b])
            && !spec_is_space(s[c]));
    }
    if has_pair_upto(s, i) && !spec_is_space(s[i]) {
        let (a, b) = choose|a: int, b: int|
            0 <= a < b && b < i && !spec_is_space(s[a]) && spec_is_space(s[b]);
        assert(0 <= a < b && b < i && i < i + 1 && !spec_is_space(s[a]) && spec_is_space(s[b])
            && !spec_is_space(s[i]));
    }
    if has_triple_upto(s, i + 1) && !(has_triple_upto(s, i) || (has_pair_upto(s, i)
        && !spec_is_space(s[i]))) {
        let (a, b, c) = choose|a: int, b: int, c: int|
            0 <= a < b && b < c && c < i + 1 && !spec_is_space(s[a]) && spec_is_space(s[b])
                && !spec_is_space(s[c]);
        if c < i {
            assert(has_triple_upto(s, i));
        } else {
            assert(0 <= a < b && b < i && !spec_is_space(s[a]) && spec_is_space(s[b]));
        }
    }
}

/// Whether the text trims to nothing, so that it fails the non-blank rules.
pub fn is_invalid_string_input(str_input: &str) -> (r: bool)
    ensures
        r == blank(str_input@),
{
    let n = str_input.unicode_len();
    let mut i: usize = 0;
    while i < n
        invariant
            0 <= i <= n,
            n == str_input@.len(),
            forall|j: int| 0 <= j < i ==> spec_is_space(str_input@[j]),
        decreases n - i,
    {
        if !is_space(str_input.get_char(i)) {
            return false;
        }
        i = i + 1;
    }
    true
}

/// Scans once for a whitespace character with non-space text on both sides.
pub fn is_descriptive_str(s: &str) -> (r: bool)
    ensures
        r == descriptive(s@),
{
    let n = s.unicode_len();
    let mut has_ns = false;
    let mut has_pair = false;
    let mut has_triple = false;
    let mut i: usize = 0;
    while i < n
        invariant
            0 <= i <= n,
            n == s@.len(),
            has_ns == has_nonspace_upto(s@, i as int),
            has_pair == has_pair_upto(s@, i as int),
            has_triple == has_triple_upto(s@, i as int),
        decreases n - i,
    {
        let c = s.get_char(i);
        let ws = is_space(c);
        proof {
            lemma_scan_step(s@, i as int);
        }
        has_triple = has_triple || (has_pair && !ws);
        has_pair = has_pair || (has_ns && ws);
        has_ns = has_ns || !ws;
        i = i + 1;
    }
    has_triple
}

pub open spec fn name_ok(pl: PayloadModel) -> bool {
    !blank(pl.product_name)
}

pub open spec fn desc_ok(pl: PayloadModel) -> bool {
    descriptive(pl.description)
}

pub open spec fn category_ok(pl: PayloadModel) -> bool {
    match pl.category {
        None => true,
        Some(c) => !blank(c),
    }
}

pub open spec fn price_ok(pl: PayloadModel) -> bool {
    pl.price > 0
}

/// A payload that every field-level rule accepts.
pub open spec fn payload_valid(pl: PayloadModel) -> bool {
    name_ok(pl) && desc_ok(pl) && category_ok(pl) && price_ok(pl)
}

pub open spec fn name_violation(name: Seq<char>) -> Seq<char> {
    "Product name='"@ + name + "' cannot be empty."@
}

pub open spec fn description_violation(description: Seq<char>) -> Seq<char> {
    "Description='"@ + description + "' needs to be descriptive."@
}

pub open spec fn category_violation(category: Seq<char>) -> Seq<char> {
    "If a category is provided, category='"@ + category + "' cannot be an empty string."@
}

pub open spec fn price_violation() -> Seq<char> {
    "Price must be greater than zero."@
}

/// Every message the payload earns, in rule order.
pub open spec fn violation_msgs(pl: PayloadModel) -> Seq<Seq<char>> {
    (if !name_ok(pl) {
        seq![name_violation(pl.product_name)]
    } else {
        Seq::empty()
    }) + (if !desc_ok(pl) {
        seq![description_violation(pl.description)]
    } else {
        Seq::empty()
    }) + (if !category_ok(pl) {
        seq![category_violation(pl.category->Some_0)]
    } else {
        Seq::empty()
    }) + (if !price_ok(pl) {
        seq![price_violation()]
    } else {
        Seq::empty()
    })
}

fn build_name_violation(name: &str) -> (m: String)
    ensures
        m@ == name_violation(name@),
{
    let mut m = "Product name='".to_owned();
    m.append(name);
    m.append("' cannot be empty.");
    m
}

fn build_description_violation(description: &str) -> (m: String)
    ensures
        m@ == description_violation(description@),
{
    let mut m = "Description='".to_owned();
    m.append(description);
    m.append("' needs to be descriptive.");
    m
}

fn build_category_violation(category: &str) -> (m: String)
    ensures
        m@ == category_violation(category@),
{
    let mut m = "If a category is provided, category='".to_owned();
    m.append(category);
    m.append("' cannot be an empty string.");
    m
}

/// Checks the payload against every rule and returns either `Ok` or the
/// whole ordered list of violation messages.
pub fn validate_product_payload(payload: &ProductPayload) -> (r: Result<(), Error>)
    ensures
        r is Ok <==> payload_valid(payload@),
        !payload_valid(payload@) ==> (r matches Err(Error::InvalidPayload { errors })
            && errors.deep_view() == violation_msgs(payload@)),
{
    let mut errors: Vec<String> = Vec::new();
    if is_invalid_string_input(payload.product_name.as_str()) {
        errors.push(build_name_violation(payload.product_name.as_str()));
    }
    if !is_descriptive_str(payload.description.as_str()) {
        errors.push(build_description_violation(payload.description.as_str()));
    }
    match &payload.category {
        Some(c) => {
            if is_invalid_string_input(c.as_str()) {
                errors.push(build_category_violation(c.as_str()));
            }
        },
        None => {},
    }
    if payload.price == 0 {
        errors.push("Price must be greater than zero.".to_owned());
    }
    proof {
        assert(errors.deep_view() =~= violation_msgs(payload@));
    }
    if errors.is_empty() {
        Ok(())
    } else {
        Err(Error::InvalidPayload { errors })
    }
}

} // verus!
