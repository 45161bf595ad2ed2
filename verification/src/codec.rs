//! The serialized form of a product record: a fixed little-endian,
//! length-prefixed layout, with the decoder proved to invert the encoder.
//!
//! Layout: id, price and created_at as 8 bytes each; updated_at as a tag
//! byte followed by 8 bytes when present; each text as an 8-byte character
//! count followed by 4 bytes per character; category as a tag byte followed
//! by a text when present.
use vstd::prelude::*;
use vstd::string::StrSliceExecFns;

use crate::types::{Product, ProductModel};

verus! {

/// The ceiling on the serialized size of one record.
pub const MAX_RECORD_BYTES: usize = 1024;

pub open spec fn u64_le(x: u64) -> Seq<u8> {
    seq![
        (x & 0xff) as u8,
        ((x >> 8) & 0xff) as u8,
        ((x >> 16) & 0xff) as u8,
        ((x >> 24) & 0xff) as u8,
        ((x >> 32) & 0xff) as u8,
        ((x >> 40) & 0xff) as u8,
        ((x >> 48) & 0xff) as u8,
        ((x >> 56) & 0xff) as u8,
    ]
}

pub open spec fn recompose_u64(b: Seq<u8>) -> u64 {
    (b[0] as u64) | ((b[1] as u64) << 8) | ((b[2] as u64) << 16) | ((b[3] as u64) << 24)
        | ((b[4] as u64) << 32) | ((b[5] as u64) << 40) | ((b[6] as u64) << 48)
        | ((b[7] as u64) << 56)
}

pub open spec fn u32_le(x: u32) -> Seq<u8> {
    seq![(x & 0xff) as u8, ((x >> 8) & 0xff) as u8, ((x >> 16) & 0xff) as u8, ((x >> 24) & 0xff) as u8]
}

pub open spec fn recompose_u32(b: Seq<u8>) -> u32 {
    (b[0] as u32) | ((b[1] as u32) << 8) | ((b[2] as u32) << 16) | ((b[3] as u32) << 24)
}

/// One character, as the 4 bytes of its code point.
pub open spec fn char_bytes(c: char) -> Seq<u8> {
    u32_le(c as u32)
}

/// The characters of a text, 4 bytes each.
pub open spec fn chars_bytes(s: Seq<char>) -> Seq<u8>
    decreases s.len(),
{
    if s.len() == 0 {
        Seq::empty()
    } else {
        chars_bytes(s.drop_last()) + char_bytes(s.last())
    }
}

/// A text: its character count, then its characters.
pub open spec fn str_bytes(s: Seq<char>) -> Seq<u8> {
    u64_le(s.len() as u64) + chars_bytes(s)
}

pub open spec fn opt_u64_bytes(o: Option<u64>) -> Seq<u8> {
    match o {
        None => seq![0u8],
        Some(x) => seq![1u8] + u64_le(x),
    }
}

pub open spec fn opt_str_bytes(o: Option<Seq<char>>) -> Seq<u8> {
    match o {
        None => seq![0u8],
        Some(s) => seq![1u8] + str_bytes(s),
    }
}

/// The serialized form of a whole record.
pub open spec fn product_bytes(m: ProductModel) -> Seq<u8> {
    u64_le(m.id) + u64_le(m.price) + u64_le(m.created_at) + opt_u64_bytes(m.updated_at)
        + str_bytes(m.product_name) + str_bytes(m.description) + str_bytes(m.seller)
        + opt_str_bytes(m.category)
}

/// The serialized size of a record, as a closed formula. The id never
/// changes the size, and neither does the price or a timestamp's value.
pub open spec fn encoded_len(m: ProductModel) -> int {
    24 + (match m.updated_at {
        None => 1int,
        Some(_) => 9int,
    }) + 8 + 4 * m.product_name.len() + 8 + 4 * m.description.len() + 8 + 4 * m.seller.len() + (
    match m.category {
        None => 1int,
        Some(c) => 9 + 4 * (c.len() as int),
    })
}

pub proof fn lemma_chars_bytes_len(s: Seq<char>)
    ensures
        chars_bytes(s).len() == 4 * s.len(),
    decreases s.len(),
{
    if s.len() > 0 {
        lemma_chars_bytes_len(s.drop_last());
    }
}

pub proof fn lemma_str_bytes_len(s: Seq<char>)
    ensures
        str_bytes(s).len() == 8 + 4 * s.len(),
{
    lemma_chars_bytes_len(s);
}

pub proof fn lemma_product_bytes_len(m: ProductModel)
    ensures
        product_bytes(m).len() == encoded_len(m),
{
    lemma_str_bytes_len(m.product_name);
    lemma_str_bytes_len(m.description);
    lemma_str_bytes_len(m.seller);
    match m.category {
        None => {},
        Some(c) => {
            lemma_str_bytes_len(c);
        },
    }
}

proof fn lemma_u64_le_recompose(x: u64)
    ensures
        recompose_u64(u64_le(x)) == x,
{
    assert((((x & 0xff) as u8) as u64) | ((((x >> 8) & 0xff) as u8) as u64) << 8 | ((((x >> 16)
        & 0xff) as u8) as u64) << 16 | ((((x >> 24) & 0xff) as u8) as u64) << 24 | ((((x >> 32)
        & 0xff) as u8) as u64) << 32 | ((((x >> 40) & 0xff) as u8) as u64) << 40 | ((((x >> 48)
        & 0xff) as u8) as u64) << 48 | ((((x >> 56) & 0xff) as u8) as u64) << 56 == x)
        by (bit_vector);
}

proof fn lemma_u32_le_recompose(x: u32)
    ensures
        recompose_u32(u32_le(x)) == x,
{
    assert((((x & 0xff) as u8) as u32) | ((((x >> 8) & 0xff) as u8) as u32) << 8 | ((((x >> 16)
        & 0xff) as u8) as u32) << 16 | ((((x >> 24) & 0xff) as u8) as u32) << 24 == x)
        by (bit_vector);
}

/// Each character's bytes sit at a fixed offset inside the text's bytes.
proof fn lemma_chars_bytes_index(s: Seq<char>, j: int)
    requires
        0 <= j < s.len(),
    ensures
        chars_bytes(s).len() == 4 * s.len(),
        chars_bytes(s).subrange(4 * j, 4 * j + 4) == char_bytes(s[j]),
    decreases s.len(),
{
    lemma_chars_bytes_len(s);
    lemma_chars_bytes_len(s.drop_last());
    if j == s.len() - 1 {
        assert(chars_bytes(s).subrange(4 * j, 4 * j + 4) =~= char_bytes(s.last()));
    } else {
        lemma_chars_bytes_index(s.drop_last(), j);
        assert(chars_bytes(s).subrange(4 * j, 4 * j + 4) =~= chars_bytes(s.drop_last()).subrange(
            4 * j,
            4 * j + 4,
        ));
    }
}

fn push_u64_le(out: &mut Vec<u8>, x: u64)
    ensures
        final(out)@ == old(out)@ + u64_le(x),
{
    proof {
        assert(x & 0xff < 256 && (x >> 8) & 0xff < 256 && (x >> 16) & 0xff < 256 && (x >> 24)
            & 0xff < 256 && (x >> 32) & 0xff < 256 && (x >> 40) & 0xff < 256 && (x >> 48) & 0xff
            < 256 && (x >> 56) & 0xff < 256) by (bit_vector);
    }
    out.push((x & 0xff) as u8);
    out.push(((x >> 8) & 0xff) as u8);
    out.push(((x >> 16) & 0xff) as u8);
    out.push(((x >> 24) & 0xff) as u8);
    out.push(((x >> 32) & 0xff) as u8);
    out.push(((x >> 40) & 0xff) as u8);
    out.push(((x >> 48) & 0xff) as u8);
    out.push(((x >> 56) & 0xff) as u8);
    assert(final(out)@ =~= old(out)@ + u64_le(x));
}

fn push_u32_le(out: &mut Vec<u8>, x: u32)
    ensures
        final(out)@ == old(out)@ + u32_le(x),
{
    proof {
        assert(x & 0xff < 256 && (x >> 8) & 0xff < 256 && (x >> 16) & 0xff < 256 && (x >> 24)
            & 0xff < 256) by (bit_vector);
    }
    out.push((x & 0xff) as u8);
    out.push(((x >> 8) & 0xff) as u8);
    out.push(((x >> 16) & 0xff) as u8);
    out.push(((x >> 24) & 0xff) as u8);
    assert(final(out)@ =~= old(out)@ + u32_le(x));
}

fn push_str_bytes(out: &mut Vec<u8>, s: &str)
    ensures
        final(out)@ == old(out)@ + str_bytes(s@),
{
    let n = s.unicode_len();
    push_u64_le(out, n as u64);
    let mut i: usize = 0;
    while i < n
        invariant
            n == s@.len(),
            0 <= i <= n,
            out@ == old(out)@ + u64_le(n as u64) + chars_bytes(s@.take(i as int)),
        decreases n - i,
    {
        let c = s.get_char(i);
        push_u32_le(out, c as u32);
        proof {
            assert(s@.take(i + 1 as int).drop_last() =~= s@.take(i as int));
            assert(s@.take(i + 1 as int).last() == s@[i as int]);
            assert(out@ =~= old(out)@ + u64_le(n as u64) + chars_bytes(s@.take(i + 1 as int)));
        }
        i = i + 1;
    }
    proof {
        assert(s@.take(n as int) =~= s@);
        assert(out@ =~= old(out)@ + str_bytes(s@));
    }
}

/// Serializes a record into its fixed layout.
pub fn encode_product(p: &Product) -> (out: Vec<u8>)
    ensures
        out@ == product_bytes(p@),
{
    let mut out: Vec<u8> = Vec::new();
    push_u64_le(&mut out, p.id);
    push_u64_le(&mut out, p.price);
    push_u64_le(&mut out, p.created_at);
    match p.updated_at {
        None => {
            out.push(0u8);
            assert(out@ =~= u64_le(p.id) + u64_le(p.price) + u64_le(p.created_at) + opt_u64_bytes(
                p.updated_at,
            ));
        },
        Some(t) => {
            out.push(1u8);
            push_u64_le(&mut out, t);
            assert(out@ =~= u64_le(p.id) + u64_le(p.price) + u64_le(p.created_at) + opt_u64_bytes(
                p.updated_at,
            ));
        },
    }
    push_str_bytes(&mut out, self_str(&p.product_name));
    push_str_bytes(&mut out, self_str(&p.description));
    push_str_bytes(&mut out, self_str(&p.seller));
    match &p.category {
        None => {
            out.push(0u8);
        },
        Some(c) => {
            out.push(1u8);
            push_str_bytes(&mut out, self_str(c));
        },
    }
    assert(out@ =~= product_bytes(p@));
    out
}

/// A `String` read as a text slice.
fn self_str(s: &String) -> (r: &str)
    ensures
        r@ == s@,
{
    s.as_str()
}

/// Relies on `char::from_u32`: `Some` exactly on valid Unicode scalar
/// values, and the identity on them.
#[verifier::external_body]
fn char_from_u32(u: u32) -> (r: Option<char>)
    ensures
        r matches Some(c) ==> c as u32 == u,
        (u < 0xD800 || (0xE000 <= u && u <= 0x10FFFF)) ==> r is Some,
{
    char::from_u32(u)
}

/// Relies on `String::push`: appends the given character.
#[verifier::external_body]
fn push_char(s: &mut String, c: char)
    ensures
        final(s)@ == old(s)@.push(c),
{
    s.push(c);
}

fn read_u64_le(bytes: &Vec<u8>, off: usize) -> (r: u64)
    requires
        off + 8 <= bytes@.len(),
    ensures
        r == recompose_u64(bytes@.subrange(off as int, off as int + 8)),
{
    let bl = bytes.len();
    let r: u64 = (bytes[off] as u64) | ((bytes[off + 1] as u64) << 8) | ((bytes[off + 2] as u64)
        << 16) | ((bytes[off + 3] as u64) << 24) | ((bytes[off + 4] as u64) << 32) | ((bytes[off
        + 5] as u64) << 40) | ((bytes[off + 6] as u64) << 48) | ((bytes[off + 7] as u64) << 56);
    r
}

fn read_u32_le(bytes: &Vec<u8>, off: usize) -> (r: u32)
    requires
        off + 4 <= bytes@.len(),
    ensures
        r == recompose_u32(bytes@.subrange(off as int, off as int + 4)),
{
    let bl = bytes.len();
    let r: u32 = (bytes[off] as u32) | ((bytes[off + 1] as u32) << 8) | ((bytes[off + 2] as u32)
        << 16) | ((bytes[off + 3] as u32) << 24);
    r
}

fn vec_u8_eq(a: &Vec<u8>, b: &Vec<u8>) -> (r: bool)
    ensures
        r == (a@ == b@),
{
    if a.len() != b.len() {
        return false;
    }
    let n = a.len();
    let mut i: usize = 0;
    while i < n
        invariant
            0 <= i <= n,
            n == a@.len(),
            n == b@.len(),
            forall|j: int| 0 <= j < i ==> a@[j] == b@[j],
        decreases n - i,
    {
        if a[i] != b[i] {
            return false;
        }
        i = i + 1;
    }
    proof {
        assert(a@ =~= b@);
    }
    true
}

/// Whether the bytes at `off` start with the serialization of the text `s`.
spec fn str_prefix_at(bytes: Seq<u8>, off: int, s: Seq<char>) -> bool {
    &&& 0 <= off
    &&& off + 8 + 4 * s.len() <= bytes.len()
    &&& bytes.subrange(off, off + 8 + 4 * s.len()) == str_bytes(s)
}

/// At one offset, at most one text's serialization can start: the length
/// prefix fixes the character count and the 4-byte groups fix each one.
proof fn lemma_str_prefix_unique(bytes: Seq<u8>, off: int, s1: Seq<char>, s2: Seq<char>)
    requires
        bytes.len() <= u64::MAX as int,
        str_prefix_at(bytes, off, s1),
        str_prefix_at(bytes, off, s2),
    ensures
        s1 == s2,
{
    lemma_chars_bytes_len(s1);
    lemma_chars_bytes_len(s2);
    assert(bytes.subrange(off, off + 8) =~= str_bytes(s1).subrange(0, 8));
    assert(str_bytes(s1).subrange(0, 8) =~= u64_le(s1.len() as u64));
    assert(bytes.subrange(off, off + 8) =~= str_bytes(s2).subrange(0, 8));
    assert(str_bytes(s2).subrange(0, 8) =~= u64_le(s2.len() as u64));
    lemma_u64_le_recompose(s1.len() as u64);
    lemma_u64_le_recompose(s2.len() as u64);
    assert(s1.len() == s2.len());
    assert forall|t: int| 0 <= t < 4 * s1.len() implies bytes[off + 8 + t] == chars_bytes(
        s1,
    )[t] by {
        assert(bytes.subrange(off, off + 8 + 4 * s1.len())[8 + t] == str_bytes(s1)[8 + t]);
    }
    assert forall|t: int| 0 <= t < 4 * s2.len() implies bytes[off + 8 + t] == chars_bytes(
        s2,
    )[t] by {
        assert(bytes.subrange(off, off + 8 + 4 * s2.len())[8 + t] == str_bytes(s2)[8 + t]);
    }
    assert(bytes.subrange(off + 8, off + 8 + 4 * s1.len()) =~= chars_bytes(s1));
    assert(bytes.subrange(off + 8, off + 8 + 4 * s1.len()) =~= chars_bytes(s2));
    assert forall|j: int| 0 <= j < s1.len() implies s1[j] == s2[j] by {
        lemma_chars_bytes_index(s1, j);
        lemma_chars_bytes_index(s2, j);
        assert(u32_le(s1[j] as u32) == u32_le(s2[j] as u32));
        lemma_u32_le_recompose(s1[j] as u32);
        lemma_u32_le_recompose(s2[j] as u32);
        vstd::utf8::char_is_scalar(s1[j]);
        vstd::utf8::char_u32_cast(s1[j], s1[j] as u32);
        vstd::utf8::char_u32_cast(s2[j], s1[j] as u32);
    }
    assert(s1 =~= s2);
}

/// Reads one length-prefixed text. A text serialized at `off` is always
/// read back exactly; on anything else the read may fail, and the caller
/// certifies whatever it accepts by re-encoding it.
#[verifier::rlimit(100)]
fn parse_str(bytes: &Vec<u8>, off: usize) -> (r: Option<(String, usize)>)
    requires
        off <= bytes@.len(),
    ensures
        r matches Some(p) ==> off + 8 <= p.1 <= bytes@.len(),
        forall|s: Seq<char>| #[trigger] str_prefix_at(bytes@, off as int, s) ==> r is Some,
        forall|s: Seq<char>|
            #[trigger] str_prefix_at(bytes@, off as int, s) ==> r->Some_0.0@ == s
                && r->Some_0.1 == off + 8 + 4 * s.len(),
{
    let bl = bytes.len();
    let ghost ok = exists|s: Seq<char>| str_prefix_at(bytes@, off as int, s);
    let ghost sw = choose|s: Seq<char>| str_prefix_at(bytes@, off as int, s);
    if bl - off < 8 {
        proof {
            if ok {
                assert(false);
            }
        }
        return None;
    }
    proof {
        if ok {
            lemma_chars_bytes_len(sw);
            assert(bytes@.subrange(off as int, off as int + 8) =~= str_bytes(sw).subrange(0, 8));
            assert(str_bytes(sw).subrange(0, 8) =~= u64_le(sw.len() as u64));
            lemma_u64_le_recompose(sw.len() as u64);
        }
    }
    let n64 = read_u64_le(bytes, off);
    proof {
        if ok {
            assert(n64 == sw.len());
        }
    }
    if n64 > bl as u64 {
        proof {
            if ok {
                assert(false);
            }
        }
        return None;
    }
    let n = n64 as usize;
    if n > (bl - off - 8) / 4 {
        proof {
            if ok {
                assert(4 * sw.len() <= bl - off - 8);
                assert(sw.len() <= ((bl - off - 8) as int) / 4) by (nonlinear_arith)
                    requires
                        4 * sw.len() <= bl - off - 8,
                ;
                assert(false);
            }
        }
        return None;
    }
    proof {
        assert(4 * (n as int) <= (bl - off - 8) as int) by (nonlinear_arith)
            requires
                n as int <= ((bl - off - 8) as int) / 4,
        ;
    }
    proof {
        if ok {
            assert forall|t: int| 0 <= t < 4 * sw.len() implies bytes@[off + 8 + t] == chars_bytes(
                sw,
            )[t] by {
                assert(bytes@.subrange(off as int, off as int + 8 + 4 * sw.len())[8 + t]
                    == str_bytes(sw)[8 + t]);
            }
            assert(bytes@.subrange(off as int + 8, off as int + 8 + 4 * sw.len()) =~= chars_bytes(
                sw,
            ));
        }
    }
    let mut out = String::new();
    let mut j: usize = 0;
    while j < n
        invariant
            0 <= j <= n,
            off + 8 + 4 * n <= bl,
            bl == bytes@.len(),
            ok == exists|s: Seq<char>| str_prefix_at(bytes@, off as int, s),
            ok ==> str_prefix_at(bytes@, off as int, sw),
            ok ==> n == sw.len(),
            ok ==> out@ == sw.take(j as int),
            ok ==> bytes@.subrange(off as int + 8, off as int + 8 + 4 * sw.len()) == chars_bytes(
                sw,
            ),
        decreases n - j,
    {
        proof {
            if ok {
                lemma_chars_bytes_index(sw, j as int);
                vstd::utf8::char_is_scalar(sw[j as int]);
                assert(bytes@.subrange(off + 8 + 4 * (j as int), off + 8 + 4 * (j as int) + 4)
                    =~= chars_bytes(sw).subrange(4 * (j as int), 4 * (j as int) + 4));
                assert(bytes@.subrange(off + 8 + 4 * (j as int), off + 8 + 4 * (j as int) + 4)
                    == u32_le(sw[j as int] as u32));
                lemma_u32_le_recompose(sw[j as int] as u32);
            }
        }
        let u = read_u32_le(bytes, off + 8 + 4 * j);
        match char_from_u32(u) {
            None => {
                proof {
                    if ok {
                        assert(false);
                    }
                }
                return None;
            },
            Some(c) => {
                push_char(&mut out, c);
                proof {
                    if ok {
                        vstd::utf8::char_u32_cast(c, u);
                        vstd::utf8::char_u32_cast(sw[j as int], u);
                        assert(out@ =~= sw.take(j + 1 as int));
                    }
                }
            },
        }
        j = j + 1;
    }
    proof {
        if ok {
            assert(sw.take(n as int) =~= sw);
        }
        assert forall|s: Seq<char>| str_prefix_at(bytes@, off as int, s) implies out@ == s && off
            + 8 + 4 * s.len() == off + 8 + 4 * n by {
            lemma_str_prefix_unique(bytes@, off as int, s, sw);
        }
    }
    Some((out, off + 8 + 4 * n))
}

/// Where each piece of a record's serialization ends.
spec fn upd_end(m: ProductModel) -> int {
    24 + opt_u64_bytes(m.updated_at).len() as int
}

spec fn name_end(m: ProductModel) -> int {
    upd_end(m) + 8 + 4 * m.product_name.len()
}

spec fn desc_end(m: ProductModel) -> int {
    name_end(m) + 8 + 4 * m.description.len()
}

spec fn seller_end(m: ProductModel) -> int {
    desc_end(m) + 8 + 4 * m.seller.len()
}

/// How a record's serialization is laid out: where every piece sits and
/// what each holds.
#[verifier::rlimit(100)]
proof fn lemma_product_bytes_shape(bytes: Seq<u8>, m: ProductModel)
    requires
        bytes == product_bytes(m),
    ensures
        bytes.len() == encoded_len(m),
        50 <= bytes.len(),
        bytes.subrange(0, 8) == u64_le(m.id),
        bytes.subrange(8, 16) == u64_le(m.price),
        bytes.subrange(16, 24) == u64_le(m.created_at),
        m.updated_at is None ==> bytes[24] == 0 && upd_end(m) == 25,
        m.updated_at is Some ==> bytes[24] == 1 && upd_end(m) == 33 && bytes.subrange(25, 33)
            == u64_le(m.updated_at->Some_0),
        str_prefix_at(bytes, upd_end(m), m.product_name),
        str_prefix_at(bytes, name_end(m), m.description),
        str_prefix_at(bytes, desc_end(m), m.seller),
        m.category is None ==> bytes[seller_end(m)] == 0 && seller_end(m) + 1 == bytes.len(),
        m.category is Some ==> bytes[seller_end(m)] == 1 && str_prefix_at(
            bytes,
            seller_end(m) + 1,
            m.category->Some_0,
        ) && seller_end(m) + 9 + 4 * m.category->Some_0.len() == bytes.len(),
{
    lemma_product_bytes_len(m);
    lemma_str_bytes_len(m.product_name);
    lemma_str_bytes_len(m.description);
    lemma_str_bytes_len(m.seller);
    if m.category is Some {
        lemma_str_bytes_len(m.category->Some_0);
    }
    assert(bytes.subrange(0, 8) =~= u64_le(m.id));
    assert(bytes.subrange(8, 16) =~= u64_le(m.price));
    assert(bytes.subrange(16, 24) =~= u64_le(m.created_at));
    assert(bytes[24] == opt_u64_bytes(m.updated_at)[0]);
    if m.updated_at is Some {
        assert(bytes.subrange(25, 33) =~= u64_le(m.updated_at->Some_0));
    }
    assert(bytes.subrange(upd_end(m), upd_end(m) + 8 + 4 * m.product_name.len()) =~= str_bytes(
        m.product_name,
    ));
    assert(bytes.subrange(name_end(m), name_end(m) + 8 + 4 * m.description.len()) =~= str_bytes(
        m.description,
    ));
    assert(bytes.subrange(desc_end(m), desc_end(m) + 8 + 4 * m.seller.len()) =~= str_bytes(
        m.seller,
    ));
    assert(bytes[seller_end(m)] == opt_str_bytes(m.category)[0]);
    if m.category is Some {
        assert(bytes.subrange(
            seller_end(m) + 1,
            seller_end(m) + 1 + 8 + 4 * m.category->Some_0.len(),
        ) =~= str_bytes(m.category->Some_0));
    }
}

/// Reads the fixed layout. The serialization of a record is always read
/// back as exactly that record; anything else may be rejected here and is
/// in any case certified or rejected by the caller's re-encoding.
#[verifier::rlimit(100)]
fn parse_product(bytes: &Vec<u8>) -> (r: Option<Product>)
    ensures
        forall|m: ProductModel| bytes@ == #[trigger] product_bytes(m) ==> r is Some,
        forall|m: ProductModel| bytes@ == #[trigger] product_bytes(m) ==> r->Some_0@ == m,
{
    let bl = bytes.len();
    let ghost okp = exists|m: ProductModel| bytes@ == product_bytes(m);
    let ghost mw = choose|m: ProductModel| bytes@ == product_bytes(m);
    proof {
        if okp {
            lemma_product_bytes_shape(bytes@, mw);
        }
    }
    if bl < 50 {
        proof {
            if okp {
                assert(false);
            }
        }
        return None;
    }
    let id = read_u64_le(bytes, 0);
    let price = read_u64_le(bytes, 8);
    let created_at = read_u64_le(bytes, 16);
    let tag_u: u8 = bytes[24];
    if tag_u > 1 {
        proof {
            if okp {
                assert(false);
            }
        }
        return None;
    }
    let (updated_at, off0): (Option<u64>, usize) = if tag_u == 1 {
        (Some(read_u64_le(bytes, 25)), 33)
    } else {
        (None, 25)
    };
    let (product_name, off1) = match parse_str(bytes, off0) {
        None => {
            proof {
                if okp {
                    assert(off0 as int == upd_end(mw));
                    assert(false);
                }
            }
            return None;
        },
        Some(x) => x,
    };
    let (description, off2) = match parse_str(bytes, off1) {
        None => {
            proof {
                if okp {
                    assert(off1 as int == name_end(mw));
                    assert(false);
                }
            }
            return None;
        },
        Some(x) => x,
    };
    let (seller, off3) = match parse_str(bytes, off2) {
        None => {
            proof {
                if okp {
                    assert(off2 as int == desc_end(mw));
                    assert(false);
                }
            }
            return None;
        },
        Some(x) => x,
    };
    proof {
        if okp {
            assert(off3 as int == seller_end(mw));
        }
    }
    if off3 >= bl {
        proof {
            if okp {
                assert(false);
            }
        }
        return None;
    }
    let tag_c: u8 = bytes[off3];
    if tag_c > 1 {
        proof {
            if okp {
                assert(false);
            }
        }
        return None;
    }
    let (category, off4): (Option<String>, usize) = if tag_c == 1 {
        match parse_str(bytes, off3 + 1) {
            None => {
                proof {
                    if okp {
                        assert(false);
                    }
                }
                return None;
            },
            Some(x) => (Some(x.0), x.1),
        }
    } else {
        (None, off3 + 1)
    };
    if off4 != bl {
        proof {
            if okp {
                assert(false);
            }
        }
        return None;
    }
    let p = Product { id, product_name, description, seller, price, created_at, updated_at, category };
    proof {
        assert forall|m: ProductModel| bytes@ == #[trigger] product_bytes(m) implies p@ == m by {
            lemma_product_bytes_shape(bytes@, m);
            lemma_u64_le_recompose(m.id);
            lemma_u64_le_recompose(m.price);
            lemma_u64_le_recompose(m.created_at);
            assert(p@.id == m.id && p@.price == m.price && p@.created_at == m.created_at);
            if m.updated_at is Some {
                lemma_u64_le_recompose(m.updated_at->Some_0);
                assert(tag_u == 1);
                assert(p@.updated_at == m.updated_at);
            } else {
                assert(tag_u == 0);
                assert(p@.updated_at == m.updated_at);
            }
            assert(off0 as int == upd_end(m));
            assert(p@.product_name == m.product_name && off1 as int == name_end(m));
            assert(p@.description == m.description && off2 as int == desc_end(m));
            assert(p@.seller == m.seller && off3 as int == seller_end(m));
            if m.category is Some {
                assert(tag_c == 1);
                assert(p@.category == m.category);
            } else {
                assert(tag_c == 0);
                assert(p@.category == m.category);
            }
            assert(p@ =~= m);
        }
    }
    Some(p)
}

/// Decodes a record from its serialization: `Some` exactly when the bytes
/// serialize a record, and then the record they serialize. A parse is
/// followed by a re-encode that must reproduce the input byte for byte, so
/// a `Some` answer certifies the bytes against the fixed layout, while the
/// parser's own contract guarantees that no serialization is ever turned
/// away.
pub fn try_decode_product(bytes: &Vec<u8>) -> (r: Option<Product>)
    ensures
        r matches Some(p) ==> bytes@ == product_bytes(p@),
        forall|m: ProductModel| bytes@ == #[trigger] product_bytes(m) ==> r is Some,
        forall|m: ProductModel| bytes@ == #[trigger] product_bytes(m) ==> r->Some_0@ == m,
{
    let candidate = match parse_product(bytes) {
        None => {
            return None;
        },
        Some(p) => p,
    };
    let reencoded = encode_product(&candidate);
    if vec_u8_eq(&reencoded, bytes) {
        Some(candidate)
    } else {
        None
    }
}

} // verus!
