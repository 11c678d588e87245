//! Job and task identifiers: a UUID held as its 128-bit value.
use vstd::prelude::*;
use vstd::set_lib::lemma_len_subset;
use vstd::arithmetic::power::pow;
use std::collections::HashMap;

verus! {

broadcast use vstd::std_specs::hash::group_hash_axioms;

/// The identifier that a piece of text spells, if it spells one.
pub uninterp spec fn parsed_id(s: Seq<char>) -> Option<u128>;

/// The lower-case hexadecimal digit of `n`, for `n` below 16.
pub open spec fn hex_digit(n: int) -> char {
    if n < 10 {
        (48 + n) as char
    } else {
        (87 + n) as char
    }
}

/// Digit `k` of an identifier's 32 hexadecimal digits, most significant
/// first.
pub open spec fn nibble(id: u128, k: int) -> int {
    (id as int / pow(16, (31 - k) as nat)) % 16
}

/// The digit that position `i` of the canonical text shows, past the
/// hyphens before it.
pub open spec fn digit_at(i: int) -> int {
    if i < 8 {
        i
    } else if i < 13 {
        i - 1
    } else if i < 18 {
        i - 2
    } else if i < 23 {
        i - 3
    } else {
        i - 4
    }
}

/// The canonical text of an identifier: its 32 lower-case hexadecimal
/// digits in groups of 8, 4, 4, 4 and 12, joined by hyphens.
pub open spec fn id_text(id: u128) -> Seq<char> {
    Seq::new(
        36,
        |i: int|
            if i == 8 || i == 13 || i == 18 || i == 23 {
                '-'
            } else {
                hex_digit(nibble(id, digit_at(i)))
            },
    )
}

/// Relies on `uuid::Uuid::new_v4`: a random identifier. Nothing is promised
/// of its value.
#[verifier::external_body]
pub(crate) fn fresh_id() -> (r: u128) {
    uuid::Uuid::new_v4().as_u128()
}

/// Relies on `uuid::Uuid::parse_str`: the identifier that `s` spells, or
/// `None` where `s` is no UUID.
#[verifier::external_body]
pub(crate) fn parse_id(s: &str) -> (r: Option<u128>)
    ensures
        r == parsed_id(s@),
{
    uuid::Uuid::parse_str(s).ok().map(|u| u.as_u128())
}

/// Relies on `uuid::Uuid`'s `Display`: the lower-case hyphenated form of the
/// identifier's 16 big-endian bytes, which `uuid::Uuid::parse_str` reads back
/// to the same identifier.
#[verifier::external_body]
pub(crate) fn format_id(id: u128) -> (r: String)
    ensures
        r@ == id_text(id),
        parsed_id(r@) == Some(id),
{
    uuid::Uuid::from_u128(id).to_string()
}

/// A key that `m` does not hold and that differs from `avoid`: a random
/// one, or where that one is taken, the least free number.
pub(crate) fn fresh_key<V>(m: &HashMap<u128, V>, avoid: Option<u128>) -> (r: u128)
    ensures
        !m@.contains_key(r),
        avoid != Some(r),
{
    let seed = fresh_id();
    if !m.contains_key(&seed) && avoid != Some(seed) {
        return seed;
    }
    let n = m.len();
    let bound: u128 = n as u128 + 2;
    let ghost taken = match avoid {
        Some(a) => m@.dom().insert(a),
        None => m@.dom(),
    };
    let ghost mut tried: Set<u128> = Set::empty();
    let mut k: u128 = 0;
    while k < bound
        invariant
            k <= bound,
            bound == n + 2,
            n == m@.len(),
            m@.dom().finite(),
            taken.finite(),
            taken.len() <= n + 1,
            forall|x: u128| #[trigger] taken.contains(x) <==> m@.contains_key(x) || avoid == Some(x),
            tried.finite(),
            tried.len() == k,
            forall|x: u128| #[trigger] tried.contains(x) <==> x < k,
            tried.subset_of(taken),
        decreases bound - k,
    {
        if !m.contains_key(&k) && avoid != Some(k) {
            return k;
        }
        proof {
            assert(!tried.contains(k));
            tried = tried.insert(k);
        }
        k = k + 1;
    }
    proof {
        lemma_len_subset(tried, taken);
    }
    k
}

} // verus!
