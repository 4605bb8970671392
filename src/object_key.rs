//! Object-store keys: one per submission, named after a ULID.

use vstd::arithmetic::div_mod::lemma_mod_breakdown;
use vstd::prelude::*;

verus! {

/// The digit `d < 32` of Crockford's base 32.
pub open spec fn crockford_digit(d: int) -> char {
    seq![
        '0', '1', '2', '3', '4', '5', '6', '7', '8', '9', 'A', 'B', 'C', 'D', 'E', 'F',
        'G', 'H', 'J', 'K', 'M', 'N', 'P', 'Q', 'R', 'S', 'T', 'V', 'W', 'X', 'Y', 'Z',
    ][d]
}

/// The last `len` base-32 digits of `n`, most significant first.
pub open spec fn base32_text(n: nat, len: nat) -> Seq<char>
    decreases len,
{
    if len == 0 {
        Seq::empty()
    } else {
        base32_text(n / 32, (len - 1) as nat).push(crockford_digit((n % 32) as int))
    }
}

/// The canonical text of a ULID: its 128 bits as 26 base-32 digits.
pub open spec fn ulid_text(id: u128) -> Seq<char> {
    base32_text(id as nat, 26)
}

/// The key under which the submission named `id` is stored.
pub open spec fn object_key_text(id: u128) -> Seq<char> {
    seq!['/'] + ulid_text(id) + ".json"@
}

/// Relies on ulid::Ulid::to_string: the 26 Crockford base-32 digits of the
/// id's 128 bits, most significant first (ulid's base32::encode).
#[verifier::external_body]
fn ulid_string(id: u128) -> (r: String)
    ensures
        r@ == ulid_text(id),
{
    ulid::Ulid(id).to_string()
}

/// Relies on ulid::Ulid::new: a fresh identifier drawn from the clock and a
/// random source. Nothing is known of its value.
#[verifier::external_body]
pub(crate) fn new_ulid() -> (r: u128) {
    ulid::Ulid::new().0
}

/// The key under which the submission named `id` is stored: `/<id>.json`.
pub fn object_key(id: u128) -> (r: String)
    ensures
        r@ == object_key_text(id),
{
    let mut key = String::new();
    key.push('/');
    let text = ulid_string(id);
    key.append(text.as_str());
    key.append(".json");
    key
}

spec fn pow32(len: nat) -> nat
    decreases len,
{
    if len == 0 {
        1
    } else {
        32 * pow32((len - 1) as nat)
    }
}

proof fn lemma_base32_len(n: nat, len: nat)
    ensures
        base32_text(n, len).len() == len,
    decreases len,
{
    if len > 0 {
        lemma_base32_len(n / 32, (len - 1) as nat);
    }
}

proof fn lemma_digit_injective(a: int, b: int)
    requires
        0 <= a < 32,
        0 <= b < 32,
        crockford_digit(a) == crockford_digit(b),
    ensures
        a == b,
{
}

proof fn lemma_base32_injective(n: nat, m: nat, len: nat)
    requires
        base32_text(n, len) == base32_text(m, len),
    ensures
        pow32(len) > 0,
        n % pow32(len) == m % pow32(len),
    decreases len,
{
    if len > 0 {
        let l = (len - 1) as nat;
        let tn = base32_text(n, len);
        let tm = base32_text(m, len);
        assert(tn.last() == tm.last());
        lemma_digit_injective((n % 32) as int, (m % 32) as int);
        assert(tn.drop_last() =~= base32_text(n / 32, l));
        assert(tm.drop_last() =~= base32_text(m / 32, l));
        lemma_base32_injective(n / 32, m / 32, l);
        lemma_mod_breakdown(n as int, 32, pow32(l) as int);
        lemma_mod_breakdown(m as int, 32, pow32(l) as int);
    }
}

/// Two different ids never share a key, so no submission overwrites
/// another.
pub proof fn lemma_keys_distinct(a: u128, b: u128)
    requires
        a != b,
    ensures
        object_key_text(a) != object_key_text(b),
{
    if object_key_text(a) == object_key_text(b) {
        lemma_base32_len(a as nat, 26);
        lemma_base32_len(b as nat, 26);
        assert(ulid_text(a) =~= object_key_text(a).subrange(1, 27));
        assert(ulid_text(b) =~= object_key_text(b).subrange(1, 27));
        lemma_base32_injective(a as nat, b as nat, 26);
        reveal_with_fuel(pow32, 27);
        assert(pow32(26) > u128::MAX);
        vstd::arithmetic::div_mod::lemma_small_mod(a as nat, pow32(26));
        vstd::arithmetic::div_mod::lemma_small_mod(b as nat, pow32(26));
    }
}

} // verus!
