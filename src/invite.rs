//! Invite codes and address normalisation used by account binding.
use vstd::prelude::*;
use rand::rngs::StdRng;
use rand::{Rng, SeedableRng};
use vstd::string::StringExecFns;
use crate::text::chars_of;

verus! {

/// rand's standard seedable generator, carried opaquely.
#[verifier::external_type_specification]
#[verifier::external_body]
pub struct ExStdRng(StdRng);

/// Length of an invite code.
pub const INVITE_CODE_LEN: usize = 6;

/// A character an invite code may hold: a digit or an upper-case letter.
pub open spec fn is_code_char(c: char) -> bool {
    ('0' <= c <= '9') || ('A' <= c <= 'Z')
}

/// Six digits or upper-case letters.
pub open spec fn valid_invite_code(s: Seq<char>) -> bool {
    s.len() == INVITE_CODE_LEN && forall|i: int| 0 <= i < s.len() ==> is_code_char(#[trigger] s[i])
}

/// Whether `invite_code` is a well-formed invite code.
pub fn is_valid_invite_code(invite_code: &str) -> (r: bool)
    ensures
        r == valid_invite_code(invite_code@),
{
    let v = chars_of(invite_code);
    if v.len() != INVITE_CODE_LEN {
        return false;
    }
    let mut i: usize = 0;
    while i < v.len()
        invariant
            i <= v@.len(),
            v@ == invite_code@,
            forall|k: int| 0 <= k < i ==> is_code_char(#[trigger] v@[k]),
        decreases v@.len() - i,
    {
        let c = v[i];
        if !(('0' <= c && c <= '9') || ('A' <= c && c <= 'Z')) {
            assert(!is_code_char(v@[i as int]));
            return false;
        }
        i = i + 1;
    }
    true
}

/// Relies on `SeedableRng::from_seed` of rand's `StdRng`.
#[verifier::external_body]
fn seeded_rng(seed: [u8; 32]) -> (r: StdRng) {
    StdRng::from_seed(seed)
}

/// Relies on `Rng::gen_range` of rand: a value of the half-open range
/// `0..bound`, which must not be empty.
#[verifier::external_body]
fn draw_below(rng: &mut StdRng, bound: usize) -> (r: usize)
    requires
        bound > 0,
    ensures
        r < bound,
{
    rng.gen_range(0..bound)
}

/// The characters that invite codes are drawn from.
pub open spec fn code_charset() -> Seq<char> {
    "0123456789ABCDEFGHIJKLMNOPQRSTUVWXYZ"@
}

/// An invite code drawn from a generator seeded with `seed` (an account's
/// public key bytes): six characters, each picked uniformly from the digits
/// and the upper-case letters.
pub fn generate_invite_code(seed: [u8; 32]) -> (r: String)
    ensures
        valid_invite_code(r@),
{
    let charset = "0123456789ABCDEFGHIJKLMNOPQRSTUVWXYZ";
    proof {
        reveal_strlit("0123456789ABCDEFGHIJKLMNOPQRSTUVWXYZ");
        assert forall|i: int| 0 <= i < charset@.len() implies is_code_char(#[trigger] charset@[i]) by {}
    }
    let count = charset.unicode_len();
    let mut rng = seeded_rng(seed);
    let mut code = String::new();
    let mut n: usize = 0;
    while n < INVITE_CODE_LEN
        invariant
            n <= INVITE_CODE_LEN,
            code@.len() == n,
            charset@.len() == 36,
            count == 36,
            forall|i: int| 0 <= i < charset@.len() ==> is_code_char(#[trigger] charset@[i]),
            forall|i: int| 0 <= i < code@.len() ==> is_code_char(#[trigger] code@[i]),
        decreases INVITE_CODE_LEN - n,
    {
        let idx = draw_below(&mut rng, count);
        let ghost before = code@;
        code.append(charset.substring_char(idx, idx + 1));
        assert forall|i: int| 0 <= i < code@.len() implies is_code_char(#[trigger] code@[i]) by {
            if i < before.len() {
                assert(code@[i] == before[i]);
            } else {
                assert(code@[i] == charset@[idx as int]);
            }
        }
        n = n + 1;
    }
    code
}


/// What `str::to_lowercase` makes of a text.
pub uninterp spec fn lower_of(s: Seq<char>) -> Seq<char>;

/// Relies on `str::to_lowercase`: the result depends on the characters alone.
#[verifier::external_body]
fn lowercase(s: &str) -> (r: String)
    ensures
        r@ == lower_of(s@),
{
    s.to_lowercase()
}

/// `s` without a leading `0x`.
pub open spec fn without_hex_prefix(s: Seq<char>) -> Seq<char> {
    if s.len() >= 2 && s[0] == '0' && s[1] == 'x' {
        s.subrange(2, s.len() as int)
    } else {
        s
    }
}

/// Removes a leading `0x`, if there is one.
pub fn strip_hex_prefix(s: &str) -> (r: String)
    ensures
        r@ == without_hex_prefix(s@),
{
    let n = s.unicode_len();
    if n >= 2 && s.get_char(0) == '0' && s.get_char(1) == 'x' {
        s.substring_char(2, n).to_owned()
    } else {
        s.to_owned()
    }
}

/// The form in which an EVM address is stored: lower case, without `0x`.
pub fn normalize_evm_address(address: &str) -> (r: String)
    ensures
        r@ == without_hex_prefix(lower_of(address@)),
{
    let lower = lowercase(address);
    strip_hex_prefix(lower.as_str())
}

} // verus!
