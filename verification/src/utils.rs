//! Small helpers.

use rand::Rng;
use vstd::prelude::*;

verus! {

/// Whether `c` is an ASCII letter or digit.
pub open spec fn is_alphanumeric(c: char) -> bool {
    let code = c as u32;
    ||| 0x30 <= code <= 0x39
    ||| 0x41 <= code <= 0x5a
    ||| 0x61 <= code <= 0x7a
}

/// Draws `n` characters with `rand`: `rand::rng()` gives the generator of
/// the thread, `Rng::sample_iter` with the `Alphanumeric` distribution an
/// endless run of bytes, each an ASCII letter or digit, of which the first
/// `n` are taken. Which letters and digits come is left open.
#[verifier::external_body]
fn sample_alphanumeric(n: usize) -> (text: String)
    ensures
        text@.len() == n,
        forall|i: int| 0 <= i < n ==> is_alphanumeric(#[trigger] text@[i]),
{
    rand::rng().sample_iter(&rand::distr::Alphanumeric).take(n).map(char::from).collect()
}

/// A random text of `n` ASCII letters and digits.
pub fn generate_random_str(n: usize) -> (text: String)
    ensures
        text@.len() == n,
        forall|i: int| 0 <= i < n ==> is_alphanumeric(#[trigger] text@[i]),
{
    sample_alphanumeric(n)
}

} // verus!
