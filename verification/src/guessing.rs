//! The number-guessing game: a secret number from 1 to 100, and guesses read
//! as text.
use vstd::prelude::*;
use vstd::string::*;
use crate::text::{parse_u32, trim, trim_str, u32_of_text};
use rand::Rng;

verus! {

/// `rand::thread_rng().gen_range(low..=high)`: a random number from `low` to
/// `high`, both included. Which one comes out is left open.
#[verifier::external_body]
fn random_in_range(low: u32, high: u32) -> (n: u32)
    requires
        low <= high,
    ensures
        low <= n <= high,
{
    rand::thread_rng().gen_range(low..=high)
}

/// The secret number of a new game: from 1 to 100.
pub fn pick_secret() -> (n: u32)
    ensures
        1 <= n <= 100,
{
    random_in_range(1, 100)
}

/// The guess a line of text holds: after trimming whitespace, an optional
/// `+` and at least one decimal digit, denoting a number that fits in `u32`.
pub open spec fn guess_of(line: Seq<char>) -> Option<u32> {
    u32_of_text(trim(line))
}

/// The guess a line of text holds, if it holds one.
pub fn parse_guess(line: &str) -> (r: Option<u32>)
    ensures
        r == guess_of(line@),
{
    let t = trim_str(line);
    parse_u32(t)
}

} // verus!
