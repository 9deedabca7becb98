use vstd::prelude::*;

verus! {

/// A witness column, by its index.
#[derive(Clone, Copy, Debug, PartialEq, Eq, Structural)]
pub struct WitIn {
    pub id: u16,
}

/// A fixed (preprocessed) column, by its index.
#[derive(Clone, Debug, PartialEq, Eq, Structural, PartialOrd, Ord)]
pub struct Fixed(pub usize);

/// Relies on std's `format!` with `Display` for `str`, which writes the string as it is:
/// the result is `s` between a pair of parentheses.
#[verifier::external_body]
fn parenthesized(s: &str) -> (r: String)
    ensures
        r@ == seq!['('] + s@ + seq![')'],
{
    format!("({})", s)
}

/// `s` in parentheses when `add_prn` holds, else `s` unchanged.
pub fn prn(s: String, add_prn: bool) -> (r: String)
    ensures
        add_prn ==> r@ == seq!['('] + s@ + seq![')'],
        !add_prn ==> r@ == s@,
{
    if add_prn {
        parenthesized(s.as_str())
    } else {
        s
    }
}

} // verus!
