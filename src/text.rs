//! Text shown to a user: names and the volume summary.
use vstd::prelude::*;

use crate::name::lower_code;

verus! {

/// What `String::from_utf8_lossy` makes of the bytes `b`.
pub uninterp spec fn utf8_lossy(b: Seq<u8>) -> Seq<char>;

/// What `str::to_lowercase` makes of the characters `s`.
pub uninterp spec fn lowercase_of(s: Seq<char>) -> Seq<char>;

/// The character of a decimal digit.
pub open spec fn digit_char(d: nat) -> char {
    if d == 0 { '0' }
    else if d == 1 { '1' }
    else if d == 2 { '2' }
    else if d == 3 { '3' }
    else if d == 4 { '4' }
    else if d == 5 { '5' }
    else if d == 6 { '6' }
    else if d == 7 { '7' }
    else if d == 8 { '8' }
    else { '9' }
}

/// `n` written in decimal, without leading zeros.
pub open spec fn decimal(n: nat) -> Seq<char>
    decreases n,
{
    if n < 10 { seq![digit_char(n)] } else { decimal(n / 10) + seq![digit_char(n % 10)] }
}

/// The summary of a volume's geometry and current directory.
pub open spec fn info_summary(bps: nat, spc: nat, root: nat, current: nat) -> Seq<char> {
    "Info:\n - Sector Size: "@ + decimal(bps) + "\n - Cluster Size: "@ + decimal(spc)
        + "\n - Root Cluster: "@ + decimal(root) + "\n - Current Cluster: "@ + decimal(current)
}

/// Relies on `String::from_utf8_lossy`: valid UTF-8 is kept as it is, so
/// ASCII bytes become the characters with the same codes.
#[verifier::external_body]
pub(crate) fn text_of(b: &[u8]) -> (r: String)
    ensures
        r@ == utf8_lossy(b@),
        (forall|i: int| 0 <= i < b@.len() ==> #[trigger] b@[i] < 0x80) ==> r@ == b@.map_values(
            |x: u8| x as char,
        ),
{
    String::from_utf8_lossy(b).into_owned()
}

/// Relies on `str::to_lowercase`: the result depends on the characters
/// alone, and on ASCII text it maps each upper-case letter to its lower-case
/// letter and keeps every other character.
#[verifier::external_body]
pub(crate) fn lowercase(s: &str) -> (r: String)
    ensures
        r@ == lowercase_of(s@),
        (forall|i: int| 0 <= i < s@.len() ==> ((#[trigger] s@[i]) as u32) < 0x80) ==> r@.len()
            == s@.len() && forall|i: int|
            0 <= i < s@.len() ==> (#[trigger] r@[i]) as u32 == lower_code(s@[i] as u32),
{
    s.to_lowercase()
}

/// Relies on `format!`, which writes each integer through `Display`, in decimal.
#[verifier::external_body]
pub(crate) fn info_text(bps: u16, spc: u8, root: u32, current: u32) -> (r: String)
    ensures
        r@ == info_summary(bps as nat, spc as nat, root as nat, current as nat),
{
    format!(
        "Info:\n - Sector Size: {}\n - Cluster Size: {}\n - Root Cluster: {}\n - Current Cluster: {}",
        bps,
        spc,
        root,
        current,
    )
}

} // verus!
