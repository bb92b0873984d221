//! Choice of the progress bar's color: the caller's explicit wish wins, and
//! when none was given one color is drawn at random from a fixed palette.

use vstd::prelude::*;

use rand::RngExt;

verus! {

/// Whether `s` is one of the colors of the fixed palette.
pub open spec fn is_palette_color(s: Seq<char>) -> bool {
    ||| s == "red"@
    ||| s == "green"@
    ||| s == "yellow"@
    ||| s == "blue"@
    ||| s == "cyan"@
    ||| s == "magenta"@
    ||| s == "white"@
}

/// The number of colors in the palette.
pub const PALETTE_LEN: usize = 7;

/// The `i`-th color of the palette.
pub open spec fn palette_at(i: int) -> Seq<char> {
    if i == 0 {
        "red"@
    } else if i == 1 {
        "green"@
    } else if i == 2 {
        "yellow"@
    } else if i == 3 {
        "blue"@
    } else if i == 4 {
        "cyan"@
    } else if i == 5 {
        "magenta"@
    } else {
        "white"@
    }
}

/// The `i`-th color of the palette.
pub fn palette_color(i: usize) -> (r: &'static str)
    requires
        i < PALETTE_LEN,
    ensures
        r@ == palette_at(i as int),
        is_palette_color(r@),
{
    if i == 0 {
        "red"
    } else if i == 1 {
        "green"
    } else if i == 2 {
        "yellow"
    } else if i == 3 {
        "blue"
    } else if i == 4 {
        "cyan"
    } else if i == 5 {
        "magenta"
    } else {
        "white"
    }
}

/// Relies on rand::rng and rand::RngExt::random_range: a sample drawn from
/// the nonempty range `0..n` lies in that range (the call panics only on an
/// empty range, which `n > 0` rules out).
#[verifier::external_body]
fn random_below(n: usize) -> (r: usize)
    requires
        n > 0,
    ensures
        r < n,
{
    rand::rng().random_range(0..n)
}

/// The color the progress bar is drawn in: the requested one when the
/// caller named one, otherwise a random color of the fixed palette.
pub fn select_color(requested: &String) -> (r: String)
    ensures
        requested@.len() > 0 ==> r@ == requested@,
        requested@.len() == 0 ==> is_palette_color(r@),
{
    let empty = String::new();
    if requested.eq(&empty) {
        palette_color(random_below(PALETTE_LEN)).to_owned()
    } else {
        proof {
            if requested@.len() == 0 {
                assert(requested@ =~= Seq::<char>::empty());
            }
        }
        requested.clone()
    }
}

} // verus!
