//! Validation of the name of the item to reserve.

use crate::text::{chars_of, is_digit, trimmed, trimmed_chars};
use vstd::prelude::*;

verus! {

/// Why an item name was refused.
#[derive(Clone, Copy, Debug, PartialEq, Eq, Structural)]
pub enum ChoiceError {
    /// The name is empty once trimmed.
    EmptyChoice,
    /// The name holds a numeric character.
    ChoiceContainsDigit,
}

/// Whether `c` is numeric in the sense of `char::is_numeric` (the Unicode
/// general categories `Nd`, `Nl` and `No`).
pub uninterp spec fn numeric_char(c: char) -> bool;

/// Relies on `char::is_numeric`, whose answer depends on the character
/// alone; among ASCII characters exactly the digits `0` to `9` are numeric.
#[verifier::external_body]
fn is_numeric(c: char) -> (r: bool)
    ensures
        r == numeric_char(c),
        (c as u32) < 128 ==> (r <==> 48 <= (c as u32) <= 57),
{
    c.is_numeric()
}

/// The outcome of checking the item name `item`.
pub open spec fn choice_check(item: Seq<char>) -> Result<(), ChoiceError> {
    if trimmed(item).len() == 0 {
        Err(ChoiceError::EmptyChoice)
    } else if exists|i: int| 0 <= i < item.len() && numeric_char(#[trigger] item[i]) {
        Err(ChoiceError::ChoiceContainsDigit)
    } else {
        Ok(())
    }
}

/// Accepts an item name that is not blank and holds no numeric character.
pub fn validate_item_choice(item: &str) -> (r: Result<(), ChoiceError>)
    ensures
        r == choice_check(item@),
        trimmed(item@).len() > 0 && (exists|i: int|
            0 <= i < item@.len() && is_digit(#[trigger] item@[i])) ==> r == Err::<(), ChoiceError>(
            ChoiceError::ChoiceContainsDigit,
        ),
        trimmed(item@).len() > 0 && (forall|i: int|
            0 <= i < item@.len() ==> (#[trigger] item@[i] as u32) < 128 && !is_digit(item@[i]))
            ==> r == Ok::<(), ChoiceError>(()),
{
    let t = trimmed_chars(item);
    if t.len() == 0 {
        return Err(ChoiceError::EmptyChoice);
    }
    let cs = chars_of(item);
    let mut i: usize = 0;
    while i < cs.len()
        invariant
            cs@ == item@,
            trimmed(item@).len() > 0,
            i <= cs@.len(),
            forall|k: int| 0 <= k < i ==> !numeric_char(#[trigger] item@[k]),
            forall|k: int| 0 <= k < i ==> !is_digit(#[trigger] item@[k]),
        decreases cs@.len() - i,
    {
        if is_numeric(cs[i]) {
            assert(numeric_char(item@[i as int]));
            return Err(ChoiceError::ChoiceContainsDigit);
        }
        i += 1;
    }
    Ok(())
}

impl ChoiceError {
    /// The human-readable reason.
    pub fn message(&self) -> (r: String)
        ensures
            r@ == match self {
                ChoiceError::EmptyChoice => "Le choix ne peut pas être vide"@,
                ChoiceError::ChoiceContainsDigit => "Le choix ne peut pas contenir de chiffres"@,
            },
    {
        match self {
            ChoiceError::EmptyChoice => String::from_str("Le choix ne peut pas être vide"),
            ChoiceError::ChoiceContainsDigit => String::from_str(
                "Le choix ne peut pas contenir de chiffres",
            ),
        }
    }
}

} // verus!
