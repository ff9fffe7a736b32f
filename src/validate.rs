//! Normalisation and the alphabet check of challenge messages.
use vstd::prelude::*;

verus! {

/// What `str::to_lowercase` makes of a string.
pub uninterp spec fn lower_of(s: Seq<char>) -> Seq<char>;

/// Relies on `str::to_lowercase`: the result depends on the characters alone.
#[verifier::external_body]
fn lowercase(s: &str) -> (r: String)
    ensures
        r@ == lower_of(s@),
{
    s.to_lowercase()
}

pub open spec fn is_lower_letter(c: char) -> bool {
    'a' <= c && c <= 'z'
}

/// Every character is an ASCII lowercase letter.
pub open spec fn all_lower_letters(s: Seq<char>) -> bool {
    forall|i: int| 0 <= i < s.len() ==> is_lower_letter(#[trigger] s[i])
}

/// The message as it is stored: lowercased.
pub open spec fn normalized(s: Seq<char>) -> Seq<char> {
    lower_of(s)
}

/// A message is accepted when its lowercased form holds only `a` to `z`.
pub open spec fn is_valid_message(s: Seq<char>) -> bool {
    all_lower_letters(normalized(s))
}

pub fn is_valid_string(input: &str) -> (r: bool)
    ensures
        r == all_lower_letters(input@),
{
    let n = input.unicode_len();
    let mut i: usize = 0;
    while i < n
        invariant
            n == input@.len(),
            i <= n,
            forall|j: int| 0 <= j < i ==> is_lower_letter(#[trigger] input@[j]),
        decreases n - i,
    {
        let c = input.get_char(i);
        if !('a' <= c && c <= 'z') {
            return false;
        }
        i = i + 1;
    }
    true
}

/// Lowercases a message and checks its alphabet; the normalised form on success.
pub fn normalize_message(message: &str) -> (r: Option<String>)
    ensures
        match r {
            Some(m) => is_valid_message(message@) && m@ == normalized(message@),
            None => !is_valid_message(message@),
        },
{
    let lowered = lowercase(message);
    if is_valid_string(lowered.as_str()) {
        Some(lowered)
    } else {
        None
    }
}

} // verus!
