//! Reading the integer literal that a variant gives as its discriminant.

use vstd::prelude::*;

verus! {

/// An ASCII letter, digit or `_`.
pub open spec fn is_word_char(c: char) -> bool {
    ('0' <= c && c <= '9') || ('a' <= c && c <= 'z') || ('A' <= c && c <= 'Z') || c == '_'
}

/// Text that can only be a bare literal token: ASCII letters, digits and
/// `_`, starting with a digit. Such text holds no white space, quote or
/// punctuation, so every Rust lexer splits it the same way.
pub open spec fn plain_literal_text(s: Seq<char>) -> bool {
    &&& s.len() > 0
    &&& '0' <= s[0] && s[0] <= '9'
    &&& forall|i: int| 0 <= i < s.len() ==> is_word_char(#[trigger] s[i])
}

/// The value of `text` read as one Rust integer literal (decimal, hex, octal
/// or binary, with `_` separators and an optional suffix), when it is one and
/// its value fits in 64 bits.
pub uninterp spec fn int_literal_value(text: Seq<char>) -> Option<u64>;

/// Whether `text` is plain literal text.
pub fn is_plain_literal_text(text: &str) -> (r: bool)
    ensures
        r == plain_literal_text(text@),
{
    let chars = crate::layout::chars_of(text);
    if chars.len() == 0 || !('0' <= chars[0] && chars[0] <= '9') {
        return false;
    }
    let mut i: usize = 0;
    while i < chars.len()
        invariant
            chars@ == text@,
            i <= chars@.len(),
            forall|j: int| 0 <= j < i ==> is_word_char(#[trigger] chars@[j]),
        decreases chars@.len() - i,
    {
        let c = chars[i];
        if !(('0' <= c && c <= '9') || ('a' <= c && c <= 'z') || ('A' <= c && c <= 'Z') || c == '_') {
            assert(!is_word_char(text@[i as int]));
            return false;
        }
        i = i + 1;
    }
    true
}

/// Relies on `syn::parse_str::<syn::LitInt>`, which reads `text` as a single
/// Rust integer literal, and on `syn::LitInt::base10_parse::<u64>`, which
/// gives that literal's value; a failure of either gives `None`. The text is
/// held to plain literal text, which the compiler's lexer and proc-macro2's
/// own lexer read alike.
#[verifier::external_body]
pub(crate) fn read_int_literal(text: &str) -> (r: Option<u64>)
    requires
        plain_literal_text(text@),
    ensures
        r == int_literal_value(text@),
{
    match syn::parse_str::<syn::LitInt>(text) {
        Ok(lit) => lit.base10_parse::<u64>().ok(),
        Err(_) => None,
    }
}

} // verus!
