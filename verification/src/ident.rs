//! Identifier syntax, as decided by the `syn` parser.

use vstd::prelude::*;
use vstd::string::*;

verus! {

/// Whether `c` opens a delimited group of tokens.
pub open spec fn opens_group(c: char) -> bool {
    c == '(' || c == '[' || c == '{'
}

/// Whether `text` holds a character that opens a delimited group.
pub open spec fn has_group(text: Seq<char>) -> bool {
    exists|i: int| 0 <= i < text.len() && opens_group(#[trigger] text[i])
}

/// The verdict of `syn::parse_str::<syn::Ident>` on `text`, lexed by
/// `proc-macro2`'s own lexer: whether the whole of `text` is one identifier
/// that is not a reserved word.
pub uninterp spec fn syn_accepts_identifier(text: Seq<char>) -> bool;

/// Whether `text` is an identifier: it opens no group and the parser accepts it.
pub open spec fn is_identifier(text: Seq<char>) -> bool {
    !has_group(text) && syn_accepts_identifier(text)
}

/// Asks `syn::parse_str::<syn::Ident>` whether `text` is an identifier.
///
/// Trusted: the result is the parser's verdict, which is taken to depend on
/// the text alone. To make that so, `proc-macro2` is switched to its own lexer
/// for the call (`fallback::force`) and back afterwards (`fallback::unforce`),
/// so the compiler's lexer is never consulted, not even while a procedural
/// macro is expanded. Texts that open a group are kept away from the parser,
/// which descends into groups recursively.
#[verifier::external_body]
fn parses_as_identifier(text: &str) -> (accepted: bool)
    requires
        !has_group(text@),
    ensures
        accepted == syn_accepts_identifier(text@),
{
    proc_macro2::fallback::force();
    let accepted = syn::parse_str::<syn::Ident>(text).is_ok();
    proc_macro2::fallback::unforce();
    accepted
}

/// Whether `text` holds a character that opens a delimited group.
pub fn contains_group(text: &str) -> (r: bool)
    ensures
        r == has_group(text@),
{
    let n = text.unicode_len();
    let mut i: usize = 0;
    while i < n
        invariant
            0 <= i <= n,
            n == text@.len(),
            forall|j: int| 0 <= j < i ==> !opens_group(#[trigger] text@[j]),
        decreases n - i,
    {
        let c = text.get_char(i);
        if c == '(' || c == '[' || c == '{' {
            return true;
        }
        i += 1;
    }
    false
}

/// Whether `text` is an identifier.
pub fn check_identifier(text: &str) -> (r: bool)
    ensures
        r == is_identifier(text@),
{
    if contains_group(text) {
        false
    } else {
        parses_as_identifier(text)
    }
}

} // verus!
