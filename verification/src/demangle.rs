//! The one outside capability the decomposer needs: demangling a raw symbol
//! name into its human-readable form.

use vstd::prelude::*;

verus! {

/// The demangling of a raw symbol name, as a sequence of characters. The
/// demangling of a name is a pure function of its characters, so the result
/// carries a name here; nothing further is assumed about its shape.
pub uninterp spec fn demangled_of(s: Seq<char>) -> Seq<char>;

/// Relies on `rustc_demangle::demangle`: it turns a mangled Rust symbol
/// into its readable form, passes a name that does not look mangled through
/// unchanged, and depends on the characters of the name alone.
#[verifier::external_body]
pub(crate) fn demangle_symbol(sym: &str) -> (r: String)
    ensures
        r@ == demangled_of(sym@),
{
    rustc_demangle::demangle(sym).to_string()
}

} // verus!
