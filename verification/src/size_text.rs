//! Byte counts as people read them, by the `bytesize` crate.
use bytesize::ByteSize;
use vstd::prelude::*;

verus! {

/// The text `bytesize` gives for `n` bytes in SI units.
pub uninterp spec fn byte_size_si(n: u64) -> Seq<char>;

/// `n` bytes in SI units (`ByteSize::b(n).display().si()`, as text).
#[verifier::external_body]
pub(crate) fn format_size_si(n: u64) -> (r: String)
    ensures
        r@ == byte_size_si(n),
{
    ByteSize::b(n).display().si().to_string()
}

} // verus!
