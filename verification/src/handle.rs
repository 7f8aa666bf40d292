//! The handles of prepared statements.

use vstd::prelude::*;
use vstd::string::*;
use vstd::utf8::*;

verus! {

/// Whether `c` is a hexadecimal digit in lower case.
pub open spec fn is_hex_digit(c: char) -> bool {
    '0' <= c <= '9' || 'a' <= c <= 'f'
}

/// Whether `s` is a random UUID (version 4) without hyphens.
pub open spec fn is_handle(s: Seq<char>) -> bool {
    &&& s.len() == 32
    &&& forall|i: int| 0 <= i < s.len() ==> is_hex_digit(#[trigger] s[i])
    &&& s[12] == '4'
    &&& s[16] == '8' || s[16] == '9' || s[16] == 'a' || s[16] == 'b'
}

/// `uuid::Uuid::new_v4`, written without hyphens: 32 hexadecimal digits in
/// lower case, of which the thirteenth tells the version and the seventeenth
/// the variant. The others are random, so nothing else is said of them.
#[verifier::external_body]
pub(crate) fn fresh_handle() -> (r: String)
    ensures
        is_handle(r@),
{
    uuid::Uuid::new_v4().simple().to_string()
}

/// Whether `s` was drawn as a handle, and is not merely of the form of one.
pub closed spec fn is_drawn(s: Seq<char>) -> bool {
    exists|r: String| #[trigger] call_ensures(fresh_handle, (), r) && r@ == s
}

/// What is drawn as a handle is drawn, and has the form of a handle.
pub(crate) proof fn drawn_is_handle(r: String)
    requires
        call_ensures(fresh_handle, (), r),
    ensures
        is_drawn(r@),
        is_handle(r@),
{
}

/// Nothing else is drawn.
proof fn drawn_is_the_draw(s: Seq<char>)
    requires
        is_drawn(s),
    ensures
        exists|r: String| #[trigger] call_ensures(fresh_handle, (), r) && r@ == s,
{
}

/// A drawn handle has the form of a handle.
pub proof fn drawn_handle_is_handle(s: Seq<char>)
    requires
        is_drawn(s),
    ensures
        is_handle(s),
{
}

/// A handle is ASCII, so that its bytes are its characters.
pub proof fn handle_is_ascii(s: Seq<char>)
    requires
        is_handle(s),
    ensures
        is_ascii_chars(s),
        encode_utf8(s).len() == 32,
{
    is_ascii_chars_encode_utf8(s);
}

} // verus!
