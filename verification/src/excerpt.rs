//! Cutting a text short without cutting a character in two, and writing
//! numbers out in decimal.

use vstd::prelude::*;
use vstd::slice::{slice_subrange, slice_to_vec};
use vstd::string::StringSliceAdditionalSpecFns;

use crate::text::is_continuation;

verus! {

/// The mark put after a text that was cut short: U+2026, in UTF-8.
pub const ELLIPSIS: &'static str = "\u{2026}";

/// Where a text is cut that may keep at most `limit` bytes: at `limit`, or
/// before it as far as needed not to cut a character in two.
pub open spec fn cut_point(content: Seq<u8>, limit: int) -> int
    decreases limit,
{
    if limit <= 0 {
        0
    } else if limit >= content.len() || !is_continuation(content[limit]) {
        limit
    } else {
        cut_point(content, limit - 1)
    }
}

/// `content` as it is when it has no more than `limit` bytes, and else cut
/// short and marked with an ellipsis.
pub open spec fn excerpt_of(content: Seq<u8>, limit: nat) -> Seq<u8> {
    if content.len() > limit {
        content.take(cut_point(content, limit as int)) + ELLIPSIS.spec_bytes()
    } else {
        content
    }
}

/// Cuts `content` short when it has more than `limit` bytes, and tells
/// whether it did.
pub fn truncate_text(content: &[u8], limit: usize) -> (r: (Vec<u8>, bool))
    ensures
        r.0@ == excerpt_of(content@, limit as nat),
        r.1 == (content@.len() > limit),
{
    if content.len() <= limit {
        return (slice_to_vec(content), false);
    }
    let mut cut: usize = limit;
    while cut > 0 && 0x80 <= content[cut] && content[cut] < 0xC0
        invariant
            cut <= limit < content@.len(),
            cut_point(content@, limit as int) == cut_point(content@, cut as int),
        decreases cut,
    {
        cut -= 1;
    }
    let mut out = slice_to_vec(slice_subrange(content, 0, cut));
    out.extend_from_slice(ELLIPSIS.as_bytes());
    proof {
        assert(content@.subrange(0, cut as int) =~= content@.take(cut as int));
    }
    (out, true)
}

/// The decimal digits of `n`, as ASCII.
pub open spec fn digits_of(n: nat) -> Seq<u8>
    decreases n,
{
    if n < 10 {
        seq![(48 + n) as u8]
    } else {
        digits_of(n / 10).push((48 + n % 10) as u8)
    }
}

/// Appends the decimal digits of `n` to `out`.
pub fn push_decimal(out: &mut Vec<u8>, n: usize)
    ensures
        final(out)@ == old(out)@ + digits_of(n as nat),
    decreases n,
{
    if n >= 10 {
        push_decimal(out, n / 10);
    }
    let digit: u8 = 48 + (n % 10) as u8;
    out.push(digit);
    proof {
        if n < 10 {
            assert(out@ =~= old(out)@ + digits_of(n as nat));
        } else {
            assert(out@ =~= old(out)@ + digits_of(n as nat));
        }
    }
}

} // verus!
