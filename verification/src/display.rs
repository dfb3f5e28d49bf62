//! How a mapping is shown in the list of mappings.
use vstd::prelude::*;
use vstd::utf8::*;

use crate::mapping::MappingEntry;

verus! {

/// The longest source, in UTF-8 bytes, that is shown whole.
pub const DISPLAY_LIMIT: usize = 20;

/// A source can be shown: it is short enough to show whole, or its first
/// `DISPLAY_LIMIT` bytes end on a character boundary.
pub open spec fn displayable(from: Seq<char>) -> bool {
    encode_utf8(from).len() <= DISPLAY_LIMIT || is_char_boundary(
        encode_utf8(from),
        DISPLAY_LIMIT as int,
    )
}

/// How a source is shown: whole when it has at most `DISPLAY_LIMIT` bytes,
/// else its first `DISPLAY_LIMIT` bytes followed by `...`.
pub open spec fn shown_source(from: Seq<char>) -> Seq<char> {
    if encode_utf8(from).len() > DISPLAY_LIMIT {
        decode_utf8(encode_utf8(from).subrange(0, DISPLAY_LIMIT as int)) + "..."@
    } else {
        from
    }
}

/// Whether `from` can be shown (see `displayable`).
pub fn can_display(from: &str) -> (b: bool)
    ensures
        b == displayable(from@),
{
    from.as_bytes().len() <= DISPLAY_LIMIT || from.is_char_boundary(DISPLAY_LIMIT)
}

/// The source as the list shows it (see `shown_source`).
pub fn display_from(from: &str) -> (r: String)
    requires
        displayable(from@),
    ensures
        r@ == shown_source(from@),
{
    if from.as_bytes().len() > DISPLAY_LIMIT {
        let (head, _rest) = from.split_at(DISPLAY_LIMIT);
        proof {
            encode_utf8_decode_utf8(head@);
        }
        let mut r = head.to_owned();
        r.append("...");
        r
    } else {
        from.to_owned()
    }
}

/// The line that shows a mapping: `"source" → "target"`, the source
/// shortened as `display_from` does it.
pub fn mapping_label(entry: &MappingEntry) -> (r: String)
    requires
        displayable(entry.from@),
    ensures
        r@ == "\""@ + shown_source(entry.from@) + "\" → \""@ + entry.to@ + "\""@,
{
    let mut r = "\"".to_owned();
    let shown = display_from(entry.from.as_str());
    r.append(shown.as_str());
    r.append("\" → \"");
    r.append(entry.to.as_str());
    r.append("\"");
    r
}

} // verus!
