//! Searching text for a pattern.
use regex::{Error, Regex};
use vstd::prelude::*;
use vstd::string::*;
use vstd::utf8::*;

use crate::decimal::{decimal, is_numeral};
use crate::frame::part_header;

verus! {

/// Declares `regex::Error`, the error of a pattern that is none.
#[verifier::external_type_specification]
#[verifier::external_body]
pub struct ExRegexError(Error);

/// The pattern that finds the boundary among the parameters of a content type.
pub open spec fn boundary_pattern() -> Seq<char> {
    "boundary=(.+)"@
}

/// The pattern that finds the header of a part. The boundary goes into it as it is, so that its
/// characters have the meaning that they have in patterns.
pub open spec fn header_pattern(boundary: Seq<char>) -> Seq<char> {
    "--"@ + boundary
        + "\r\nContent-type: image/jpeg\\s+Content-Length:\\s+(\\d+)\r\n\r\n"@
}

/// Whether each character of a boundary stands for itself in a pattern: it is an ASCII letter,
/// a digit, a hyphen or an underscore. With 300000 characters or fewer, the pattern of a header
/// keeps within the size that a compiled pattern may have.
pub open spec fn is_plain(boundary: Seq<char>) -> bool {
    &&& boundary.len() <= 300000
    &&& forall|i: int|
        0 <= i < boundary.len() ==> {
            ||| 'a' <= #[trigger] boundary[i] <= 'z'
            ||| 'A' <= boundary[i] <= 'Z'
            ||| '0' <= boundary[i] <= '9'
            ||| boundary[i] == '-'
            ||| boundary[i] == '_'
        }
}

/// Whether `s` holds nothing but spaces, tabs and the two characters of line breaks, and at least
/// one of them.
pub open spec fn is_space(s: Seq<char>) -> bool {
    &&& s.len() > 0
    &&& forall|i: int|
        0 <= i < s.len() ==> {
            ||| #[trigger] s[i] == ' '
            ||| s[i] == '\t'
            ||| s[i] == '\r'
            ||| s[i] == '\n'
        }
}

/// The header of a part, as sources write it: with white space of any length before the field of
/// the length and before its digits.
pub open spec fn spaced_header(
    boundary: Seq<char>,
    gap: Seq<char>,
    space: Seq<char>,
    digits: Seq<char>,
) -> Seq<char> {
    "--"@ + boundary + "\r\nContent-type: image/jpeg"@ + gap + "Content-Length:"@ + space + digits
        + "\r\n\r\n"@
}

/// What follows the first `boundary=` that anything follows.
pub open spec fn boundary_value(text: Seq<char>) -> Option<Seq<char>>
    decreases text.len(),
{
    if text.len() <= 9 {
        None
    } else if text.take(9) == "boundary="@ {
        Some(text.skip(9))
    } else {
        boundary_value(text.skip(1))
    }
}

/// The pattern of a boundary, and that of a header where the boundary is plain.
pub open spec fn is_known_pattern(pattern: Seq<char>) -> bool {
    ||| pattern == boundary_pattern()
    ||| exists|b: Seq<char>| is_plain(b) && pattern == #[trigger] header_pattern(b)
}

/// Whether `regex::Regex::new` takes `pattern`.
pub uninterp spec fn is_pattern(pattern: Seq<char>) -> bool;

/// What `regex::Regex::captures` finds of `pattern` in `text`: the first match, and what its
/// first group matched, if that took part in the match.
pub uninterp spec fn first_match(pattern: Seq<char>, text: Seq<char>) -> Option<
    (Seq<char>, Option<Seq<char>>),
>;

/// What a search gave, as it stands in contracts.
pub open spec fn match_view(found: Option<(String, Option<String>)>) -> Option<
    (Seq<char>, Option<Seq<char>>),
> {
    match found {
        Some((whole, Some(group))) => Some((whole@, Some(group@))),
        Some((whole, None)) => Some((whole@, None)),
        None => None,
    }
}

/// A search of one line for `boundary=(.+)` finds the first `boundary=` that anything follows,
/// and all that follows it.
pub open spec fn finds_boundary(
    pattern: Seq<char>,
    text: Seq<char>,
    found: Option<(Seq<char>, Option<Seq<char>>)>,
) -> bool {
    pattern == boundary_pattern() && !text.contains('\n') ==> match found {
        Some((_, group)) => group is Some && group == boundary_value(text),
        None => boundary_value(text) is None,
    }
}

/// A search for the header of a part, with a plain boundary, finds the header that the text
/// begins with, and its length, whatever white space there is in it.
pub open spec fn finds_header(
    pattern: Seq<char>,
    text: Seq<char>,
    found: Option<(Seq<char>, Option<Seq<char>>)>,
) -> bool {
    &&& forall|b: Seq<char>, n: nat|
        is_plain(b) && pattern == header_pattern(b) && #[trigger] part_header(b, n).is_prefix_of(
            text,
        ) ==> found == Some((part_header(b, n), Some(decimal(n))))
    &&& forall|b: Seq<char>, gap: Seq<char>, space: Seq<char>, digits: Seq<char>|
        is_plain(b) && pattern == header_pattern(b) && is_space(gap) && is_space(space)
            && is_numeral(digits) && #[trigger] spaced_header(b, gap, space, digits).is_prefix_of(
            text,
        ) ==> found == Some((spaced_header(b, gap, space, digits), Some(digits)))
}

/// Compiles a pattern with `regex::Regex::new` and drops it. Taken on trust: the outcome
/// depends on the pattern alone, and the patterns of a boundary and, where the boundary is plain,
/// of a header are taken. A compiled pattern may have ten mebibytes, and a character that stands
/// for itself takes no more than thirty-two bytes of them.
#[verifier::external_body]
pub(crate) fn compile(pattern: &str) -> (compiled: Result<(), Error>)
    ensures
        compiled is Ok <==> is_pattern(pattern@),
        is_known_pattern(pattern@) ==> compiled is Ok,
{
    let _ = Regex::new(pattern)?;
    Ok(())
}

/// Searches `text` with `regex::Regex::captures`, for the first match of `pattern`, and hands
/// out the match and its first group. Taken on trust: the outcome depends on the pattern and the
/// text alone; the same patterns are taken as `compile` takes; and these two facts of the syntax
/// and of the leftmost match. The pattern `boundary=(.+)` finds, within one line, the first
/// `boundary=` that anything follows, and all that follows. The pattern of a header, for a plain
/// boundary, finds a header that the text begins with, and its digits; before the field of the
/// length and before its digits any white space may stand.
#[verifier::external_body]
pub(crate) fn search(
    pattern: &str,
    text: &str,
) -> (found: Result<Option<(String, Option<String>)>, Error>)
    ensures
        found is Ok <==> is_pattern(pattern@),
        found matches Ok(f) ==> match_view(f) == first_match(pattern@, text@),
        is_known_pattern(pattern@) ==> found is Ok,
        found matches Ok(f) ==> finds_boundary(pattern@, text@, match_view(f)),
        found matches Ok(f) ==> finds_header(pattern@, text@, match_view(f)),
{
    let regex = Regex::new(pattern)?;
    Ok(regex.captures(text).map(|c| (c[0].to_string(), c.get(1).map(|m| m.as_str().to_string()))))
}

/// The text that `String::from_utf8_lossy` makes of bytes.
pub uninterp spec fn lossy_text(bytes: Seq<u8>) -> Seq<char>;

/// Turns bytes into text with `String::from_utf8_lossy`. Taken on trust: the outcome depends on
/// the bytes alone; bytes that are UTF-8 are decoded; and bytes that begin with ASCII characters
/// become text that begins with them.
#[verifier::external_body]
pub(crate) fn to_text(bytes: &[u8]) -> (text: String)
    ensures
        text@ == lossy_text(bytes@),
        valid_utf8(bytes@) ==> text@ == decode_utf8(bytes@),
        forall|s: Seq<char>|
            is_ascii_chars(s) && #[trigger] encode_utf8(s).is_prefix_of(bytes@) ==> s.is_prefix_of(
                text@,
            ),
{
    String::from_utf8_lossy(bytes).into_owned()
}

/// The patterns are these.
pub proof fn law_patterns(boundary: Seq<char>)
    ensures
        boundary_pattern() == "boundary=(.+)"@,
        header_pattern(boundary) == "--"@ + boundary
            + "\r\nContent-type: image/jpeg\\s+Content-Length:\\s+(\\d+)\r\n\r\n"@,
{
}

/// A boundary is plain if, and only if, it has at most 300000 characters, each of them an ASCII
/// letter, a digit, a hyphen or an underscore.
pub proof fn law_plain_boundaries(boundary: Seq<char>)
    ensures
        is_plain(boundary) <==> boundary.len() <= 300000 && forall|i: int|
            0 <= i < boundary.len() ==> ('a' <= #[trigger] boundary[i] <= 'z' || 'A' <= boundary[i]
                <= 'Z' || '0' <= boundary[i] <= '9' || boundary[i] == '-' || boundary[i] == '_'),
{
}

/// White space is made of spaces, tabs and line breaks, and a header with it reads as it stands. The
/// header that this library writes is one with a line break and one space.
pub proof fn law_spaced_headers(
    boundary: Seq<char>,
    gap: Seq<char>,
    space: Seq<char>,
    digits: Seq<char>,
    length: nat,
)
    ensures
        is_space(gap) <==> gap.len() > 0 && forall|i: int|
            0 <= i < gap.len() ==> (#[trigger] gap[i] == ' ' || gap[i] == '\t' || gap[i] == '\r'
                || gap[i] == '\n'),
        spaced_header(boundary, gap, space, digits) == "--"@ + boundary
            + "\r\nContent-type: image/jpeg"@ + gap + "Content-Length:"@ + space + digits
            + "\r\n\r\n"@,
        part_header(boundary, length) == spaced_header(
            boundary,
            "\r\n"@,
            " "@,
            decimal(length),
        ),
{
    reveal_strlit("--");
    reveal_strlit("\r\n");
    reveal_strlit(" ");
    reveal_strlit("\r\nContent-type: image/jpeg");
    reveal_strlit("Content-Length:");
    reveal_strlit("\r\n\r\n");
    reveal_strlit("\r\nContent-type: image/jpeg\r\nContent-Length: ");
    assert("\r\nContent-type: image/jpeg\r\nContent-Length: "@ =~= "\r\nContent-type: image/jpeg"@
        + "\r\n"@ + "Content-Length:"@ + " "@);
    assert(part_header(boundary, length) =~= spaced_header(
        boundary,
        "\r\n"@,
        " "@,
        decimal(length),
    ));
}

/// What a search gave stands in contracts as it is.
pub proof fn law_what_was_found_stands_as_it_is(whole: String, group: String)
    ensures
        match_view(Some((whole, Some(group)))) == Some((whole@, Some(group@))),
        match_view(Some((whole, None))) == Some((whole@, None::<Seq<char>>)),
        match_view(None) is None,
{
}

} // verus!
