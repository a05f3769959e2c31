//! What the source of the images sends: a multipart stream with one image in each part.
use vstd::prelude::*;
use vstd::string::*;
use vstd::utf8::*;

use crate::frame::{own_boundary, stream_content_type};
use crate::pattern::{boundary_value, search, to_text};

verus! {

/// Why a header field cannot be read.
#[derive(Clone, Copy, Debug, PartialEq, Eq, Structural)]
pub enum HeaderFault {
    /// It holds a byte that is neither a tab nor a visible ASCII character.
    NotText,
}

/// Whether a byte of a header field is a tab or a visible ASCII character.
pub open spec fn is_visible(b: u8) -> bool {
    32 <= b < 127 || b == 9
}

/// The text that a header field of ASCII characters holds.
pub open spec fn field_text(field: Seq<u8>) -> Seq<char> {
    Seq::new(field.len(), |i: int| field[i] as char)
}

/// How many characters come before the first semicolon, if there is one, or before the end.
pub open spec fn until_semicolon(text: Seq<char>) -> nat
    decreases text.len(),
{
    if text.len() == 0 || text[0] == ';' {
        0
    } else {
        1 + until_semicolon(text.skip(1))
    }
}

/// The boundary that a content type names: that of the first of its parts, which semicolons keep
/// apart, that names one.
pub open spec fn boundary_in(text: Seq<char>) -> Option<Seq<char>>
    decreases text.len(),
{
    let n = until_semicolon(text);
    match boundary_value(text.take(n as int)) {
        Some(value) => Some(value),
        None => if n < text.len() {
            boundary_in(text.skip(n as int + 1))
        } else {
            None
        },
    }
}

proof fn lemma_until_semicolon(text: Seq<char>, n: int)
    requires
        0 <= n <= text.len(),
        forall|i: int| 0 <= i < n ==> text[i] != ';',
        n == text.len() || text[n] == ';',
    ensures
        until_semicolon(text) == n,
    decreases n,
{
    if n > 0 {
        assert(text.skip(1).len() == text.len() - 1);
        assert forall|i: int| 0 <= i < n - 1 implies text.skip(1)[i] != ';' by {
            assert(text.skip(1)[i] == text[i + 1]);
        }
        assert(n < text.len() ==> text.skip(1)[n - 1] == text[n]);
        lemma_until_semicolon(text.skip(1), n - 1);
    }
}

/// The text of a header field.
fn read_field(field: &Vec<u8>) -> (text: Result<String, HeaderFault>)
    ensures
        text is Ok <==> forall|i: int| 0 <= i < field@.len() ==> is_visible(#[trigger] field@[i]),
        text matches Ok(t) ==> t@ == field_text(field@),
        text matches Err(fault) ==> fault == HeaderFault::NotText,
{
    let mut i: usize = 0;
    while i < field.len()
        invariant
            i <= field@.len(),
            forall|j: int| 0 <= j < i ==> is_visible(#[trigger] field@[j]),
        decreases field@.len() - i,
    {
        let b: u8 = field[i];
        if !(32 <= b && b < 127 || b == 9) {
            assert(!is_visible(field@[i as int]));
            return Err(HeaderFault::NotText);
        }
        i = i + 1;
    }
    let ghost s = field_text(field@);
    let text = to_text(field.as_slice());
    proof {
        assert forall|j: int| 0 <= j < s.len() implies '\0' <= #[trigger] s[j] <= '\u{7f}' by {
            assert(is_visible(field@[j]));
        }
        is_ascii_chars_encode_utf8(s);
        assert forall|j: int| 0 <= j < s.len() implies encode_utf8(s)[j] == field@[j] by {
            assert(is_visible(field@[j]));
            assert(s[j] as u8 == encode_utf8(s)[j]);
        }
        assert(encode_utf8(s) =~= field@);
        encode_utf8_valid_utf8(s);
        encode_utf8_decode_utf8(s);
    }
    Ok(text)
}

/// The boundary that the content type of a response names, if the response has a content type
/// and that names one.
pub fn get_boundary_separator(content_type: Option<Vec<u8>>) -> (boundary: Result<
    Option<String>,
    HeaderFault,
>)
    ensures
        boundary is Err <==> content_type is Some && exists|i: int|
            0 <= i < content_type.unwrap()@.len() && !is_visible(
                #[trigger] content_type.unwrap()@[i],
            ),
        boundary matches Err(fault) ==> fault == HeaderFault::NotText,
        boundary matches Ok(Some(b)) ==> content_type is Some && boundary_in(
            field_text(content_type.unwrap()@),
        ) == Some(b@),
        boundary matches Ok(None) ==> content_type is None || boundary_in(
            field_text(content_type.unwrap()@),
        ) is None,
{
    let field = match content_type {
        None => {
            return Ok(None);
        },
        Some(field) => field,
    };
    let text = match read_field(&field) {
        Err(fault) => {
            return Err(fault);
        },
        Ok(text) => text,
    };
    let ghost whole = field_text(field@);
    proof {
        assert forall|j: int| 0 <= j < whole.len() implies '\0' <= #[trigger] whole[j] <= '\u{7f}'
            && whole[j] != '\n' by {
            assert(is_visible(field@[j]));
        }
    }
    let len = field.len();
    let mut start: usize = 0;
    assert(whole.skip(0) =~= whole);
    loop
        invariant
            len == field@.len(),
            whole == field_text(field@),
            whole == text@,
            is_ascii_chars(whole),
            forall|j: int| 0 <= j < whole.len() ==> #[trigger] whole[j] != '\n',
            0 <= start <= len,
            boundary_in(whole) == boundary_in(whole.skip(start as int)),
            content_type == Some(field),
            forall|i: int| 0 <= i < field@.len() ==> is_visible(#[trigger] field@[i]),
        decreases len - start,
    {
        let mut end: usize = start;
        while end < len && field[end] != 59
            invariant
                len == field@.len(),
                whole == field_text(field@),
                start <= end <= len,
                forall|j: int| start <= j < end ==> #[trigger] whole[j] != ';',
                forall|i: int| 0 <= i < field@.len() ==> is_visible(#[trigger] field@[i]),
            decreases len - end,
        {
            assert(is_visible(field@[end as int]));
            end = end + 1;
        }
        let ghost rest = whole.skip(start as int);
        let ghost n = end - start;
        proof {
            assert forall|i: int| 0 <= i < n implies rest[i] != ';' by {
                assert(rest[i] == whole[start + i]);
            }
            if end < len {
                assert(rest[n] == whole[end as int]);
            }
            lemma_until_semicolon(rest, n);
            assert(rest.take(n) =~= whole.subrange(start as int, end as int));
            assert forall|j: int| 0 <= j < n implies rest.take(n)[j] != '\n' by {
                assert(rest.take(n)[j] == whole[start + j]);
            }
        }
        let piece = text.as_str().substring_ascii(start, end);
        match search("boundary=(.+)", piece) {
            Ok(Some((_, Some(value)))) => {
                return Ok(Some(value));
            },
            Ok(_) => {},
            Err(_) => {},
        }
        if end == len {
            return Ok(None);
        }
        assert(rest.skip(n + 1) =~= whole.skip(end + 1));
        start = end + 1;
    }
}

/// Where there is no equals sign no boundary is named.
proof fn lemma_no_equals_no_boundary(text: Seq<char>)
    requires
        forall|i: int| 0 <= i < text.len() ==> text[i] != '=',
    ensures
        boundary_value(text) is None,
    decreases text.len(),
{
    if text.len() > 9 {
        reveal_strlit("boundary=");
        assert(text.take(9)[8] == text[8]);
        assert("boundary="@[8] == '=');
        assert forall|i: int| 0 <= i < text.skip(1).len() implies text.skip(1)[i] != '=' by {
            assert(text.skip(1)[i] == text[i + 1]);
        }
        lemma_no_equals_no_boundary(text.skip(1));
    }
}

/// A boundary that is announced is found: of a multipart content type with one parameter, a
/// boundary that is not empty and holds no semicolon, that boundary is read.
pub proof fn law_announced_boundary_is_found(boundary: Seq<char>)
    requires
        boundary.len() > 0,
        forall|i: int| 0 <= i < boundary.len() ==> boundary[i] != ';',
    ensures
        boundary_in("multipart/x-mixed-replace; boundary="@ + boundary) == Some(boundary),
{
    let kind = "multipart/x-mixed-replace"@;
    let text = "multipart/x-mixed-replace; boundary="@ + boundary;
    let parameter = text.skip(26);
    reveal_strlit("multipart/x-mixed-replace");
    reveal_strlit("multipart/x-mixed-replace; boundary=");
    reveal_strlit("boundary=");
    assert(text.take(25) =~= kind);
    lemma_until_semicolon(text, 25);
    lemma_no_equals_no_boundary(kind);
    assert(parameter.len() == 10 + boundary.len());
    assert forall|i: int| 0 <= i < parameter.len() implies parameter[i] != ';' by {
        if i >= 10 {
            assert(parameter[i] == boundary[i - 10]);
        }
    }
    lemma_until_semicolon(parameter, parameter.len() as int);
    assert(parameter.take(parameter.len() as int) =~= parameter);
    assert(parameter.take(9)[0] == ' ');
    assert("boundary="@[0] == 'b');
    assert(parameter.skip(1).take(9) =~= "boundary="@);
    assert(parameter.skip(1).skip(9) =~= boundary);
    reveal_with_fuel(boundary_value, 3);
    reveal_with_fuel(boundary_in, 3);
}

/// The library finds its own boundary in the content type that it announces.
pub proof fn law_own_boundary_is_found()
    ensures
        boundary_in(stream_content_type()) == Some(own_boundary()),
{
    reveal_strlit("BoundaryString");
    law_announced_boundary_is_found(own_boundary());
}

/// Whether a boundary is named at `j`: the word, the sign, and one more character that is not a
/// semicolon.
pub open spec fn named_at(text: Seq<char>, j: int) -> bool {
    0 <= j && j + 9 < text.len() && text.subrange(j, j + 9) == "boundary="@ && text[j + 9] != ';'
}

/// In text without a semicolon a boundary is named at the first place, if there is one.
proof fn lemma_boundary_value(text: Seq<char>, j: int)
    requires
        forall|i: int| 0 <= i < text.len() ==> text[i] != ';',
        forall|i: int| 0 <= i < j ==> !named_at(text, i),
        named_at(text, j) || j == text.len(),
        0 <= j,
    ensures
        boundary_value(text) == (if j < text.len() {
            Some(text.skip(j + 9))
        } else {
            None
        }),
    decreases j,
{
    if text.len() > 9 {
        assert(text.subrange(0, 9) =~= text.take(9));
        if j > 0 {
            assert(!named_at(text, 0));
            let rest = text.skip(1);
            assert forall|i: int| 0 <= i < j - 1 implies !named_at(rest, i) by {
                assert(!named_at(text, i + 1));
                if i + 9 < rest.len() {
                    assert(rest.subrange(i, i + 9) =~= text.subrange(i + 1, i + 10));
                }
            }
            if j < text.len() {
                assert(rest.subrange(j - 1, j + 8) =~= text.subrange(j, j + 9));
            }
            assert forall|i: int| 0 <= i < rest.len() implies rest[i] != ';' by {
                assert(rest[i] == text[i + 1]);
            }
            lemma_boundary_value(rest, j - 1);
            assert(j < text.len() ==> rest.skip(j + 8) =~= text.skip(j + 9));
        }
    }
}

/// The boundary that a content type names is what follows the first place where one is named, up to
/// the next semicolon or the end, whatever comes before.
pub proof fn law_first_boundary_is_found(text: Seq<char>, j: int, end: int)
    requires
        named_at(text, j),
        forall|i: int| 0 <= i < j ==> !named_at(text, i),
        j + 9 <= end <= text.len(),
        forall|i: int| j + 9 <= i < end ==> text[i] != ';',
        end == text.len() || text[end] == ';',
    ensures
        boundary_in(text) == Some(text.subrange(j + 9, end)),
    decreases text.len(),
{
    reveal_strlit("boundary=");
    assert forall|i: int| j <= i < end implies text[i] != ';' by {
        if i < j + 9 {
            assert(text.subrange(j, j + 9)[i - j] == text[i]);
        }
    }
    let n = until_semicolon(text) as int;
    lemma_until_semicolon_is(text);
    let piece = text.take(n);
    assert forall|i: int| 0 <= i < piece.len() implies piece[i] != ';' by {
        assert(piece[i] == text[i]);
    }
    if n > j {
        assert(n == end) by {
            if n < end {
                assert(text[n] == ';');
            }
            if n > end {
                assert(text[end] == ';');
            }
        }
        assert(piece.subrange(j, j + 9) =~= text.subrange(j, j + 9));
        assert(named_at(piece, j));
        assert forall|i: int| 0 <= i < j implies !named_at(piece, i) by {
            assert(!named_at(text, i));
            if i + 9 < piece.len() {
                assert(piece.subrange(i, i + 9) =~= text.subrange(i, i + 9));
            }
        }
        lemma_boundary_value(piece, j);
        assert(piece.skip(j + 9) =~= text.subrange(j + 9, end));
    } else {
        assert(n < j) by {
            assert(text[j] != ';');
        }
        assert forall|i: int| 0 <= i < piece.len() implies !named_at(piece, i) by {
            assert(!named_at(text, i));
            if i + 9 < piece.len() {
                assert(piece.subrange(i, i + 9) =~= text.subrange(i, i + 9));
            }
        }
        lemma_boundary_value(piece, piece.len() as int);
        let rest = text.skip(n + 1);
        assert(rest.subrange(j - n - 1, j - n + 8) =~= text.subrange(j, j + 9));
        assert forall|i: int| 0 <= i < j - n - 1 implies !named_at(rest, i) by {
            assert(!named_at(text, i + n + 1));
            if i + 9 < rest.len() {
                assert(rest.subrange(i, i + 9) =~= text.subrange(i + n + 1, i + n + 10));
            }
        }
        law_first_boundary_is_found(rest, j - n - 1, end - n - 1);
        assert(rest.subrange(j - n + 8, end - n - 1) =~= text.subrange(j + 9, end));
    }
}

/// Where no boundary is named none is found.
pub proof fn law_no_boundary_is_found(text: Seq<char>)
    requires
        forall|i: int| 0 <= i < text.len() ==> !named_at(text, i),
    ensures
        boundary_in(text) is None,
    decreases text.len(),
{
    let n = until_semicolon(text) as int;
    lemma_until_semicolon_is(text);
    let piece = text.take(n);
    assert forall|i: int| 0 <= i < piece.len() implies piece[i] != ';' by {
        assert(piece[i] == text[i]);
    }
    assert forall|i: int| 0 <= i < piece.len() implies !named_at(piece, i) by {
        assert(!named_at(text, i));
        if i + 9 < piece.len() {
            assert(piece.subrange(i, i + 9) =~= text.subrange(i, i + 9));
        }
    }
    lemma_boundary_value(piece, piece.len() as int);
    if n < text.len() {
        let rest = text.skip(n + 1);
        assert forall|i: int| 0 <= i < rest.len() implies !named_at(rest, i) by {
            assert(!named_at(text, i + n + 1));
            if i + 9 < rest.len() {
                assert(rest.subrange(i, i + 9) =~= text.subrange(i + n + 1, i + n + 10));
            }
        }
        law_no_boundary_is_found(rest);
    }
}

/// The first semicolon is where it is, or there is none.
proof fn lemma_until_semicolon_is(text: Seq<char>)
    ensures
        until_semicolon(text) <= text.len(),
        forall|i: int| 0 <= i < until_semicolon(text) ==> text[i] != ';',
        until_semicolon(text) < text.len() ==> text[until_semicolon(text) as int] == ';',
    decreases text.len(),
{
    if text.len() > 0 && text[0] != ';' {
        let rest = text.skip(1);
        lemma_until_semicolon_is(rest);
        assert forall|i: int| 0 <= i < until_semicolon(text) implies text[i] != ';' by {
            if i > 0 {
                assert(rest[i - 1] == text[i]);
            }
        }
    }
}

/// The text of a field is its bytes, each as the character of that code, and the bytes that a field
/// may hold are tabs and the visible ASCII characters.
pub proof fn law_a_field_reads_as_it_stands(field: Seq<u8>, i: int, b: u8)
    ensures
        field_text(field).len() == field.len(),
        0 <= i < field.len() ==> field_text(field)[i] == field[i] as char,
        is_visible(b) <==> b == 9 || 32 <= b <= 126,
{
}

} // verus!
