//! Reading the parts of a multipart stream, chunk by chunk.
use vstd::prelude::*;
use vstd::string::*;
use vstd::utf8::*;

use crate::decimal::{
    decimal, is_digit, is_numeral, law_numeral_reads_back, lemma_decimal_is_numeral, numeral_value,
    parse_usize, parsed,
};
use crate::frame::{line_break, own_boundary, part, part_header};
use crate::pattern::{
    compile, first_match, header_pattern, is_pattern, is_plain, is_space, lossy_text, match_view,
    search, spaced_header, to_text,
};

verus! {

/// Why a stream cannot be read on.
#[derive(Clone, Copy, Debug, PartialEq, Eq, Structural)]
pub enum ReadFault {
    /// The boundary makes no pattern to look for.
    BadPattern,
    /// The length is not a number, or one that no length can have.
    BadLength,
    /// The pattern was found without a length.
    NoLength,
    /// The length leaves no room for the line break that ends the part.
    NoRoom,
    /// The header is longer than what was read.
    Overrun,
}

impl ReadFault {
    /// Whether reading is given up for good, rather than begun anew on another connection.
    pub open spec fn spec_is_fatal(self) -> bool {
        self == ReadFault::NoLength || self == ReadFault::NoRoom || self == ReadFault::Overrun
    }

    /// Whether reading is given up for good, rather than begun anew on another connection.
    pub fn is_fatal(&self) -> (fatal: bool)
        ensures
            fatal == self.spec_is_fatal(),
    {
        match self {
            ReadFault::NoLength | ReadFault::NoRoom | ReadFault::Overrun => true,
            _ => false,
        }
    }
}

/// A reader, as it stands in contracts: what keeps the parts apart, what was read and not used
/// yet, and how many bytes the part that has begun still has, from the first that is kept.
#[verifier::ext_equal]
pub struct ReaderView {
    pub boundary: Seq<char>,
    pub buffer: Seq<u8>,
    pub wanted: Option<nat>,
}

/// Reads the parts of a stream.
pub struct ElementReader {
    boundary: String,
    buffer: Vec<u8>,
    wanted: Option<usize>,
}

impl View for ElementReader {
    type V = ReaderView;

    closed spec fn view(&self) -> ReaderView {
        ReaderView {
            boundary: self.boundary@,
            buffer: self.buffer@,
            wanted: match self.wanted {
                Some(n) => Some(n as nat),
                None => None,
            },
        }
    }
}

/// What a search for a header means for `buffered` bytes: how many of them the header takes and
/// how many bytes follow it, line break included. `None` where no header was found.
pub open spec fn opened(
    found: Option<(Seq<char>, Option<Seq<char>>)>,
    buffered: nat,
) -> Result<Option<(nat, nat)>, ReadFault> {
    match found {
        None => Ok(None),
        Some((_, None)) => Err(ReadFault::NoLength),
        Some((header, Some(digits))) => match parsed(digits, usize::MAX as nat) {
            None => Err(ReadFault::BadLength),
            Some(n) => if n + 2 > usize::MAX {
                Err(ReadFault::NoRoom)
            } else if encode_utf8(header).len() > buffered {
                Err(ReadFault::Overrun)
            } else {
                Ok(Some((encode_utf8(header).len(), n + 2)))
            },
        },
    }
}

/// What comes of `data` that begins with a part of `length` bytes: the part, once all of it is
/// there, and a reader that keeps what is left.
pub open spec fn collected(
    boundary: Seq<char>,
    data: Seq<u8>,
    length: nat,
) -> (ReaderView, Option<Seq<u8>>) {
    if data.len() < length {
        (ReaderView { boundary, buffer: data, wanted: Some(length) }, None)
    } else {
        (
            ReaderView { boundary, buffer: data.skip(length as int), wanted: None },
            Some(data.take(length as int)),
        )
    }
}

/// What a reader makes of the next chunk: itself afterwards, and the part that is complete. At
/// the start of a part the header is looked for in all that was read; where there is none the
/// part is empty and all is kept.
pub open spec fn received(reader: ReaderView, chunk: Seq<u8>) -> Result<
    (ReaderView, Option<Seq<u8>>),
    ReadFault,
> {
    let data = reader.buffer + chunk;
    match reader.wanted {
        Some(length) => Ok(collected(reader.boundary, data, length)),
        None => if !is_pattern(header_pattern(reader.boundary)) {
            Err(ReadFault::BadPattern)
        } else {
            match opened(
                first_match(header_pattern(reader.boundary), lossy_text(data)),
                data.len(),
            ) {
                Err(fault) => Err(fault),
                Ok(None) => Ok(
                    (
                        ReaderView { boundary: reader.boundary, buffer: data, wanted: None },
                        Some(Seq::<u8>::empty()),
                    ),
                ),
                Ok(Some((skipped, length))) => Ok(
                    collected(reader.boundary, data.skip(skipped as int), length),
                ),
            }
        },
    }
}

/// Where the stream goes on with a header of this library's own making, for a plain boundary, the
/// part is the bytes that follow it.
pub open spec fn finds_plain_headers(reader: ReaderView, chunk: Seq<u8>) -> bool {
    let data = reader.buffer + chunk;
    forall|n: nat|
        reader.wanted is None && is_plain(reader.boundary) && n + 2 <= usize::MAX
            && #[trigger] encode_utf8(part_header(reader.boundary, n)).is_prefix_of(data)
            ==> received(reader, chunk) == Ok::<_, ReadFault>(
            collected(
                reader.boundary,
                data.skip(encode_utf8(part_header(reader.boundary, n)).len() as int),
                n + 2,
            ),
        )
}

/// A part that this library has written is read back as the image with its line break, and what
/// follows it is kept.
pub open spec fn reads_own_parts(reader: ReaderView, chunk: Seq<u8>) -> bool {
    forall|image: Seq<u8>, rest: Seq<u8>|
        reader.wanted is None && reader.boundary == own_boundary() && reader.buffer + chunk
            == #[trigger] (part(image) + rest) ==> received(reader, chunk) == Ok::<_, ReadFault>(
            (
                ReaderView { boundary: own_boundary(), buffer: rest, wanted: None },
                Some(image + line_break()),
            ),
        )
}

/// Where the stream goes on with the header of a part, for a plain boundary and with any white space
/// before the field of the length and before its digits, and the bytes that it announces with two
/// more for the line break are all there, these bytes are the part, and what follows is kept.
pub open spec fn reads_spaced_parts(reader: ReaderView, chunk: Seq<u8>) -> bool {
    forall|gap: Seq<char>, space: Seq<char>, digits: Seq<char>, body: Seq<u8>, rest: Seq<u8>|
        reader.wanted is None && is_plain(reader.boundary) && is_space(gap) && is_space(space)
            && is_numeral(digits) && body.len() == numeral_value(digits) + 2 && reader.buffer
            + chunk == #[trigger] (encode_utf8(spaced_header(reader.boundary, gap, space, digits))
            + body + rest) ==> received(reader, chunk) == Ok::<_, ReadFault>(
            (
                ReaderView { boundary: reader.boundary, buffer: rest, wanted: None },
                Some(body),
            ),
        )
}

/// Where such a header is there and not all of the part, what follows the header is kept, and the
/// rest of the part is awaited.
pub open spec fn awaits_spaced_parts(reader: ReaderView, chunk: Seq<u8>) -> bool {
    forall|gap: Seq<char>, space: Seq<char>, digits: Seq<char>, begun: Seq<u8>|
        reader.wanted is None && is_plain(reader.boundary) && is_space(gap) && is_space(space)
            && is_numeral(digits) && begun.len() < numeral_value(digits) + 2 <= usize::MAX
            && reader.buffer + chunk == #[trigger] (encode_utf8(
            spaced_header(reader.boundary, gap, space, digits),
        ) + begun) ==> received(reader, chunk) == Ok::<_, ReadFault>(
            (
                ReaderView {
                    boundary: reader.boundary,
                    buffer: begun,
                    wanted: Some(numeral_value(digits) + 2),
                },
                None::<Seq<u8>>,
            ),
        )
}

/// What a search for a header means for `buffered` bytes.
pub fn open_element(found: &Option<(String, Option<String>)>, buffered: usize) -> (start: Result<
    Option<(usize, usize)>,
    ReadFault,
>)
    ensures
        match opened(match_view(*found), buffered as nat) {
            Ok(Some((skipped, length))) => start matches Ok(Some((s, l))) && s == skipped && l
                == length,
            Ok(None) => start matches Ok(None),
            Err(fault) => start == Err::<Option<(usize, usize)>, ReadFault>(fault),
        },
{
    match found {
        None => Ok(None),
        Some((_, None)) => Err(ReadFault::NoLength),
        Some((header, Some(digits))) => match parse_usize(digits.as_str()) {
            None => Err(ReadFault::BadLength),
            Some(n) => {
                let taken = header.as_str().as_bytes().len();
                if n > usize::MAX - 2 {
                    Err(ReadFault::NoRoom)
                } else if taken > buffered {
                    Err(ReadFault::Overrun)
                } else {
                    Ok(Some((taken, n + 2)))
                }
            },
        },
    }
}

/// The pattern for the header of a part.
fn write_header_pattern(boundary: &str) -> (pattern: String)
    ensures
        pattern@ == header_pattern(boundary@),
{
    let mut pattern = "--".to_owned();
    pattern.append(boundary);
    pattern.append("\r\nContent-type: image/jpeg\\s+Content-Length:\\s+(\\d+)\r\n\r\n");
    pattern
}

/// The header of a part is plain text where its boundary is.
proof fn lemma_part_header_is_ascii(boundary: Seq<char>, n: nat)
    requires
        is_plain(boundary),
    ensures
        is_ascii_chars(part_header(boundary, n)),
        encode_utf8(part_header(boundary, n)).len() == part_header(boundary, n).len(),
{
    reveal_strlit("--");
    reveal_strlit("\r\nContent-type: image/jpeg\r\nContent-Length: ");
    reveal_strlit("\r\n\r\n");
    lemma_decimal_is_numeral(n);
    let a = "--"@;
    let b = "\r\nContent-type: image/jpeg\r\nContent-Length: "@;
    let c = "\r\n\r\n"@;
    assert(is_ascii_chars(a));
    assert(is_ascii_chars(b));
    assert(is_ascii_chars(c));
    assert(is_ascii_chars(boundary));
    assert forall|i: int| 0 <= i < decimal(n).len() implies '\0' <= #[trigger] decimal(n)[i]
        <= '\u{7f}' by {
        assert(is_digit(decimal(n)[i]));
    }
    is_ascii_chars_concat(a + boundary, a, boundary);
    is_ascii_chars_concat(a + boundary + b, a + boundary, b);
    is_ascii_chars_concat(a + boundary + b + decimal(n), a + boundary + b, decimal(n));
    is_ascii_chars_concat(
        a + boundary + b + decimal(n) + c,
        a + boundary + b + decimal(n),
        c,
    );
    is_ascii_chars_encode_utf8(part_header(boundary, n));
}

/// A header with white space is plain text where its boundary is.
proof fn lemma_spaced_header_is_ascii(
    boundary: Seq<char>,
    gap: Seq<char>,
    space: Seq<char>,
    digits: Seq<char>,
)
    requires
        is_plain(boundary),
        is_space(gap),
        is_space(space),
        is_numeral(digits),
    ensures
        is_ascii_chars(spaced_header(boundary, gap, space, digits)),
        parsed(digits, usize::MAX as nat) == (if numeral_value(digits) <= usize::MAX {
            Some(numeral_value(digits))
        } else {
            None
        }),
{
    reveal_strlit("--");
    reveal_strlit("\r\nContent-type: image/jpeg");
    reveal_strlit("Content-Length:");
    reveal_strlit("\r\n\r\n");
    let a = "--"@;
    let b = "\r\nContent-type: image/jpeg"@;
    let c = "Content-Length:"@;
    let d = "\r\n\r\n"@;
    assert(is_ascii_chars(a));
    assert(is_ascii_chars(b));
    assert(is_ascii_chars(c));
    assert(is_ascii_chars(d));
    assert(is_ascii_chars(boundary));
    assert(is_ascii_chars(gap));
    assert(is_ascii_chars(space));
    assert forall|i: int| 0 <= i < digits.len() implies '\0' <= #[trigger] digits[i] <= '\u{7f}' by {
        assert(is_digit(digits[i]));
    }
    is_ascii_chars_concat(a + boundary, a, boundary);
    is_ascii_chars_concat(a + boundary + b, a + boundary, b);
    is_ascii_chars_concat(a + boundary + b + gap, a + boundary + b, gap);
    is_ascii_chars_concat(a + boundary + b + gap + c, a + boundary + b + gap, c);
    is_ascii_chars_concat(a + boundary + b + gap + c + space, a + boundary + b + gap + c, space);
    is_ascii_chars_concat(
        a + boundary + b + gap + c + space + digits,
        a + boundary + b + gap + c + space,
        digits,
    );
    is_ascii_chars_concat(
        a + boundary + b + gap + c + space + digits + d,
        a + boundary + b + gap + c + space + digits,
        d,
    );
    assert(is_digit(digits[0]));
}

impl ElementReader {
    /// A reader of a stream whose parts `boundary` keeps apart. Nothing was read yet.
    pub fn new(boundary: String) -> (reader: Result<ElementReader, ReadFault>)
        ensures
            reader is Ok <==> is_pattern(header_pattern(boundary@)),
            is_plain(boundary@) ==> reader is Ok,
            reader matches Err(fault) ==> fault == ReadFault::BadPattern,
            reader matches Ok(r) ==> r@ == (ReaderView {
                boundary: boundary@,
                buffer: Seq::empty(),
                wanted: None,
            }),
    {
        let pattern = write_header_pattern(boundary.as_str());
        match compile(pattern.as_str()) {
            Err(_) => Err(ReadFault::BadPattern),
            Ok(()) => Ok(ElementReader { boundary, buffer: Vec::new(), wanted: None }),
        }
    }

    /// Cuts the part off what was read, once all of it is there.
    fn collect(&mut self, length: usize) -> (element: Option<Vec<u8>>)
        ensures
            ({
                let (reader, part) = collected(
                    old(self)@.boundary,
                    old(self)@.buffer,
                    length as nat,
                );
                &&& final(self)@ == reader
                &&& match element {
                    Some(e) => part == Some(e@),
                    None => part is None,
                }
            }),
    {
        if self.buffer.len() < length {
            self.wanted = Some(length);
            return None;
        }
        let rest = self.buffer.split_off(length);
        let mut element = Vec::new();
        std::mem::swap(&mut element, &mut self.buffer);
        self.buffer = rest;
        self.wanted = None;
        assert(element@ =~= old(self).buffer@.take(length as int));
        assert(self.buffer@ =~= old(self).buffer@.skip(length as int));
        Some(element)
    }

    /// Takes the next chunk of the stream, and hands out the part that it completes, if any.
    /// Where the stream goes on with a header of this library's own making, for a plain
    /// boundary, the part is the bytes that follow it. A part that the library has written is
    /// read back as the image with its line break.
    pub fn read_element(&mut self, chunk: &Vec<u8>) -> (element: Result<
        Option<Vec<u8>>,
        ReadFault,
    >)
        ensures
            match received(old(self)@, chunk@) {
                Ok((reader, part)) => final(self)@ == reader && (element matches Ok(e) && match e {
                    Some(bytes) => part == Some(bytes@),
                    None => part is None,
                }),
                Err(fault) => element == Err::<Option<Vec<u8>>, ReadFault>(fault) && final(self)@
                    == (ReaderView {
                    boundary: old(self)@.boundary,
                    buffer: old(self)@.buffer + chunk@,
                    wanted: None,
                }),
            },
            finds_plain_headers(old(self)@, chunk@),
            reads_own_parts(old(self)@, chunk@),
            reads_spaced_parts(old(self)@, chunk@),
            awaits_spaced_parts(old(self)@, chunk@),
    {
        self.buffer.extend_from_slice(chunk.as_slice());
        let ghost data = old(self).buffer@ + chunk@;
        assert(self.buffer@ =~= data);
        if let Some(length) = self.wanted {
            return Ok(self.collect(length));
        }
        let pattern = write_header_pattern(self.boundary.as_str());
        let text = to_text(self.buffer.as_slice());
        let found = match search(pattern.as_str(), text.as_str()) {
            Err(_) => {
                proof {
                    lemma_own_boundary_is_plain();
                }
                assert(!is_plain(self.boundary@));
                return Err(ReadFault::BadPattern);
            },
            Ok(found) => found,
        };
        proof {
            let boundary = old(self)@.boundary;
            assert forall|n: nat|
                is_plain(boundary) && n + 2 <= usize::MAX && #[trigger] encode_utf8(
                    part_header(boundary, n),
                ).is_prefix_of(data) implies opened(match_view(found), data.len()) == Ok::<
                _,
                ReadFault,
            >(Some((encode_utf8(part_header(boundary, n)).len(), n + 2))) by {
                lemma_part_header_is_ascii(boundary, n);
                assert(part_header(boundary, n).is_prefix_of(text@));
                law_numeral_reads_back(n, usize::MAX as nat);
            }
            assert forall|image: Seq<u8>, rest: Seq<u8>|
                boundary == own_boundary() && data == #[trigger] (part(image) + rest) implies opened(
                match_view(found),
                data.len(),
            ) == Ok::<_, ReadFault>(
                Some((encode_utf8(part_header(boundary, image.len())).len(), image.len() + 2)),
            ) && collected(
                boundary,
                data.skip(encode_utf8(part_header(boundary, image.len())).len() as int),
                image.len() + 2,
            ) == (
                ReaderView { boundary, buffer: rest, wanted: None },
                Some(image + line_break()),
            ) by {
                law_own_part_is_read_back(image, rest);
                assert(data.len() == self.buffer.len());
            }
            assert forall|gap: Seq<char>, space: Seq<char>, digits: Seq<char>|
                is_plain(boundary) && is_space(gap) && is_space(space) && is_numeral(digits)
                    && numeral_value(digits) + 2 <= usize::MAX && encode_utf8(
                    #[trigger] spaced_header(boundary, gap, space, digits),
                ).is_prefix_of(data) implies opened(match_view(found), data.len()) == Ok::<
                _,
                ReadFault,
            >(
                Some(
                    (
                        encode_utf8(spaced_header(boundary, gap, space, digits)).len(),
                        numeral_value(digits) + 2,
                    ),
                ),
            ) by {
                lemma_spaced_header_is_ascii(boundary, gap, space, digits);
                assert(spaced_header(boundary, gap, space, digits).is_prefix_of(text@));
            }
            assert forall|
                gap: Seq<char>,
                space: Seq<char>,
                digits: Seq<char>,
                body: Seq<u8>,
                rest: Seq<u8>,
            |
                is_plain(boundary) && is_space(gap) && is_space(space) && is_numeral(digits)
                    && body.len() == numeral_value(digits) + 2 && data == #[trigger] (encode_utf8(
                    spaced_header(boundary, gap, space, digits),
                ) + body + rest) implies opened(match_view(found), data.len()) == Ok::<
                _,
                ReadFault,
            >(
                Some(
                    (
                        encode_utf8(spaced_header(boundary, gap, space, digits)).len(),
                        numeral_value(digits) + 2,
                    ),
                ),
            ) && collected(
                boundary,
                data.skip(encode_utf8(spaced_header(boundary, gap, space, digits)).len() as int),
                numeral_value(digits) + 2,
            ) == (ReaderView { boundary, buffer: rest, wanted: None }, Some(body)) by {
                let header = encode_utf8(spaced_header(boundary, gap, space, digits));
                assert(data.len() == self.buffer.len());
                assert(header =~= data.take(header.len() as int));
                assert(data.skip(header.len() as int) =~= body + rest);
                assert((body + rest).take(body.len() as int) =~= body);
                assert((body + rest).skip(body.len() as int) =~= rest);
            }
            assert forall|gap: Seq<char>, space: Seq<char>, digits: Seq<char>, begun: Seq<u8>|
                is_plain(boundary) && is_space(gap) && is_space(space) && is_numeral(digits)
                    && begun.len() < numeral_value(digits) + 2 <= usize::MAX && data
                    == #[trigger] (encode_utf8(spaced_header(boundary, gap, space, digits))
                    + begun) implies opened(match_view(found), data.len()) == Ok::<_, ReadFault>(
                Some(
                    (
                        encode_utf8(spaced_header(boundary, gap, space, digits)).len(),
                        numeral_value(digits) + 2,
                    ),
                ),
            ) && data.skip(encode_utf8(spaced_header(boundary, gap, space, digits)).len() as int)
                == begun by {
                let header = encode_utf8(spaced_header(boundary, gap, space, digits));
                assert(header =~= data.take(header.len() as int));
                assert(data.skip(header.len() as int) =~= begun);
            }
        }
        match open_element(&found, self.buffer.len()) {
            Err(fault) => Err(fault),
            Ok(None) => Ok(Some(Vec::new())),
            Ok(Some((skipped, length))) => {
                let rest = self.buffer.split_off(skipped);
                assert(rest@ =~= data.skip(skipped as int));
                self.buffer = rest;
                Ok(self.collect(length))
            },
        }
    }
}

/// The boundary of this library's own streams is plain.
proof fn lemma_own_boundary_is_plain()
    ensures
        is_plain(own_boundary()),
{
    reveal_strlit("BoundaryString");
}

/// What the library writes it can read: a stream that goes on with a part of its own begins with
/// a header that `read_element` finds, and what it collects from there is the image with its line
/// break. What follows the part is kept for the next one.
pub proof fn law_own_part_is_read_back(image: Seq<u8>, rest: Seq<u8>)
    ensures
        ({
            let header = encode_utf8(part_header(own_boundary(), image.len()));
            let stream = part(image) + rest;
            &&& is_plain(own_boundary())
            &&& header.is_prefix_of(stream)
            &&& collected(own_boundary(), stream.skip(header.len() as int), image.len() + 2) == (
                ReaderView { boundary: own_boundary(), buffer: rest, wanted: None },
                Some(image + line_break()),
            )
        }),
{
    lemma_own_boundary_is_plain();
    let header = encode_utf8(part_header(own_boundary(), image.len()));
    let stream = part(image) + rest;
    let body = image + line_break();
    assert(header =~= stream.take(header.len() as int));
    assert(stream.skip(header.len() as int) =~= body + rest);
    assert((body + rest).take(body.len() as int) =~= body);
    assert((body + rest).skip(body.len() as int) =~= rest);
}

/// What a reader makes of one chunk after the other, up to the first part that is complete:
/// itself afterwards, the part, and the chunks that are left.
pub open spec fn read_on(reader: ReaderView, chunks: Seq<Seq<u8>>) -> Option<
    (ReaderView, Seq<u8>, Seq<Seq<u8>>),
>
    decreases chunks.len(),
{
    if chunks.len() == 0 {
        None
    } else {
        match received(reader, chunks[0]) {
            Err(_) => None,
            Ok((after, Some(part))) => Some((after, part, chunks.drop_first())),
            Ok((after, None)) => read_on(after, chunks.drop_first()),
        }
    }
}

/// Where a part is cut into chunks does not matter: once a part of `length` bytes has begun, the
/// next `length` bytes are the part, and of what follows nothing is lost and nothing comes twice.
pub proof fn law_chunks_do_not_matter(reader: ReaderView, chunks: Seq<Seq<u8>>, length: nat)
    requires
        reader.wanted == Some(length),
        reader.buffer.len() < length,
        reader.buffer.len() + chunks.flatten().len() >= length,
    ensures
        ({
            let stream = reader.buffer + chunks.flatten();
            read_on(reader, chunks) matches Some((after, part, left)) && {
                &&& part == stream.take(length as int)
                &&& after.buffer + left.flatten() == stream.skip(length as int)
                &&& after.wanted is None
                &&& after.boundary == reader.boundary
            }
        }),
    decreases chunks.len(),
{
    if chunks.len() == 0 {
        assert(chunks.flatten().len() == 0);
    } else {
        let stream = reader.buffer + chunks.flatten();
        let data = reader.buffer + chunks[0];
        let left = chunks.drop_first();
        assert(stream =~= data + left.flatten());
        if data.len() < length {
            let after = ReaderView { boundary: reader.boundary, buffer: data, wanted: Some(length) };
            law_chunks_do_not_matter(after, left, length);
        } else {
            assert(data.take(length as int) =~= stream.take(length as int));
            assert(data.skip(length as int) + left.flatten() =~= stream.skip(length as int));
        }
    }
}

/// A part of the library's own that comes in chunks is read back whole, if its header is within
/// the first of them, where it is found as `read_element` promises.
pub proof fn law_own_part_is_read_back_in_chunks(
    reader: ReaderView,
    chunks: Seq<Seq<u8>>,
    image: Seq<u8>,
    rest: Seq<u8>,
)
    requires
        chunks.len() > 0,
        reader.boundary == own_boundary(),
        reader.buffer + chunks.flatten() == part(image) + rest,
        encode_utf8(part_header(own_boundary(), image.len())).is_prefix_of(
            reader.buffer + chunks[0],
        ),
        reader.wanted is None,
        image.len() + 2 <= usize::MAX,
        finds_plain_headers(reader, chunks[0]),
    ensures
        read_on(reader, chunks) matches Some((after, part, left)) && {
            &&& part == image + line_break()
            &&& after.buffer + left.flatten() == rest
        },
{
    let header = encode_utf8(part_header(own_boundary(), image.len()));
    let stream = part(image) + rest;
    let body = image + line_break();
    let left = chunks.drop_first();
    let data = reader.buffer + chunks[0];
    let length = image.len() + 2;
    let begun = data.skip(header.len() as int);
    law_own_part_is_read_back(image, rest);
    assert(stream =~= data + left.flatten());
    assert(stream.skip(header.len() as int) =~= begun + left.flatten());
    assert(stream.skip(header.len() as int) =~= body + rest);
    assert((body + rest).take(length as int) =~= body);
    assert((body + rest).skip(length as int) =~= rest);
    if begun.len() < length {
        let after = ReaderView { boundary: own_boundary(), buffer: begun, wanted: Some(length) };
        law_chunks_do_not_matter(after, left, length);
    } else {
        assert(begun.take(length as int) =~= (begun + left.flatten()).take(length as int));
        assert(begun.skip(length as int) + left.flatten() =~= (begun + left.flatten()).skip(
            length as int,
        ));
    }
}

/// What comes of a part that begins with a header, for a plain boundary, however it is cut into
/// chunks: the bytes that the header announces, and what is left is what follows them.
proof fn lemma_read_on(reader: ReaderView, chunks: Seq<Seq<u8>>, n: nat)
    requires
        reader.wanted is None,
        is_plain(reader.boundary),
        n + 2 <= usize::MAX,
        chunks.len() > 0,
        finds_plain_headers(reader, chunks[0]),
        encode_utf8(part_header(reader.boundary, n)).is_prefix_of(reader.buffer + chunks[0]),
        encode_utf8(part_header(reader.boundary, n)).len() + n + 2 <= (reader.buffer
            + chunks.flatten()).len(),
    ensures
        ({
            let header = encode_utf8(part_header(reader.boundary, n));
            let body = (reader.buffer + chunks.flatten()).skip(header.len() as int);
            read_on(reader, chunks) matches Some((after, part, left)) && {
                &&& part == body.take(n as int + 2)
                &&& after.buffer + left.flatten() == body.skip(n as int + 2)
                &&& after.wanted is None
                &&& after.boundary == reader.boundary
            }
        }),
{
    let header = encode_utf8(part_header(reader.boundary, n));
    let stream = reader.buffer + chunks.flatten();
    let left = chunks.drop_first();
    let data = reader.buffer + chunks[0];
    let begun = data.skip(header.len() as int);
    let body = stream.skip(header.len() as int);
    assert(stream =~= data + left.flatten());
    assert(body =~= begun + left.flatten());
    if begun.len() < n + 2 {
        let after = ReaderView { boundary: reader.boundary, buffer: begun, wanted: Some(n + 2) };
        law_chunks_do_not_matter(after, left, n + 2);
    } else {
        assert(begun.take(n as int + 2) =~= body.take(n as int + 2));
        assert(begun.skip(n as int + 2) + left.flatten() =~= body.skip(n as int + 2));
    }
}

/// Two cuts of the same bytes are read alike: where both begin with the whole header of a part, for
/// a plain boundary, and hold the whole part, the part is the same, and so is what is left. That
/// the header is found in the first chunk is what `read_element` promises.
pub proof fn law_cuts_are_read_alike(
    reader: ReaderView,
    one: Seq<Seq<u8>>,
    other: Seq<Seq<u8>>,
    n: nat,
)
    requires
        reader.wanted is None,
        is_plain(reader.boundary),
        n + 2 <= usize::MAX,
        one.len() > 0 && other.len() > 0,
        one.flatten() == other.flatten(),
        finds_plain_headers(reader, one[0]),
        finds_plain_headers(reader, other[0]),
        encode_utf8(part_header(reader.boundary, n)).is_prefix_of(reader.buffer + one[0]),
        encode_utf8(part_header(reader.boundary, n)).is_prefix_of(reader.buffer + other[0]),
        encode_utf8(part_header(reader.boundary, n)).len() + n + 2 <= (reader.buffer
            + one.flatten()).len(),
    ensures
        read_on(reader, one) matches Some((after, part, left)) && read_on(reader, other) matches
            Some((after_other, part_other, left_other)) && {
            &&& part == part_other
            &&& part.len() == n + 2
            &&& after.buffer + left.flatten() == after_other.buffer + left_other.flatten()
        },
{
    lemma_read_on(reader, one, n);
    lemma_read_on(reader, other, n);
}

/// A part is the bytes that it is said to have, from the first on, and what follows them is kept;
/// while they are not all there all is kept, and nothing is handed out.
pub proof fn law_a_part_is_cut_off(boundary: Seq<char>, part: Seq<u8>, rest: Seq<u8>, more: nat)
    ensures
        collected(boundary, part + rest, part.len()) == (
            ReaderView { boundary, buffer: rest, wanted: None },
            Some(part),
        ),
        more > 0 ==> collected(boundary, part, part.len() + more) == (
            ReaderView { boundary, buffer: part, wanted: Some(part.len() + more) },
            None::<Seq<u8>>,
        ),
{
    assert((part + rest).take(part.len() as int) =~= part);
    assert((part + rest).skip(part.len() as int) =~= rest);
}

/// Whatever header was found, the part is exactly as many bytes as it announces and two for the
/// line break, counted from where as many bytes as the header has end; and what follows is kept.
pub proof fn law_a_header_announces_its_part(
    reader: ReaderView,
    chunk: Seq<u8>,
    header: Seq<char>,
    digits: Seq<char>,
    start: Seq<u8>,
    body: Seq<u8>,
    rest: Seq<u8>,
)
    requires
        reader.wanted is None,
        is_pattern(header_pattern(reader.boundary)),
        reader.buffer + chunk == start + body + rest,
        first_match(header_pattern(reader.boundary), lossy_text(reader.buffer + chunk)) == Some(
            (header, Some(digits)),
        ),
        start.len() == encode_utf8(header).len(),
        body.len() <= usize::MAX,
        parsed(digits, usize::MAX as nat) matches Some(n) && body.len() == n + 2,
    ensures
        received(reader, chunk) == Ok::<_, ReadFault>(
            (
                ReaderView { boundary: reader.boundary, buffer: rest, wanted: None },
                Some(body),
            ),
        ),
{
    let data = reader.buffer + chunk;
    assert(data.skip(start.len() as int) =~= body + rest);
    law_a_part_is_cut_off(reader.boundary, body, rest, 0);
}

/// A part that has begun goes on with the next chunk, whatever that holds.
pub proof fn law_a_part_goes_on(reader: ReaderView, chunk: Seq<u8>, body: Seq<u8>, rest: Seq<u8>)
    requires
        reader.wanted == Some(body.len()),
    ensures
        reader.buffer + chunk == body + rest ==> received(reader, chunk) == Ok::<_, ReadFault>(
            (
                ReaderView { boundary: reader.boundary, buffer: rest, wanted: None },
                Some(body),
            ),
        ),
        (reader.buffer + chunk).len() < body.len() ==> received(reader, chunk) == Ok::<
            _,
            ReadFault,
        >(
            (
                ReaderView {
                    boundary: reader.boundary,
                    buffer: reader.buffer + chunk,
                    wanted: Some(body.len()),
                },
                None::<Seq<u8>>,
            ),
        ),
{
    law_a_part_is_cut_off(reader.boundary, body, rest, 0);
}

/// At the start of a part: without a header the part is empty and all is kept; a boundary that makes
/// no pattern, a header without a length, a length that is no number or leaves no room for the line
/// break, and a header longer than what was read are faults of their own.
pub proof fn law_what_is_no_part(
    reader: ReaderView,
    chunk: Seq<u8>,
    header: Seq<char>,
    digits: Seq<char>,
)
    requires
        reader.wanted is None,
    ensures
        ({
            let data = reader.buffer + chunk;
            let found = first_match(header_pattern(reader.boundary), lossy_text(data));
            let outcome = received(reader, chunk);
            &&& !is_pattern(header_pattern(reader.boundary)) ==> outcome == Err::<
                (ReaderView, Option<Seq<u8>>),
                ReadFault,
            >(ReadFault::BadPattern)
            &&& is_pattern(header_pattern(reader.boundary)) ==> {
                &&& found is None ==> outcome == Ok::<_, ReadFault>(
                    (
                        ReaderView { boundary: reader.boundary, buffer: data, wanted: None },
                        Some(Seq::<u8>::empty()),
                    ),
                )
                &&& found == Some((header, None::<Seq<char>>)) ==> outcome == Err::<
                    (ReaderView, Option<Seq<u8>>),
                    ReadFault,
                >(ReadFault::NoLength)
                &&& found == Some((header, Some(digits))) && parsed(
                    digits,
                    usize::MAX as nat,
                ) is None ==> outcome == Err::<(ReaderView, Option<Seq<u8>>), ReadFault>(
                    ReadFault::BadLength,
                )
                &&& found == Some((header, Some(digits))) && (parsed(
                    digits,
                    usize::MAX as nat,
                ) matches Some(n) && n + 2 > usize::MAX) ==> outcome == Err::<
                    (ReaderView, Option<Seq<u8>>),
                    ReadFault,
                >(ReadFault::NoRoom)
                &&& found == Some((header, Some(digits))) && (parsed(
                    digits,
                    usize::MAX as nat,
                ) matches Some(n) && n + 2 <= usize::MAX) && encode_utf8(header).len()
                    > data.len() ==> outcome == Err::<(ReaderView, Option<Seq<u8>>), ReadFault>(
                    ReadFault::Overrun,
                )
            }
        }),
{
}

/// What a search means, for each thing that it can find.
pub proof fn law_what_is_found_opens_a_part(
    header: Seq<char>,
    digits: Seq<char>,
    buffered: nat,
)
    ensures
        opened(None, buffered) == Ok::<Option<(nat, nat)>, ReadFault>(None),
        opened(Some((header, None)), buffered) == Err::<Option<(nat, nat)>, ReadFault>(
            ReadFault::NoLength,
        ),
        parsed(digits, usize::MAX as nat) matches Some(n) ==> (n + 2 <= usize::MAX && encode_utf8(
            header,
        ).len() <= buffered ==> opened(Some((header, Some(digits))), buffered) == Ok::<
            Option<(nat, nat)>,
            ReadFault,
        >(Some((encode_utf8(header).len(), n + 2)))),
{
}

/// A boundary that makes no pattern and a bad length are left behind with the connection. The other
/// faults are for good.
pub proof fn law_which_faults_are_fatal(fault: ReadFault)
    ensures
        fault.spec_is_fatal() <==> fault != ReadFault::BadPattern && fault != ReadFault::BadLength,
{
}

} // verus!
