//! What a client is sent: the head of the response, then one part for each image.
use vstd::prelude::*;
use vstd::string::*;
use vstd::utf8::*;

use crate::decimal::{decimal, write_decimal};
use crate::jpeg::{
    is_resized, jpeg_dimensions, jpeg_file, jpeg_header, jpeg_pixels, rescale, resized_pixels,
    resizes, scaled, shows_width, too_large, ImageFault,
};
use crate::scale::{height_at, law_same_width_keeps_height};
use crate::scans::scans_are_sound;

verus! {

/// The boundary between the parts of the stream.
pub open spec fn own_boundary() -> Seq<char> {
    "BoundaryString"@
}

/// The content type of the stream.
pub open spec fn stream_content_type() -> Seq<char> {
    "multipart/x-mixed-replace; boundary="@ + own_boundary()
}

/// The head of every response.
pub open spec fn response_head_text() -> Seq<char> {
    "HTTP/1.0 200 OK\r\nServer: Motion/4.1.1\r\nConnection: close\r\nMax-Age: 0\r\nExpires: 0\r\nCache-Control: no-cache, private\r\nPragma: no-cache\r\nContent-Type: "@
        + stream_content_type() + "\r\n\r\n"@
}

/// The header of a part of `length` bytes in a stream whose parts `boundary` keeps apart.
pub open spec fn part_header(boundary: Seq<char>, length: nat) -> Seq<char> {
    "--"@ + boundary + "\r\nContent-type: image/jpeg\r\nContent-Length: "@ + decimal(length)
        + "\r\n\r\n"@
}

/// The line break that ends a part.
pub open spec fn line_break() -> Seq<u8> {
    seq![13u8, 10u8]
}

/// The part that carries `image`: its header, the image as it is, and a line break.
pub open spec fn part(image: Seq<u8>) -> Seq<u8> {
    encode_utf8(part_header(own_boundary(), image.len())) + image + line_break()
}

/// The head of every response, in bytes.
pub fn response_head() -> (head: Vec<u8>)
    ensures
        head@ == encode_utf8(response_head_text()),
{
    let mut head = "HTTP/1.0 200 OK\r\nServer: Motion/4.1.1\r\nConnection: close\r\nMax-Age: 0\r\nExpires: 0\r\nCache-Control: no-cache, private\r\nPragma: no-cache\r\nContent-Type: ".to_owned();
    head.append("multipart/x-mixed-replace; boundary=");
    head.append("BoundaryString");
    head.append("\r\n\r\n");
    assert(head@ =~= response_head_text());
    head.as_str().as_bytes_vec()
}

/// Makes a part of an image.
pub fn frame(image: &Vec<u8>) -> (bytes: Vec<u8>)
    ensures
        bytes@ == part(image@),
{
    let mut header = "--".to_owned();
    header.append("BoundaryString");
    header.append("\r\nContent-type: image/jpeg\r\nContent-Length: ");
    header.append(write_decimal(image.len() as u64).as_str());
    header.append("\r\n\r\n");
    let mut bytes = header.as_str().as_bytes_vec();
    bytes.extend_from_slice(image.as_slice());
    bytes.push(13);
    bytes.push(10);
    assert(bytes@ =~= part(image@));
    bytes
}

/// The image that a client which asked for `width` is sent for `jpeg`.
pub open spec fn served(jpeg: Seq<u8>, width: Option<u16>) -> Seq<u8> {
    match width {
        Some(w) if jpeg_header(jpeg).unwrap().0 != w => scaled(jpeg, w),
        _ => jpeg,
    }
}

/// Whether `jpeg` has to be resized for a client which asked for `width`.
pub open spec fn needs_resizing(jpeg: Seq<u8>, width: Option<u16>) -> bool {
    width is Some && jpeg_header(jpeg) is Some && jpeg_header(jpeg).unwrap().0 != width.unwrap()
}

/// Whether `file` is the JPEG image in `jpeg` at a width: the image as it is, if it has the width,
/// and otherwise the resized one. Its header shows the width.
pub open spec fn is_prepared(file: Seq<u8>, jpeg: Seq<u8>, width: u16) -> bool {
    &&& jpeg_header(jpeg) is Some
    &&& file == served(jpeg, Some(width))
    &&& file.len() > 0
    &&& shows_width(file, jpeg_header(jpeg).unwrap(), width)
    &&& needs_resizing(jpeg, Some(width)) ==> is_resized(file, jpeg, width)
}

/// Whether this is what comes of preparing `jpeg` for clients of a width: the image at that width;
/// or a fault, if it is no JPEG image, or has another width and cannot be resized.
pub open spec fn prepares(
    outcome: Result<Vec<u8>, ImageFault>,
    jpeg: Seq<u8>,
    width: u16,
) -> bool {
    match outcome {
        Ok(file) => is_prepared(file@, jpeg, width),
        Err(ImageFault::NotJpeg) => jpeg_header(jpeg) is None,
        Err(ImageFault::UnsoundScans) => needs_resizing(jpeg, Some(width)) && !scans_are_sound(
            jpeg,
        ),
        Err(ImageFault::Undecodable) => {
            &&& needs_resizing(jpeg, Some(width))
            &&& scans_are_sound(jpeg)
            &&& jpeg_pixels(jpeg).2
        },
        Err(ImageFault::TooLarge) => {
            &&& needs_resizing(jpeg, Some(width))
            &&& scans_are_sound(jpeg)
            &&& too_large(jpeg_header(jpeg).unwrap(), jpeg_pixels(jpeg).0, width)
        },
        Err(ImageFault::Unencodable) => false,
    }
}

/// Whether this is what comes of packaging `jpeg` for a client which asked for `width`: the part
/// that carries the image, at that width; or the fault of preparing it.
pub open spec fn packages(
    outcome: Result<Vec<u8>, ImageFault>,
    jpeg: Seq<u8>,
    width: Option<u16>,
) -> bool {
    match (outcome, width) {
        (Ok(bytes), None) => bytes@ == part(jpeg),
        (Ok(bytes), Some(w)) => bytes@ == part(served(jpeg, width)) && is_prepared(
            served(jpeg, width),
            jpeg,
            w,
        ),
        (Err(_), None) => false,
        (Err(fault), Some(w)) => prepares(Err(fault), jpeg, w),
    }
}

/// The image at a width.
pub fn prepare_jpeg(jpeg: Vec<u8>, width: u16) -> (file: Result<Vec<u8>, ImageFault>)
    ensures
        prepares(file, jpeg@, width),
        jpeg@.len() < 2 ==> file is Err,
{
    match jpeg_dimensions(&jpeg) {
        Err(fault) => Err(fault),
        Ok((own_width, height)) => {
            if own_width == width as u32 {
                proof {
                    law_same_width_keeps_height(own_width as nat, height as nat);
                }
                Ok(jpeg)
            } else {
                rescale(&jpeg, width)
            }
        },
    }
}

/// Makes a part of an image, at the width that the client asked for, if it asked for one.
pub fn package_jpegs(jpeg: Vec<u8>, width: Option<u16>) -> (bytes: Result<Vec<u8>, ImageFault>)
    ensures
        packages(bytes, jpeg@, width),
        jpeg@.len() < 2 && width is Some ==> bytes is Err,
{
    match width {
        None => Ok(frame(&jpeg)),
        Some(new_width) => match prepare_jpeg(jpeg, new_width) {
            Err(fault) => Err(fault),
            Ok(file) => Ok(frame(&file)),
        },
    }
}

/// A part is the boundary, the content type, the length of the image as a numeral, an empty line,
/// the image as it is, and a line break; nothing else.
pub proof fn law_part_carries_the_image(image: Seq<u8>)
    ensures
        part(image) == encode_utf8(
            "--BoundaryString\r\nContent-type: image/jpeg\r\nContent-Length: "@ + decimal(image.len())
                + "\r\n\r\n"@,
        ) + image + seq![13u8, 10u8],
        part(image).len() >= image.len() + 2,
        part(image).skip(part(image).len() - image.len() - 2) == image + seq![13u8, 10u8],
{
    let whole = "--BoundaryString\r\nContent-type: image/jpeg\r\nContent-Length: "@;
    reveal_strlit("--");
    reveal_strlit("BoundaryString");
    reveal_strlit("\r\nContent-type: image/jpeg\r\nContent-Length: ");
    reveal_strlit("--BoundaryString\r\nContent-type: image/jpeg\r\nContent-Length: ");
    assert("--"@ + "BoundaryString"@ + "\r\nContent-type: image/jpeg\r\nContent-Length: "@
        =~= whole);
    assert(part_header(own_boundary(), image.len()) =~= whole + decimal(image.len())
        + "\r\n\r\n"@);
    assert(part(image).skip(part(image).len() - image.len() - 2) =~= image + seq![13u8, 10u8]);
}

/// The header of a part names the boundary, the content type and the length.
pub proof fn law_header_names_boundary_and_length(boundary: Seq<char>, length: nat)
    ensures
        part_header(boundary, length) == "--"@ + boundary
            + "\r\nContent-type: image/jpeg\r\nContent-Length: "@ + decimal(length) + "\r\n\r\n"@,
{
}

/// The head of every response announces a stream of parts with this library's boundary, and ends
/// with an empty line.
pub proof fn law_head_announces_the_boundary()
    ensures
        response_head_text()
            == "HTTP/1.0 200 OK\r\nServer: Motion/4.1.1\r\nConnection: close\r\nMax-Age: 0\r\nExpires: 0\r\nCache-Control: no-cache, private\r\nPragma: no-cache\r\nContent-Type: multipart/x-mixed-replace; boundary=BoundaryString\r\n\r\n"@,
        stream_content_type() == "multipart/x-mixed-replace; boundary=BoundaryString"@,
        own_boundary() == "BoundaryString"@,
{
    reveal_strlit("BoundaryString");
    reveal_strlit("multipart/x-mixed-replace; boundary=");
    reveal_strlit("multipart/x-mixed-replace; boundary=BoundaryString");
    reveal_strlit("\r\n\r\n");
    reveal_strlit(
        "HTTP/1.0 200 OK\r\nServer: Motion/4.1.1\r\nConnection: close\r\nMax-Age: 0\r\nExpires: 0\r\nCache-Control: no-cache, private\r\nPragma: no-cache\r\nContent-Type: ",
    );
    reveal_strlit(
        "HTTP/1.0 200 OK\r\nServer: Motion/4.1.1\r\nConnection: close\r\nMax-Age: 0\r\nExpires: 0\r\nCache-Control: no-cache, private\r\nPragma: no-cache\r\nContent-Type: multipart/x-mixed-replace; boundary=BoundaryString\r\n\r\n",
    );
    assert(stream_content_type() =~= "multipart/x-mixed-replace; boundary=BoundaryString"@);
    assert(response_head_text()
        =~= "HTTP/1.0 200 OK\r\nServer: Motion/4.1.1\r\nConnection: close\r\nMax-Age: 0\r\nExpires: 0\r\nCache-Control: no-cache, private\r\nPragma: no-cache\r\nContent-Type: multipart/x-mixed-replace; boundary=BoundaryString\r\n\r\n"@);
}

/// Preparing an image for a width: where it has the width it comes out as it is, without fail, and
/// where it has another, what comes out is what comes of resizing it.
pub proof fn law_preparing_resizes_if_need_be(
    outcome: Result<Vec<u8>, ImageFault>,
    jpeg: Seq<u8>,
    width: u16,
)
    requires
        prepares(outcome, jpeg, width),
    ensures
        jpeg_header(jpeg) is None ==> outcome == Err::<Vec<u8>, ImageFault>(ImageFault::NotJpeg),
        jpeg_header(jpeg) matches Some(sides) && sides.0 == width ==> (outcome matches Ok(file)
            && file@ == jpeg && file@.len() > 0),
        jpeg_header(jpeg) matches Some(sides) && sides.0 != width ==> resizes(outcome, jpeg, width),
{
}

/// Packaging an image: without a width, or at its own, it is framed as it is, without fail; at
/// another width what is framed is the resized file; and a fault is that of resizing.
pub proof fn law_packaging_frames_the_image(
    outcome: Result<Vec<u8>, ImageFault>,
    jpeg: Seq<u8>,
    width: Option<u16>,
)
    requires
        packages(outcome, jpeg, width),
    ensures
        width is None ==> (outcome matches Ok(bytes) && bytes@ == part(jpeg)),
        width matches Some(w) ==> match jpeg_header(jpeg) {
            None => outcome == Err::<Vec<u8>, ImageFault>(ImageFault::NotJpeg),
            Some(sides) if sides.0 == w => outcome matches Ok(bytes) && bytes@ == part(jpeg),
            Some((own_width, height)) => match outcome {
                Ok(bytes) => {
                    let (rgb, pixels, _) = jpeg_pixels(jpeg);
                    let new_height = height_at(own_width as nat, height as nat, w as nat) as u16;
                    let file = jpeg_file(
                        w,
                        new_height,
                        rgb,
                        resized_pixels(own_width, height, rgb, pixels, w, new_height),
                    );
                    &&& bytes@ == part(file)
                    &&& w > 0 && new_height > 0 ==> jpeg_header(file) == Some(
                        (w as u32, new_height as u32),
                    )
                },
                Err(fault) => resizes(Err(fault), jpeg, w),
            },
        },
{
}

} // verus!
