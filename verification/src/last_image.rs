//! The image that came in last, for clients that connect before the next one does.
use std::collections::HashMap;
use vstd::prelude::*;

use crate::frame::{needs_resizing, prepare_jpeg, prepares};
use crate::jpeg::{is_resized, jpeg_dimensions, jpeg_header, rescale, resizes, ImageFault};

verus! {

broadcast use vstd::std_specs::hash::group_hash_axioms;

/// The image that came in last. It is empty until one has come in. The files that were made of it
/// for other widths are kept with it.
pub struct LastImage {
    bytes: Vec<u8>,
    files: HashMap<u16, Vec<u8>>,
}

/// `LastImage`, as it stands in contracts.
#[verifier::ext_equal]
pub struct LastView {
    pub image: Seq<u8>,
    pub files: Map<u16, Seq<u8>>,
}

/// An image of which no file was made yet.
pub open spec fn just_in(image: Seq<u8>) -> LastView {
    LastView { image, files: Map::empty() }
}

/// The same image, once a file was made of it for a width.
pub open spec fn with_file(last: LastView, width: u16, file: Seq<u8>) -> LastView {
    LastView { image: last.image, files: last.files.insert(width, file) }
}

impl View for LastImage {
    type V = LastView;

    closed spec fn view(&self) -> LastView {
        LastView { image: self.bytes@, files: self.files@.map_values(|file: Vec<u8>| file@) }
    }
}

impl LastImage {
    /// Every file that is kept is the image at that width.
    pub open spec fn wf(&self) -> bool {
        forall|width: u16| #[trigger]
            self@.files.contains_key(width) ==> is_resized(
                self@.files[width],
                self@.image,
                width,
            )
    }

    /// No image yet.
    pub fn new() -> (last: LastImage)
        ensures
            last.wf(),
            last@ == just_in(Seq::empty()),
            last@.image.len() == 0,
            last@.files == Map::<u16, Seq<u8>>::empty(),
    {
        let last = LastImage { bytes: Vec::new(), files: HashMap::new() };
        assert(last@.files =~= Map::empty());
        last
    }

    /// Whether this is the image that came in last.
    pub fn holds(&self, image: &Vec<u8>) -> (same: bool)
        ensures
            same == (image@ == self@.image),
    {
        if image.len() != self.bytes.len() {
            return false;
        }
        let mut i: usize = 0;
        while i < image.len()
            invariant
                i <= image@.len(),
                image@.len() == self.bytes@.len(),
                forall|j: int| 0 <= j < i ==> image@[j] == self.bytes@[j],
            decreases image@.len() - i,
        {
            if image[i] != self.bytes[i] {
                return false;
            }
            i = i + 1;
        }
        assert(image@ =~= self.bytes@);
        true
    }

    /// The file of the image, resized to a width. It is made only if none was made of this image
    /// before.
    fn resize(&mut self, width: u16) -> (file: Result<Vec<u8>, ImageFault>)
        requires
            old(self).wf(),
        ensures
            final(self).wf(),
            resizes(file, old(self)@.image, width),
            old(self)@.files.contains_key(width) ==> file is Ok,
            final(self)@ == (match file {
                Ok(f) => with_file(old(self)@, width, f@),
                Err(_) => old(self)@,
            }),
    {
        if let Some(kept) = self.files.get(&width) {
            let file = kept.clone();
            assert(self@.files.contains_key(width));
            assert(file@ =~= self@.files[width]);
            assert(self@ =~= with_file(old(self)@, width, file@));
            return Ok(file);
        }
        match rescale(&self.bytes, width) {
            Err(fault) => Err(fault),
            Ok(file) => {
                let copy = file.clone();
                assert(copy@ =~= file@);
                self.files.insert(width, copy);
                assert(self@ =~= with_file(old(self)@, width, file@));
                Ok(file)
            },
        }
    }
}

/// Whether this is what comes of preparing the image that came in last for clients of a width, and
/// what is kept of it afterwards: the file that was made of it, if one was. Where a file was kept
/// before, it is the outcome.
pub open spec fn prepares_last(
    before: LastView,
    outcome: Result<Vec<u8>, ImageFault>,
    after: LastView,
    width: u16,
) -> bool {
    &&& prepares(outcome, before.image, width)
    &&& needs_resizing(before.image, Some(width)) && before.files.contains_key(width)
        ==> outcome is Ok
    &&& after == (match outcome {
        Ok(file) if needs_resizing(before.image, Some(width)) => with_file(before, width, file@),
        _ => before,
    })
}

/// The image that came in last, at a width. It is resized only if it was not resized to this width
/// before.
pub fn prepare_last_image(last: &mut LastImage, width: u16) -> (file: Result<Vec<u8>, ImageFault>)
    requires
        old(last).wf(),
    ensures
        final(last).wf(),
        prepares_last(old(last)@, file, final(last)@, width),
{
    match jpeg_dimensions(&last.bytes) {
        Err(fault) => Err(fault),
        Ok((own_width, _)) => {
            if own_width == width as u32 {
                prepare_jpeg(get_last_image(last), width)
            } else {
                last.resize(width)
            }
        },
    }
}

/// A copy of the image that came in last.
pub fn get_last_image(last: &LastImage) -> (image: Vec<u8>)
    ensures
        image@ == last@.image,
{
    let image = last.bytes.clone();
    assert(image@ =~= last.bytes@);
    image
}

/// Keeps `new` as the image that came in last. The files of the one before are dropped.
pub fn set_last_image(last: &mut LastImage, new: Vec<u8>)
    ensures
        final(last).wf(),
        final(last)@ == just_in(new@),
        final(last)@.image == new@,
        final(last)@.files == Map::<u16, Seq<u8>>::empty(),
{
    last.bytes.clear();
    last.bytes.extend_from_slice(new.as_slice());
    last.files = HashMap::new();
    assert(last.bytes@ =~= new@);
    assert(last@.files =~= Map::empty());
}

/// What is set as the image that came in last is what is kept, byte for byte and in full length, and
/// nothing that was made of another image is kept with it.
pub proof fn law_what_is_set_is_kept(image: Seq<u8>)
    ensures
        just_in(image).image == image,
        just_in(image).image.len() == image.len(),
        forall|width: u16| !(#[trigger] just_in(image).files.contains_key(width)),
{
}

/// A file that is kept for a width does not touch the image, nor the files of other widths.
pub proof fn law_a_file_is_kept_beside_the_image(last: LastView, width: u16, file: Seq<u8>)
    ensures
        with_file(last, width, file).image == last.image,
        with_file(last, width, file).files.contains_key(width),
        with_file(last, width, file).files[width] == file,
        forall|other: u16|
            other != width ==> (#[trigger] with_file(last, width, file).files.contains_key(other)
                <==> last.files.contains_key(other)),
        forall|other: u16|
            other != width && last.files.contains_key(other) ==> #[trigger] with_file(
                last,
                width,
                file,
            ).files[other] == last.files[other],
{
}

/// Preparing the image that came in last leaves the image as it is, and prepares it as any other. A
/// file that was kept for the width is what comes out, and one that was made is kept.
pub proof fn law_preparing_the_last_image(
    before: LastView,
    outcome: Result<Vec<u8>, ImageFault>,
    after: LastView,
    width: u16,
)
    requires
        prepares_last(before, outcome, after, width),
        before.files.contains_key(width) ==> is_resized(before.files[width], before.image, width),
    ensures
        prepares(outcome, before.image, width),
        after.image == before.image,
        jpeg_header(before.image) matches Some(sides) && sides.0 != width
            && before.files.contains_key(width) ==> (outcome matches Ok(file) && file@
            == before.files[width]),
        jpeg_header(before.image) matches Some(sides) && sides.0 != width ==> (outcome matches Ok(
            file,
        ) ==> after.files.contains_key(width) && after.files[width] == file@),
        outcome is Err ==> after == before,
        forall|other: u16|
            other != width ==> (#[trigger] after.files.contains_key(other)
                <==> before.files.contains_key(other)),
{
}

} // verus!
