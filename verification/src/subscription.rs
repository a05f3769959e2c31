//! The images that a client is served: first the one that came in last, then each new one.
use vstd::prelude::*;

use crate::decimal::decimal;
use crate::frame::{
    frame, needs_resizing, package_jpegs, packages, part, response_head, response_head_text, served,
};
use crate::jpeg::{channels, jpeg_header, jpeg_pixels, new_height, ImageFault};
use crate::last_image::{get_last_image, prepare_last_image, with_file, LastImage, LastView};
use crate::queue::{main_queue, main_queue_name, queue_of, scaled_queue_name};
use crate::scans::scans_are_sound;

verus! {

/// A subscription to the images. The first of them is the one that came in last.
pub struct Subscription {
    first_call: bool,
}

impl View for Subscription {
    type V = bool;

    /// Whether nothing was taken yet.
    closed spec fn view(&self) -> bool {
        self.first_call
    }
}

impl Subscription {
    /// A subscription that nothing was taken from.
    pub fn new() -> (subscription: Subscription)
        ensures
            subscription@,
    {
        Subscription { first_call: true }
    }

    /// The next image, if it is at hand: on the first call the image that came in last. From then
    /// on the next image is the one that comes in next, and has to be received.
    pub fn next(&mut self, last: &LastImage) -> (image: Option<Vec<u8>>)
        ensures
            !final(self)@,
            match image {
                Some(i) => old(self)@ && i@ == last@.image,
                None => !old(self)@,
            },
    {
        if self.first_call {
            self.first_call = false;
            Some(get_last_image(last))
        } else {
            None
        }
    }
}

/// What is to be done for a client next.
pub enum Delivery {
    /// Send these bytes.
    Write(Vec<u8>),
    /// Receive the next image.
    Receive,
    /// End the response, because of an image that cannot be sent.
    Close(ImageFault),
    /// End the response, because the source of the images has ended.
    End,
}

/// The stream of one client, at the width that it asked for.
pub struct ClientStream {
    subscription: Subscription,
    width: Option<u16>,
}

/// A stream, as it stands in contracts: whether nothing was taken yet, and the width.
#[verifier::ext_equal]
pub struct StreamView {
    pub fresh: bool,
    pub width: Option<u16>,
}

impl View for ClientStream {
    type V = StreamView;

    closed spec fn view(&self) -> StreamView {
        StreamView { fresh: self.subscription@, width: self.width }
    }
}

/// Whether this is what is to be done with an image for a client which asked for `width`: it is
/// sent as a part, at that width, or the response ends because it cannot be packaged.
pub open spec fn delivers(delivery: Delivery, image: Seq<u8>, width: Option<u16>) -> bool {
    match delivery {
        Delivery::Write(bytes) => packages(Ok(bytes), image, width),
        Delivery::Close(fault) => packages(Err(fault), image, width),
        Delivery::Receive | Delivery::End => false,
    }
}

/// The queue that the images for a client which asked for `width` come from.
pub open spec fn queue_for(width: Option<u16>) -> Seq<char> {
    match width {
        Some(w) => queue_of(w),
        None => main_queue(),
    }
}

/// Whether this is what is to be done with a message from the queue of a client which asked for
/// `width`: the image in it has the width already, and is sent as it is. In the queue of a width an
/// empty message says that the source has ended.
pub open spec fn relays(delivery: Delivery, message: Seq<u8>, width: Option<u16>) -> bool {
    match delivery {
        Delivery::Write(bytes) => bytes@ == part(message) && (width is Some ==> message.len() > 0),
        Delivery::End => width is Some && message.len() == 0,
        Delivery::Receive | Delivery::Close(_) => false,
    }
}

/// Whether this is what is to be done with the image that came in last, and what is kept of it
/// afterwards: the file that was made of it, if one was. Where a file was kept before, it is sent.
pub open spec fn delivers_last(
    before: LastView,
    delivery: Delivery,
    after: LastView,
    width: Option<u16>,
) -> bool {
    &&& delivers(delivery, before.image, width)
    &&& after == (if needs_resizing(before.image, width) && delivery is Write {
        with_file(before, width.unwrap(), served(before.image, width))
    } else {
        before
    })
    &&& needs_resizing(before.image, width) && before.files.contains_key(width.unwrap())
        ==> delivery is Write
}

impl ClientStream {
    /// The stream of a client that has just asked for `width`, and the head of the response.
    pub fn open(width: Option<u16>) -> (opened: (ClientStream, Vec<u8>))
        ensures
            opened.0@ == (StreamView { fresh: true, width }),
            opened.1@ == vstd::utf8::encode_utf8(response_head_text()),
    {
        (ClientStream { subscription: Subscription::new(), width }, response_head())
    }

    /// What to do with an image for this client.
    pub fn deliver(&self, image: Vec<u8>) -> (delivery: Delivery)
        ensures
            delivers(delivery, image@, self@.width),
    {
        match package_jpegs(image, self.width) {
            Ok(bytes) => Delivery::Write(bytes),
            Err(fault) => Delivery::Close(fault),
        }
    }

    /// What to do with the image that came in last. It is resized only if it was not resized to
    /// this width before.
    fn deliver_last(&self, image: Vec<u8>, last: &mut LastImage) -> (delivery: Delivery)
        requires
            old(last).wf(),
            image@ == old(last)@.image,
        ensures
            final(last).wf(),
            delivers_last(old(last)@, delivery, final(last)@, self@.width),
    {
        match self.width {
            None => self.deliver(image),
            Some(width) => match prepare_last_image(last, width) {
                Ok(file) => Delivery::Write(frame(&file)),
                Err(fault) => Delivery::Close(fault),
            },
        }
    }

    /// The queue that this client's images come from.
    pub fn queue_name(&self) -> (name: String)
        ensures
            name@ == queue_for(self@.width),
    {
        match self.width {
            Some(width) => scaled_queue_name(width),
            None => main_queue_name(),
        }
    }

    /// What to do with a message from the queue of this client.
    pub fn relay(&self, message: Vec<u8>) -> (delivery: Delivery)
        ensures
            relays(delivery, message@, self@.width),
    {
        if self.width.is_some() && message.len() == 0 {
            Delivery::End
        } else {
            Delivery::Write(frame(&message))
        }
    }

    /// What to do next for this client: at first to deliver the image that came in last, then to
    /// receive one image after the other.
    pub fn next(&mut self, last: &mut LastImage) -> (delivery: Delivery)
        requires
            old(last).wf(),
        ensures
            final(last).wf(),
            final(self)@ == (StreamView { fresh: false, width: old(self)@.width }),
            if old(self)@.fresh {
                delivers_last(old(last)@, delivery, final(last)@, old(self)@.width)
            } else {
                delivery is Receive && final(last)@ == old(last)@
            },
    {
        match self.subscription.next(last) {
            Some(image) => self.deliver_last(image, last),
            None => Delivery::Receive,
        }
    }
}

/// A client that asks for no width gets every image as it is, whatever it holds.
pub proof fn law_images_pass_unchanged(delivery: Delivery, image: Seq<u8>)
    requires
        delivers(delivery, image, None),
    ensures
        delivery matches Delivery::Write(bytes) && bytes@ == part(image),
{
}

/// A client that asks for a width is sent images of that width, and of the height that goes with
/// it, unless there is nothing left of them at that width.
pub proof fn law_asked_width_is_served(delivery: Delivery, image: Seq<u8>, width: u16)
    requires
        delivers(delivery, image, Some(width)),
        delivery is Write,
        width > 0,
        new_height(jpeg_header(image).unwrap(), width) > 0,
    ensures
        delivery matches Delivery::Write(bytes) && bytes@ == part(served(image, Some(width))),
        jpeg_header(served(image, Some(width))) == Some(
            (width as u32, new_height(jpeg_header(image).unwrap(), width) as u32),
        ),
{
}

/// An image that has the width that a client asked for is sent as it is: it is not resized again.
pub proof fn law_fitting_image_passes_unchanged(delivery: Delivery, image: Seq<u8>, width: u16)
    requires
        delivers(delivery, image, Some(width)),
        jpeg_header(image) matches Some(sides) && sides.0 == width,
    ensures
        delivery matches Delivery::Write(bytes) && bytes@ == part(image),
{
}

/// The bytes that are sent for a client, one delivery after the other.
pub open spec fn sent(deliveries: Seq<Delivery>) -> Seq<u8>
    decreases deliveries.len(),
{
    if deliveries.len() == 0 {
        Seq::empty()
    } else {
        sent(deliveries.drop_last()) + match deliveries.last() {
            Delivery::Write(bytes) => bytes@,
            _ => Seq::empty(),
        }
    }
}

/// The parts that carry messages as they are, one after the other.
pub open spec fn parts(messages: Seq<Seq<u8>>) -> Seq<u8>
    decreases messages.len(),
{
    if messages.len() == 0 {
        Seq::empty()
    } else {
        parts(messages.drop_last()) + part(messages.last())
    }
}

/// A client is sent the image that came in last and then the messages from its queue, in the order
/// in which they come, each of them whole and once. The image that came in last is not sent again.
pub proof fn law_images_are_sent_in_order(
    deliveries: Seq<Delivery>,
    last: Seq<u8>,
    messages: Seq<Seq<u8>>,
    width: Option<u16>,
)
    requires
        deliveries.len() == messages.len() + 1,
        delivers(deliveries[0], last, width) && deliveries[0] is Write,
        forall|i: int|
            0 < i < deliveries.len() ==> #[trigger] deliveries[i] is Write && relays(
                deliveries[i],
                messages[i - 1],
                width,
            ),
    ensures
        sent(deliveries) == part(served(last, width)) + parts(messages),
    decreases messages.len(),
{
    let shorter = deliveries.drop_last();
    if messages.len() == 0 {
        assert(sent(shorter) =~= Seq::<u8>::empty());
        assert(deliveries.last() == deliveries[0]);
        assert(sent(deliveries) =~= part(served(last, width)) + parts(messages));
    } else {
        assert forall|i: int| 0 < i < shorter.len() implies #[trigger] shorter[i] is Write
            && relays(shorter[i], messages.drop_last()[i - 1], width) by {
            assert(shorter[i] == deliveries[i]);
        }
        law_images_are_sent_in_order(shorter, last, messages.drop_last(), width);
        assert(deliveries[messages.len() as int] is Write);
        assert(sent(deliveries) =~= part(served(last, width)) + parts(messages));
    }
}

/// For all clients of one width the image that came in last is resized once: what the first of
/// them was sent, the next is sent too, and no other file is made.
pub proof fn law_last_image_is_resized_once(
    before: LastView,
    first: Delivery,
    between: LastView,
    second: Delivery,
    after: LastView,
    width: u16,
)
    requires
        delivers_last(before, first, between, Some(width)),
        first is Write,
        delivers_last(between, second, after, Some(width)),
    ensures
        second is Write,
        second->Write_0@ == first->Write_0@,
        after == between,
{
    assert(after.files =~= between.files);
}

/// What is delivered of an image is what packaging it gives, and a response is closed only for the
/// fault of that. A client that asks for no width, or for the width that the image has, is always
/// sent the image as it is.
pub proof fn law_delivering_is_packaging(delivery: Delivery, image: Seq<u8>, width: Option<u16>)
    requires
        delivers(delivery, image, width),
    ensures
        delivery matches Delivery::Write(bytes) ==> packages(Ok(bytes), image, width) && bytes@
            == part(served(image, width)),
        delivery matches Delivery::Close(fault) ==> packages(Err(fault), image, width),
        delivery is Write || delivery is Close,
        width is None ==> (delivery matches Delivery::Write(bytes) && bytes@ == part(image)),
        width matches Some(w) ==> (jpeg_header(image) matches Some(sides) && sides.0 == w ==> (
        delivery matches Delivery::Write(bytes) && bytes@ == part(image))),
{
}

/// A message from the queue is sent as it is and whole. Only an empty one, in the queue of a width,
/// ends the response.
pub proof fn law_messages_are_sent_as_they_are(
    delivery: Delivery,
    message: Seq<u8>,
    width: Option<u16>,
)
    requires
        relays(delivery, message, width),
    ensures
        message.len() > 0 || width is None ==> (delivery matches Delivery::Write(bytes) && bytes@
            == part(message)),
        message.len() == 0 && width is Some ==> delivery is End,
{
}

/// A client listens to the queue of the width that it asked for, and one that asked for none to the
/// images as they come in.
pub proof fn law_a_client_listens_to_its_width(width: u16)
    ensures
        queue_for(Some(width)) == "inproc://scale"@ + decimal(width as nat),
        queue_for(None) == "inproc://jpegs"@,
{
}

/// Delivering the image that came in last is delivering that image, and leaves it as it is. What was
/// made of it is kept for the next client of the width, and what was kept is sent.
pub proof fn law_delivering_the_last_image(
    before: LastView,
    delivery: Delivery,
    after: LastView,
    width: Option<u16>,
)
    requires
        delivers_last(before, delivery, after, width),
    ensures
        delivers(delivery, before.image, width),
        after.image == before.image,
        width is None ==> after == before,
        width matches Some(w) ==> (jpeg_header(before.image) matches Some(sides) && sides.0 != w
            && delivery is Write ==> after.files.contains_key(w) && delivery->Write_0@ == part(
            after.files[w],
        )),
        width matches Some(w) ==> (jpeg_header(before.image) matches Some(sides) && sides.0 != w
            && before.files.contains_key(w) ==> delivery is Write),
{
}

/// A client that asks for a width is sent the image, and its response goes on: it is not closed for
/// an image that begins as a JPEG image does, has sound scans, is not refused by the decoder, and
/// fits in memory at that width.
pub proof fn law_asked_width_is_not_refused(
    delivery: Delivery,
    image: Seq<u8>,
    width: u16,
    own_width: u32,
    height: u32,
)
    requires
        delivers(delivery, image, Some(width)),
        jpeg_header(image) == Some((own_width, height)),
        scans_are_sound(image),
        !jpeg_pixels(image).2,
        own_width * new_height((own_width, height), width) * 3 <= isize::MAX,
        width * new_height((own_width, height), width) * 3 <= isize::MAX,
    ensures
        delivery is Write,
{
    if delivery is Close {
        let tall = new_height((own_width, height), width);
        let depth = channels(jpeg_pixels(image).0);
        assert(own_width * tall * depth <= own_width * tall * 3) by (nonlinear_arith)
            requires
                depth <= 3,
        ;
        assert(width * tall * depth <= width * tall * 3) by (nonlinear_arith)
            requires
                depth <= 3,
        ;
    }
}

} // verus!
