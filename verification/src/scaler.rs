//! Sources of resized images: one for each width that clients have asked for.
use std::collections::HashMap;
use vstd::prelude::*;

use crate::clients::{client_connected, client_disconnected, ClientCount, Wakeup};
use crate::frame::{packages, part, prepare_jpeg, prepares, served};
use crate::jpeg::{jpeg_header, rescale, resizes, ImageFault};
use crate::last_image::{prepare_last_image, prepares_last, LastImage};
use crate::queue::{queue_of, scaled_queue_name};
use crate::scans::scans_are_sound;
use crate::subscription::{queue_for, relays, Delivery, Subscription};

verus! {

broadcast use vstd::std_specs::hash::group_hash_axioms;

/// Why a scaler could not be had or given back.
#[derive(Clone, Copy, Debug, PartialEq, Eq, Structural)]
pub enum ScalerFault {
    /// Its queue could not be opened.
    Unavailable,
    /// There is none of that width.
    Unknown,
}

/// What the run of a scaler does before its next image.
#[derive(Clone, Copy, Debug, PartialEq, Eq, Structural)]
pub enum RunAction {
    /// Drop the subscription, wait for a client, and subscribe anew.
    Resubscribe,
    /// Go on with the subscription.
    Proceed,
}

/// What the run of a scaler does with an image.
pub enum RunStep {
    /// Send this file to the clients.
    Send(Vec<u8>),
    /// Send an empty message to the clients, and end: the image could not be resized.
    End(ImageFault),
}

/// A source of images of one width.
pub struct ScaledSource {
    pub source: Subscription,
    pub width: u16,
    pub client_count: ClientCount,
    pub running: bool,
}

impl ScaledSource {
    /// A source for a width. It has no client and does not run yet, and nothing was taken from its
    /// subscription.
    pub fn new(width: u16) -> (source: ScaledSource)
        ensures
            source.width == width,
            source.source@,
            source.client_count@ == 0,
            !source.running,
    {
        ScaledSource {
            source: Subscription::new(),
            width,
            client_count: ClientCount::new(),
            running: false,
        }
    }

    /// The name of the queue of the images of a width.
    pub fn queue_name(width: u16) -> (name: String)
        ensures
            name@ == queue_of(width),
    {
        scaled_queue_name(width)
    }

    /// A client of this width has connected.
    pub fn client_connected(&mut self) -> (wakeup: Wakeup)
        requires
            old(self).client_count@ < u32::MAX,
        ensures
            final(self).client_count@ == old(self).client_count@ + 1,
            final(self).width == old(self).width,
            final(self).source == old(self).source,
            final(self).running == old(self).running,
            wakeup == Wakeup::Everyone,
    {
        client_connected(&mut self.client_count)
    }

    /// A client of this width has gone.
    pub fn client_disconnected(&mut self) -> (wakeup: Wakeup)
        requires
            old(self).client_count@ > 0,
        ensures
            final(self).client_count@ == old(self).client_count@ - 1,
            final(self).width == old(self).width,
            final(self).source == old(self).source,
            final(self).running == old(self).running,
            wakeup == Wakeup::Nobody,
    {
        client_disconnected(&mut self.client_count)
    }

    /// What to do before the next image: without clients the subscription is given up, so that
    /// the next one begins with the image that came in last.
    pub fn inner_run(source: &mut Subscription, clients: u32) -> (action: RunAction)
        ensures
            clients == 0 ==> action == RunAction::Resubscribe && final(source)@,
            clients > 0 ==> action == RunAction::Proceed && final(source)@ == old(source)@,
    {
        if clients == 0 {
            *source = Subscription::new();
            RunAction::Resubscribe
        } else {
            RunAction::Proceed
        }
    }

    /// The next image to hand on, if it is at hand: on the first call after subscribing the image
    /// that came in last, at this width. Otherwise an image has to be received.
    pub fn next_scaled(source: &mut Subscription, last: &mut LastImage, width: u16) -> (image:
        Option<Result<Vec<u8>, ImageFault>>)
        requires
            old(last).wf(),
        ensures
            final(last).wf(),
            !final(source)@,
            match image {
                Some(outcome) => old(source)@ && prepares_last(
                    old(last)@,
                    outcome,
                    final(last)@,
                    width,
                ),
                None => !old(source)@ && final(last)@ == old(last)@,
            },
    {
        match source.next(last) {
            None => None,
            Some(_) => Some(prepare_last_image(last, width)),
        }
    }

    /// An image that was received, at this width. If it is the one that came in last its file is
    /// shared with whoever asks for that image at this width.
    pub fn received_scaled(last: &mut LastImage, img: Vec<u8>, width: u16) -> (file: Result<
        Vec<u8>,
        ImageFault,
    >)
        requires
            old(last).wf(),
        ensures
            final(last).wf(),
            prepares(file, img@, width),
            if img@ == old(last)@.image {
                prepares_last(old(last)@, file, final(last)@, width)
            } else {
                final(last)@ == old(last)@
            },
    {
        if last.holds(&img) {
            prepare_last_image(last, width)
        } else {
            prepare_jpeg(img, width)
        }
    }

    /// Resizes an image to a width. The height follows.
    pub fn resize_image(img: Vec<u8>, width: u16) -> (file: Result<Vec<u8>, ImageFault>)
        ensures
            resizes(file, img@, width),
    {
        rescale(&img, width)
    }

    /// What to do with what came of resizing an image: its file is sent, and a fault ends the run.
    pub fn after_image(outcome: Result<Vec<u8>, ImageFault>) -> (step: RunStep)
        ensures
            match outcome {
                Ok(file) => step == RunStep::Send(file),
                Err(fault) => step == RunStep::End(fault),
            },
    {
        match outcome {
            Ok(file) => RunStep::Send(file),
            Err(fault) => RunStep::End(fault),
        }
    }
}

/// The sources that have been started, by their width.
pub struct Scalers {
    sources: HashMap<u16, ScaledSource>,
}

/// A source, as it stands in contracts: how many clients it has, and whether it runs.
#[verifier::ext_equal]
pub struct SourceView {
    pub clients: nat,
    pub running: bool,
}

impl View for Scalers {
    type V = Map<u16, SourceView>;

    closed spec fn view(&self) -> Map<u16, SourceView> {
        self.sources@.map_values(
            |source: ScaledSource|
                SourceView { clients: source.client_count@, running: source.running },
        )
    }
}

/// A client's part in a source.
pub struct ScalerLease {
    /// The queue to take the images from.
    pub queue_name: String,
    /// Whether the source is to be started now.
    pub fresh: bool,
}

/// How many clients of a width there are.
pub open spec fn clients_in(sources: Map<u16, SourceView>, width: u16) -> nat {
    if sources.contains_key(width) {
        sources[width].clients
    } else {
        0
    }
}

/// Whether the source of a width runs.
pub open spec fn runs_in(sources: Map<u16, SourceView>, width: u16) -> bool {
    sources.contains_key(width) && sources[width].running
}

impl Scalers {
    /// Every source is kept under its own width.
    pub closed spec fn wf(&self) -> bool {
        forall|w: u16| #[trigger] self.sources@.contains_key(w) ==> self.sources@[w].width == w
    }

    /// No source yet.
    pub fn new() -> (scalers: Scalers)
        ensures
            scalers.wf(),
            scalers@ == Map::<u16, SourceView>::empty(),
    {
        let scalers = Scalers { sources: HashMap::new() };
        assert(scalers@ =~= Map::<u16, SourceView>::empty());
        scalers
    }

    /// Whether there is a source of this width, running or not.
    pub fn has(&self, width: u16) -> (has: bool)
        ensures
            has == self@.contains_key(width),
    {
        self.sources.contains_key(&width)
    }

    /// Whether the source of this width runs.
    pub fn runs(&self, width: u16) -> (runs: bool)
        ensures
            runs == runs_in(self@, width),
    {
        match self.sources.get(&width) {
            None => false,
            Some(source) => source.running,
        }
    }

    /// How many clients of this width there are.
    pub fn clients_of(&self, width: u16) -> (clients: u32)
        ensures
            clients == clients_in(self@, width),
    {
        match self.sources.get(&width) {
            None => 0,
            Some(source) => source.client_count.get(),
        }
    }
}

/// Whether a source is started for a client that asks for `width`.
pub open spec fn starts(sources: Map<u16, SourceView>, width: u16, opened: bool) -> bool {
    !runs_in(sources, width) && opened
}

/// The sources once one more client has asked for `width`.
pub open spec fn after_get(sources: Map<u16, SourceView>, width: u16, opened: bool) -> Map<
    u16,
    SourceView,
> {
    if runs_in(sources, width) || opened {
        sources.insert(
            width,
            SourceView { clients: clients_in(sources, width) + 1, running: true },
        )
    } else {
        sources
    }
}

/// The sources once a client that asked for `width` has gone.
pub open spec fn after_return(sources: Map<u16, SourceView>, width: Option<u16>) -> Map<
    u16,
    SourceView,
> {
    match width {
        Some(w) if sources.contains_key(w) => sources.insert(
            w,
            SourceView { clients: (sources[w].clients - 1) as nat, running: sources[w].running },
        ),
        _ => sources,
    }
}

/// The sources once the one of a width has ended.
pub open spec fn after_end(sources: Map<u16, SourceView>, width: u16) -> Map<u16, SourceView> {
    if sources.contains_key(width) {
        sources.insert(
            width,
            SourceView { clients: sources[width].clients, running: false },
        )
    } else {
        sources
    }
}

/// Takes part in the source of a width, for one more client. If none runs it is to be started,
/// provided that its queue could be opened; `opened` tells, and counts for nothing otherwise.
pub fn get_scaler(
    scalers: &mut Scalers,
    width: u16,
    opened: Result<(), ScalerFault>,
) -> (lease: Result<ScalerLease, ScalerFault>)
    requires
        old(scalers).wf(),
        clients_in(old(scalers)@, width) < u32::MAX,
    ensures
        final(scalers).wf(),
        final(scalers)@ == after_get(old(scalers)@, width, opened is Ok),
        match lease {
            Ok(l) => {
                &&& runs_in(old(scalers)@, width) || opened is Ok
                &&& l.queue_name@ == queue_of(width)
                &&& l.queue_name@ == queue_for(Some(width))
                &&& l.fresh == starts(old(scalers)@, width, opened is Ok)
            },
            Err(fault) => {
                &&& !runs_in(old(scalers)@, width)
                &&& opened == Err::<(), ScalerFault>(fault)
            },
        },
{
    let fresh = !scalers.runs(width);
    if fresh {
        match opened {
            Err(fault) => {
                return Err(fault);
            },
            Ok(()) => {},
        }
    }
    let mut source = match scalers.sources.remove(&width) {
        Some(source) => source,
        None => ScaledSource::new(width),
    };
    source.client_connected();
    source.running = true;
    scalers.sources.insert(width, source);
    assert(scalers@ =~= after_get(old(scalers)@, width, opened is Ok));
    Ok(ScalerLease { queue_name: ScaledSource::queue_name(width), fresh })
}

/// Gives back a client's part in the source of a width, if it has one.
pub fn return_scaler(scalers: &mut Scalers, width: Option<u16>) -> (returned: Result<
    (),
    ScalerFault,
>)
    requires
        old(scalers).wf(),
        width matches Some(w) ==> (old(scalers)@.contains_key(w) ==> clients_in(old(scalers)@, w)
            > 0),
    ensures
        final(scalers).wf(),
        final(scalers)@ == after_return(old(scalers)@, width),
        match width {
            Some(w) if !old(scalers)@.contains_key(w) => returned == Err::<(), ScalerFault>(
                ScalerFault::Unknown,
            ),
            _ => returned is Ok,
        },
{
    match width {
        None => Ok(()),
        Some(w) => match scalers.sources.remove(&w) {
            None => {
                assert(scalers@ =~= old(scalers)@);
                Err(ScalerFault::Unknown)
            },
            Some(source) => {
                let mut source = source;
                source.client_disconnected();
                scalers.sources.insert(w, source);
                assert(scalers@ =~= after_return(old(scalers)@, width));
                Ok(())
            },
        },
    }
}

/// The source of a width has ended. The next client of that width starts it again.
pub fn scaler_ended(scalers: &mut Scalers, width: u16)
    requires
        old(scalers).wf(),
    ensures
        final(scalers).wf(),
        final(scalers)@ == after_end(old(scalers)@, width),
{
    if let Some(source) = scalers.sources.remove(&width) {
        let mut source = source;
        source.running = false;
        scalers.sources.insert(width, source);
    }
    assert(scalers@ =~= after_end(old(scalers)@, width));
}

/// A client that has gone leaves nothing behind: the counts are what they were before it came,
/// but that a source which was started for it goes on.
pub proof fn law_return_undoes_get(sources: Map<u16, SourceView>, width: u16)
    ensures
        after_return(after_get(sources, width, true), Some(width)) == (if runs_in(sources, width) {
            sources
        } else {
            sources.insert(
                width,
                SourceView { clients: clients_in(sources, width), running: true },
            )
        }),
{
    let both = after_return(after_get(sources, width, true), Some(width));
    if runs_in(sources, width) {
        assert(both =~= sources);
    } else {
        assert(both =~= sources.insert(
            width,
            SourceView { clients: clients_in(sources, width), running: true },
        ));
    }
}

/// What can happen to the sources.
pub enum ScalerEvent {
    /// A client asks for a width, and its queue can be opened or cannot.
    Get(u16, bool),
    /// A client goes, and had asked for a width or not.
    Return(Option<u16>),
    /// The source of a width ends.
    End(u16),
}

/// The sources after the first `n` of `events`.
pub open spec fn sources_after(events: Seq<ScalerEvent>, n: nat) -> Map<u16, SourceView>
    decreases n,
{
    if n == 0 {
        Map::empty()
    } else {
        let before = sources_after(events, (n - 1) as nat);
        match events[n - 1] {
            ScalerEvent::Get(width, opened) => after_get(before, width, opened),
            ScalerEvent::Return(width) => after_return(before, width),
            ScalerEvent::End(width) => after_end(before, width),
        }
    }
}

/// Whether event `i` starts a source of this width.
pub open spec fn starts_at(events: Seq<ScalerEvent>, i: int, width: u16) -> bool {
    events[i] matches ScalerEvent::Get(w, opened) && w == width && starts(
        sources_after(events, i as nat),
        width,
        opened,
    )
}

/// Whether event `i` ends a source of this width that runs.
pub open spec fn ends_at(events: Seq<ScalerEvent>, i: int, width: u16) -> bool {
    events[i] == ScalerEvent::End(width) && runs_in(sources_after(events, i as nat), width)
}

/// How many sources of this width the first `n` of `events` have started.
pub open spec fn started(events: Seq<ScalerEvent>, n: nat, width: u16) -> nat
    decreases n,
{
    if n == 0 {
        0
    } else {
        started(events, (n - 1) as nat, width) + if starts_at(events, n - 1, width) {
            1nat
        } else {
            0
        }
    }
}

/// How many sources of this width the first `n` of `events` have ended.
pub open spec fn ended(events: Seq<ScalerEvent>, n: nat, width: u16) -> nat
    decreases n,
{
    if n == 0 {
        0
    } else {
        ended(events, (n - 1) as nat, width) + if ends_at(events, n - 1, width) {
            1nat
        } else {
            0
        }
    }
}

/// For all clients of one width the images are resized by one source: whatever clients come and
/// go, of the sources that were started at most one has not ended.
pub proof fn law_one_source_per_width(events: Seq<ScalerEvent>, n: nat, width: u16)
    requires
        n <= events.len(),
    ensures
        started(events, n, width) == ended(events, n, width) + if runs_in(
            sources_after(events, n),
            width,
        ) {
            1nat
        } else {
            0
        },
    decreases n,
{
    if n > 0 {
        law_one_source_per_width(events, (n - 1) as nat, width);
    }
}

/// All clients of one width listen to one queue, and of each image that its source sends they get
/// one and the same part, with the file that the source has made: that of the image at their
/// width. None of them resizes it again.
pub proof fn law_clients_of_a_width_share_a_file(
    image: Seq<u8>,
    width: u16,
    file: Vec<u8>,
    one: Delivery,
    other: Delivery,
)
    requires
        prepares(Ok(file), image, width),
        relays(one, file@, Some(width)),
        relays(other, file@, Some(width)),
    ensures
        queue_for(Some(width)) == queue_of(width),
        one is Write && other is Write,
        one->Write_0@ == other->Write_0@,
        one->Write_0@ == part(served(image, Some(width))),
{
}

/// What a client of a width is sent through the queue is what it would be sent if the image were
/// packaged for it alone.
pub proof fn law_relayed_is_packaged(
    image: Seq<u8>,
    width: u16,
    file: Vec<u8>,
    relayed: Delivery,
    packaged: Vec<u8>,
)
    requires
        prepares(Ok(file), image, width),
        relays(relayed, file@, Some(width)),
        packages(Ok(packaged), image, Some(width)),
    ensures
        relayed is Write && relayed->Write_0@ == packaged@,
{
}

/// Packaging an image for a width that it does not have is resizing it and framing the file:
/// where both succeed the bytes are the same, and where one fails the other fails too, unless
/// decoding was refused to one of them and not to the other.
pub proof fn law_packaging_frames_the_resized(
    packaged: Result<Vec<u8>, ImageFault>,
    resized: Result<Vec<u8>, ImageFault>,
    jpeg: Seq<u8>,
    width: u16,
)
    requires
        jpeg_header(jpeg) matches Some(sides) && sides.0 != width,
        packages(packaged, jpeg, Some(width)),
        resizes(resized, jpeg, width),
    ensures
        packaged is Ok && resized is Ok ==> packaged->Ok_0@ == part(resized->Ok_0@),
        packaged is Ok && resized is Err ==> resized->Err_0 == ImageFault::Undecodable,
        packaged is Err && resized is Ok ==> packaged->Err_0 == ImageFault::Undecodable,
        packaged is Err && resized is Err ==> packaged->Err_0 == resized->Err_0
            || packaged->Err_0 == ImageFault::Undecodable || resized->Err_0
            == ImageFault::Undecodable,
        !scans_are_sound(jpeg) ==> packaged is Err && packaged->Err_0 == ImageFault::UnsoundScans
            && resized is Err && resized->Err_0 == ImageFault::UnsoundScans,
{
}

/// A client that asks for a width is counted there, once, and with no other width. A source is
/// started for it if none runs and the queue could be opened; if none runs and it could not, nothing
/// changes.
pub proof fn law_a_client_is_counted_with_its_width(
    sources: Map<u16, SourceView>,
    width: u16,
    other: u16,
    opened: bool,
)
    ensures
        ({
            let next = after_get(sources, width, opened);
            let running = sources.contains_key(width) && sources[width].running;
            let clients = if sources.contains_key(width) {
                sources[width].clients
            } else {
                0
            };
            &&& running || opened ==> next.contains_key(width) && next[width].clients == clients + 1
                && next[width].running
            &&& !running && !opened ==> next == sources
            &&& other != width ==> (next.contains_key(other) <==> sources.contains_key(other))
            &&& other != width && sources.contains_key(other) ==> next[other] == sources[other]
            &&& starts(sources, width, opened) <==> !running && opened
            &&& clients_in(sources, width) == clients
            &&& runs_in(sources, width) == running
        }),
{
}

/// A client that goes is no longer counted with its width, and nothing else changes: the source goes
/// on if it runs, and other widths are not touched.
pub proof fn law_a_client_that_goes_is_not_counted(
    sources: Map<u16, SourceView>,
    width: u16,
    other: u16,
)
    requires
        sources.contains_key(width) ==> sources[width].clients > 0,
    ensures
        ({
            let next = after_return(sources, Some(width));
            &&& sources.contains_key(width) ==> next.contains_key(width) && next[width].clients + 1
                == sources[width].clients && next[width].running == sources[width].running
            &&& !sources.contains_key(width) ==> next == sources
            &&& other != width ==> (next.contains_key(other) <==> sources.contains_key(other))
            &&& other != width && sources.contains_key(other) ==> next[other] == sources[other]
            &&& after_return(sources, None) == sources
        }),
{
}

/// A source that ends does not run any longer, and nothing else changes.
pub proof fn law_a_source_that_ends_does_not_run(
    sources: Map<u16, SourceView>,
    width: u16,
    other: u16,
)
    ensures
        ({
            let next = after_end(sources, width);
            &&& sources.contains_key(width) ==> next.contains_key(width) && next[width].clients
                == sources[width].clients && !next[width].running
            &&& !sources.contains_key(width) ==> next == sources
            &&& other != width ==> (next.contains_key(other) <==> sources.contains_key(other))
            &&& other != width && sources.contains_key(other) ==> next[other] == sources[other]
        }),
{
}

} // verus!
