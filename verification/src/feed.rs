//! How the images are fetched: in rounds, each of them one connection to the source.
//!
//! A round goes on for as long as there are clients. Without clients it ends with its first
//! image, and the next one begins when a client connects, or after a pause. A round that fails is
//! followed by the next one just the same.
use vstd::prelude::*;
use vstd::utf8::*;

use crate::decimal::{is_numeral, numeral_value};
use crate::element::{
    awaits_spaced_parts, finds_plain_headers, reads_own_parts, reads_spaced_parts, received,
    ElementReader, ReadFault, ReaderView,
};
use crate::frame::{line_break, own_boundary, part};
use crate::jpeg::{jpeg_header, validate_jpeg};
use crate::last_image::{just_in, set_last_image, LastImage};
use crate::pattern::{header_pattern, is_pattern, is_plain, is_space, spaced_header};

verus! {

/// How long to wait for a client before the next round, in seconds.
pub const PAUSE_SECONDS: u64 = 30;

/// How far the fetching of images has come.
pub enum Feed {
    /// A connection is to be made.
    Connecting,
    /// The source is being read.
    Reading(ElementReader),
    /// An image has been read and is to be handed on.
    Publishing(ElementReader, Vec<u8>),
    /// A round is over.
    RoundOver,
    /// No client is there, and the pause goes on.
    Pausing,
    /// Fetching has been given up.
    Stopped,
}

/// `Feed`, as it stands in contracts.
pub enum FeedView {
    Connecting,
    Reading(ReaderView),
    Publishing(ReaderView, Seq<u8>),
    RoundOver,
    Pausing,
    Stopped,
}

impl View for Feed {
    type V = FeedView;

    open spec fn view(&self) -> FeedView {
        match self {
            Feed::Connecting => FeedView::Connecting,
            Feed::Reading(reader) => FeedView::Reading(reader@),
            Feed::Publishing(reader, image) => FeedView::Publishing(reader@, image@),
            Feed::RoundOver => FeedView::RoundOver,
            Feed::Pausing => FeedView::Pausing,
            Feed::Stopped => FeedView::Stopped,
        }
    }
}

/// What is to be done next.
#[derive(Clone, Copy, Debug, PartialEq, Eq, Structural)]
pub enum FeedAction {
    /// Connect to the source.
    Connect,
    /// Read the next chunk of the response.
    ReadChunk,
    /// Hand the image on to the clients.
    Publish,
    /// Look how many clients there are.
    CountClients,
    /// Wait for a client, but no longer than this many seconds.
    Pause(u64),
    /// Give up for good.
    Stop,
}

/// What has happened, as it stands in contracts.
pub enum FeedEvent {
    /// The source has answered, and this keeps the parts of its stream apart.
    Connected(Seq<char>),
    /// A chunk has come in.
    Chunk(Seq<u8>),
    /// The response has ended.
    StreamEnd,
    /// The image has been handed on, and so many clients are there.
    Published(nat),
    /// Connecting, reading or handing on has failed.
    Failed,
    /// So many clients are there.
    Clients(nat),
    /// The pause is over: a client has come, or the time is up.
    Resumed,
}

/// Whether `event` can happen in `feed`.
pub open spec fn can_happen(feed: FeedView, event: FeedEvent) -> bool {
    match event {
        FeedEvent::Connected(_) => feed is Connecting,
        FeedEvent::Chunk(_) => feed is Reading,
        FeedEvent::StreamEnd => feed is Reading,
        FeedEvent::Published(_) => feed is Publishing,
        FeedEvent::Failed => feed is Connecting || feed is Reading || feed is Publishing,
        FeedEvent::Clients(_) => feed is RoundOver,
        FeedEvent::Resumed => feed is Pausing,
    }
}

/// What comes of a chunk.
#[verifier::opaque]
pub open spec fn after_chunk(reader: ReaderView, chunk: Seq<u8>) -> (FeedView, FeedAction) {
    match received(reader, chunk) {
        Err(fault) => if fault.spec_is_fatal() {
            (FeedView::Stopped, FeedAction::Stop)
        } else {
            (FeedView::RoundOver, FeedAction::CountClients)
        },
        Ok((after, None)) => (FeedView::Reading(after), FeedAction::ReadChunk),
        Ok((after, Some(image))) => if jpeg_header(image) is Some {
            (FeedView::Publishing(after, image), FeedAction::Publish)
        } else {
            (FeedView::RoundOver, FeedAction::CountClients)
        },
    }
}

/// What comes of `event` in `feed`: how far fetching has come, and what to do next.
pub open spec fn after(feed: FeedView, event: FeedEvent) -> (FeedView, FeedAction) {
    let round_over = (FeedView::RoundOver, FeedAction::CountClients);
    match (feed, event) {
        (FeedView::Connecting, FeedEvent::Connected(boundary)) => if is_pattern(
            header_pattern(boundary),
        ) {
            (
                FeedView::Reading(
                    ReaderView { boundary, buffer: Seq::empty(), wanted: None },
                ),
                FeedAction::ReadChunk,
            )
        } else {
            round_over
        },
        (FeedView::Reading(reader), FeedEvent::Chunk(chunk)) => after_chunk(reader, chunk),
        (FeedView::Reading(_), FeedEvent::StreamEnd) => round_over,
        (FeedView::Publishing(reader, _), FeedEvent::Published(clients)) => if clients == 0 {
            round_over
        } else {
            (FeedView::Reading(reader), FeedAction::ReadChunk)
        },
        (FeedView::RoundOver, FeedEvent::Clients(clients)) => if clients == 0 {
            (FeedView::Pausing, FeedAction::Pause(PAUSE_SECONDS))
        } else {
            (FeedView::Connecting, FeedAction::Connect)
        },
        (FeedView::Pausing, FeedEvent::Resumed) => (FeedView::Connecting, FeedAction::Connect),
        (FeedView::Stopped, _) => (FeedView::Stopped, FeedAction::Stop),
        _ => round_over,
    }
}

impl Feed {
    /// Fetching begins with a connection.
    pub fn start() -> (begun: (Feed, FeedAction))
        ensures
            begun.0@ == FeedView::Connecting,
            begun.1 == FeedAction::Connect,
    {
        (Feed::Connecting, FeedAction::Connect)
    }

    /// The source has answered.
    pub fn connected(self, boundary: String) -> (next: (Feed, FeedAction))
        requires
            can_happen(self@, FeedEvent::Connected(boundary@)),
        ensures
            (next.0@, next.1) == after(self@, FeedEvent::Connected(boundary@)),
            is_plain(boundary@) ==> next.1 == FeedAction::ReadChunk,
            next.1 == FeedAction::ReadChunk ==> next.0@ == FeedView::Reading(
                ReaderView { boundary: boundary@, buffer: Seq::empty(), wanted: None },
            ),
            is_pattern(header_pattern(boundary@)) <==> next.1 == FeedAction::ReadChunk,
            next.1 != FeedAction::ReadChunk ==> next.0@ is RoundOver && next.1
                == FeedAction::CountClients,
    {
        match ElementReader::new(boundary) {
            Ok(reader) => (Feed::Reading(reader), FeedAction::ReadChunk),
            Err(_) => (Feed::RoundOver, FeedAction::CountClients),
        }
    }

    /// A chunk has come in. A part that this library has written is read back, and handed on with
    /// its line break if it begins as a JPEG image does.
    pub fn chunk(self, chunk: &Vec<u8>) -> (next: (Feed, FeedAction))
        requires
            can_happen(self@, FeedEvent::Chunk(chunk@)),
        ensures
            (next.0@, next.1) == after(self@, FeedEvent::Chunk(chunk@)),
            self@ matches FeedView::Reading(reader) && (received(reader, chunk@) matches Ok(
                (_, Some(image)),
            ) && image.len() < 2 ==> next.1 == FeedAction::CountClients),
            self@ matches FeedView::Reading(reader) && finds_plain_headers(reader, chunk@)
                && reads_own_parts(reader, chunk@) && reads_spaced_parts(reader, chunk@)
                && awaits_spaced_parts(reader, chunk@),
            forall|image: Seq<u8>, rest: Seq<u8>|
                self@ matches FeedView::Reading(reader) && reader.wanted is None && reader.boundary
                    == own_boundary() && reader.buffer + chunk@ == #[trigger] (part(image) + rest)
                    ==> (next.0@, next.1) == (if jpeg_header(image + line_break()) is Some {
                    (
                        FeedView::Publishing(
                            ReaderView { boundary: own_boundary(), buffer: rest, wanted: None },
                            image + line_break(),
                        ),
                        FeedAction::Publish,
                    )
                } else {
                    (FeedView::RoundOver, FeedAction::CountClients)
                }),
    {
        reveal(after_chunk);
        match self {
            Feed::Reading(reader) => {
                let mut reader = reader;
                match reader.read_element(chunk) {
                    Err(fault) => if fault.is_fatal() {
                        (Feed::Stopped, FeedAction::Stop)
                    } else {
                        (Feed::RoundOver, FeedAction::CountClients)
                    },
                    Ok(None) => (Feed::Reading(reader), FeedAction::ReadChunk),
                    Ok(Some(image)) => match validate_jpeg(image) {
                        Err(_) => (Feed::RoundOver, FeedAction::CountClients),
                        Ok(image) => (Feed::Publishing(reader, image), FeedAction::Publish),
                    },
                }
            },
            _ => (Feed::RoundOver, FeedAction::CountClients),
        }
    }

    /// The response has ended, between two parts or within one. What was read of that is dropped.
    pub fn stream_end(self) -> (next: (Feed, FeedAction))
        requires
            can_happen(self@, FeedEvent::StreamEnd),
        ensures
            (next.0@, next.1) == after(self@, FeedEvent::StreamEnd),
    {
        (Feed::RoundOver, FeedAction::CountClients)
    }

    /// The image that is to be handed on.
    pub fn outgoing(&self) -> (image: Option<&Vec<u8>>)
        ensures
            match image {
                Some(i) => self@ matches FeedView::Publishing(_, bytes) && bytes == i@,
                None => !(self@ is Publishing),
            },
    {
        match self {
            Feed::Publishing(_, image) => Some(image),
            _ => None,
        }
    }

    /// The image has been handed on. It is the one that came in last, from now on.
    pub fn published(self, last: &mut LastImage, clients: u32) -> (next: (Feed, FeedAction))
        requires
            can_happen(self@, FeedEvent::Published(clients as nat)),
        ensures
            (next.0@, next.1) == after(self@, FeedEvent::Published(clients as nat)),
            self@ matches FeedView::Publishing(_, image) && final(last)@ == just_in(image)
                && final(last)@.image == image,
            final(last).wf(),
    {
        match self {
            Feed::Publishing(reader, image) => {
                set_last_image(last, image);
                if clients == 0 {
                    (Feed::RoundOver, FeedAction::CountClients)
                } else {
                    (Feed::Reading(reader), FeedAction::ReadChunk)
                }
            },
            _ => (Feed::RoundOver, FeedAction::CountClients),
        }
    }

    /// Connecting, reading or handing on has failed.
    pub fn failed(self) -> (next: (Feed, FeedAction))
        requires
            can_happen(self@, FeedEvent::Failed),
        ensures
            (next.0@, next.1) == after(self@, FeedEvent::Failed),
    {
        (Feed::RoundOver, FeedAction::CountClients)
    }

    /// A round is over, and so many clients are there.
    pub fn clients(self, clients: u32) -> (next: (Feed, FeedAction))
        requires
            can_happen(self@, FeedEvent::Clients(clients as nat)),
        ensures
            (next.0@, next.1) == after(self@, FeedEvent::Clients(clients as nat)),
    {
        if clients == 0 {
            (Feed::Pausing, FeedAction::Pause(PAUSE_SECONDS))
        } else {
            (Feed::Connecting, FeedAction::Connect)
        }
    }

    /// The pause is over.
    pub fn resumed(self) -> (next: (Feed, FeedAction))
        requires
            can_happen(self@, FeedEvent::Resumed),
        ensures
            (next.0@, next.1) == after(self@, FeedEvent::Resumed),
    {
        (Feed::Connecting, FeedAction::Connect)
    }
}

/// How far fetching has come after the first `n` of `events`.
pub open spec fn reached(feed: FeedView, events: Seq<FeedEvent>, n: nat) -> FeedView
    decreases n,
{
    if n == 0 {
        feed
    } else {
        after(reached(feed, events, (n - 1) as nat), events[n - 1]).0
    }
}

/// What is to be done after event `i`.
pub open spec fn action_at(feed: FeedView, events: Seq<FeedEvent>, i: int) -> FeedAction {
    after(reached(feed, events, i as nat), events[i]).1
}

/// Whether each event can happen where it does.
pub open spec fn is_run(feed: FeedView, events: Seq<FeedEvent>) -> bool {
    forall|i: int|
        0 <= i < events.len() ==> can_happen(reached(feed, events, i as nat), #[trigger] events[i])
}

/// Whether no client is there whenever clients are counted.
pub open spec fn without_clients(events: Seq<FeedEvent>) -> bool {
    forall|i: int|
        0 <= i < events.len() ==> finds_no_client(#[trigger] events[i])
}

/// Whether a pause begins after an event later than `i` and earlier than `j`.
pub open spec fn pauses_between(feed: FeedView, events: Seq<FeedEvent>, i: int, j: int) -> bool {
    exists|k: int|
        i < k < j && #[trigger] action_at(feed, events, k) == FeedAction::Pause(PAUSE_SECONDS)
}

/// Whether `event` finds no client, if it counts them.
pub open spec fn finds_no_client(event: FeedEvent) -> bool {
    match event {
        FeedEvent::Published(clients) => clients == 0,
        FeedEvent::Clients(clients) => clients == 0,
        _ => true,
    }
}

/// One step: the pause is reached by pausing only, and left for a connection.
proof fn lemma_step_and_pause(feed: FeedView, event: FeedEvent)
    requires
        can_happen(feed, event),
        finds_no_client(event),
    ensures
        after(feed, event).0 is Pausing ==> after(feed, event).1 == FeedAction::Pause(
            PAUSE_SECONDS,
        ),
        after(feed, event).1 == FeedAction::Connect ==> feed is Pausing && after(
            feed,
            event,
        ).0 is Connecting,
{
    reveal(after_chunk);
}

/// One step: an image comes of reading only, and after it comes a pause.
proof fn lemma_step_and_image(feed: FeedView, event: FeedEvent)
    requires
        can_happen(feed, event),
        finds_no_client(event),
    ensures
        after(feed, event).1 == FeedAction::Publish ==> feed is Reading && after(
            feed,
            event,
        ).0 is Publishing,
        feed is Publishing || feed is RoundOver || feed is Stopped ==> {
            ||| after(feed, event).1 == FeedAction::Pause(PAUSE_SECONDS)
            ||| after(feed, event).0 is Publishing
            ||| after(feed, event).0 is RoundOver
            ||| after(feed, event).0 is Stopped
        },
{
    reveal(after_chunk);
}

/// What holds of each event of a run without clients.
proof fn lemma_event_of_run(feed: FeedView, events: Seq<FeedEvent>, k: int)
    requires
        is_run(feed, events),
        without_clients(events),
        0 <= k < events.len(),
    ensures
        can_happen(reached(feed, events, k as nat), events[k]),
        finds_no_client(events[k]),
        reached(feed, events, (k + 1) as nat) == after(
            reached(feed, events, k as nat),
            events[k],
        ).0,
{
}

/// A pause in a shorter stretch is one in a longer.
proof fn lemma_pause_in_longer(feed: FeedView, events: Seq<FeedEvent>, i: int, k: int)
    requires
        pauses_between(feed, events, i, k),
    ensures
        pauses_between(feed, events, i, k + 1),
{
    let p = choose|p: int|
        i < p < k && #[trigger] action_at(feed, events, p) == FeedAction::Pause(PAUSE_SECONDS);
    assert(i < p < k + 1 && action_at(feed, events, p) == FeedAction::Pause(PAUSE_SECONDS));
}

/// Without clients and without a pause, fetching that has connected, or has begun to, does not
/// come to connect.
proof fn lemma_no_pause_no_connection(feed: FeedView, events: Seq<FeedEvent>, i: int, m: int)
    requires
        is_run(feed, events),
        without_clients(events),
        -1 <= i < m <= events.len(),
        if i < 0 {
            feed is Connecting
        } else {
            action_at(feed, events, i) == FeedAction::Connect
        },
        !pauses_between(feed, events, i, m),
    ensures
        !(reached(feed, events, m as nat) is Pausing),
    decreases m,
{
    let k = m - 1;
    if k >= 0 {
        lemma_event_of_run(feed, events, k);
        lemma_step_and_pause(reached(feed, events, k as nat), events[k]);
    }
    if k > i {
        if pauses_between(feed, events, i, k) {
            lemma_pause_in_longer(feed, events, i, k);
        }
        lemma_no_pause_no_connection(feed, events, i, k);
        assert(action_at(feed, events, k) != FeedAction::Pause(PAUSE_SECONDS));
    }
}

/// Without clients and without a pause, fetching that has come to an image does not read on.
proof fn lemma_no_pause_no_image(feed: FeedView, events: Seq<FeedEvent>, i: int, m: int)
    requires
        is_run(feed, events),
        without_clients(events),
        0 <= i < m <= events.len(),
        action_at(feed, events, i) == FeedAction::Publish,
        !pauses_between(feed, events, i, m),
    ensures
        !(reached(feed, events, m as nat) is Reading),
        ({
            let f = reached(feed, events, m as nat);
            f is Publishing || f is RoundOver || f is Stopped
        }),
    decreases m,
{
    let k = m - 1;
    lemma_event_of_run(feed, events, k);
    lemma_step_and_image(reached(feed, events, k as nat), events[k]);
    if k > i {
        if pauses_between(feed, events, i, k) {
            lemma_pause_in_longer(feed, events, i, k);
        }
        lemma_no_pause_no_image(feed, events, i, k);
        assert(action_at(feed, events, k) != FeedAction::Pause(PAUSE_SECONDS));
    }
}

/// If there are no clients, the source is asked for images only once in each pause: between two
/// connections there is a pause.
pub proof fn law_without_clients_connections_are_rare(
    feed: FeedView,
    events: Seq<FeedEvent>,
    i: int,
    j: int,
)
    requires
        is_run(feed, events),
        without_clients(events),
        0 <= i < j < events.len(),
        action_at(feed, events, i) == FeedAction::Connect,
        action_at(feed, events, j) == FeedAction::Connect,
    ensures
        pauses_between(feed, events, i, j),
{
    if !pauses_between(feed, events, i, j) {
        lemma_no_pause_no_connection(feed, events, i, j);
        lemma_event_of_run(feed, events, j);
        lemma_step_and_pause(reached(feed, events, j as nat), events[j]);
    }
}

/// The connection that fetching begins with counts too: if there are no clients, there is a pause
/// before the next one.
pub proof fn law_without_clients_the_first_connection_is_alone(events: Seq<FeedEvent>, j: int)
    requires
        is_run(FeedView::Connecting, events),
        without_clients(events),
        0 <= j < events.len(),
        action_at(FeedView::Connecting, events, j) == FeedAction::Connect,
    ensures
        pauses_between(FeedView::Connecting, events, -1, j),
{
    if !pauses_between(FeedView::Connecting, events, -1, j) {
        lemma_no_pause_no_connection(FeedView::Connecting, events, -1, j);
        lemma_event_of_run(FeedView::Connecting, events, j);
        lemma_step_and_pause(reached(FeedView::Connecting, events, j as nat), events[j]);
    }
}

/// If there are no clients, only one image is fetched in each pause: between two images there is
/// a pause.
pub proof fn law_without_clients_images_are_rare(
    feed: FeedView,
    events: Seq<FeedEvent>,
    i: int,
    j: int,
)
    requires
        is_run(feed, events),
        without_clients(events),
        0 <= i < j < events.len(),
        action_at(feed, events, i) == FeedAction::Publish,
        action_at(feed, events, j) == FeedAction::Publish,
    ensures
        pauses_between(feed, events, i, j),
{
    if !pauses_between(feed, events, i, j) {
        lemma_no_pause_no_image(feed, events, i, j);
        lemma_event_of_run(feed, events, j);
        lemma_step_and_image(reached(feed, events, j as nat), events[j]);
    }
}

/// A source that goes away ends the round and no more: so does a failure, and an end of the
/// response.
pub proof fn law_failure_ends_the_round(feed: FeedView, event: FeedEvent)
    requires
        can_happen(feed, event),
        event is Failed || event is StreamEnd,
    ensures
        after(feed, event) == (FeedView::RoundOver, FeedAction::CountClients),
{
}

/// Every round is followed by the next, however it has ended: by a failure, an end of the response,
/// an image that is none, a bad length, or an image without clients. Then the clients are counted;
/// the next connection is made at once if there are any, and after a pause if there are none.
pub proof fn law_every_round_is_followed_by_a_connection(
    feed: FeedView,
    events: Seq<FeedEvent>,
    i: int,
)
    requires
        is_run(feed, events),
        0 <= i < events.len(),
        after(reached(feed, events, i as nat), events[i]).0 is RoundOver,
    ensures
        action_at(feed, events, i) == FeedAction::CountClients,
        i + 1 < events.len() ==> (events[i + 1] matches FeedEvent::Clients(clients) && if clients
            > 0 {
            action_at(feed, events, i + 1) == FeedAction::Connect
        } else {
            action_at(feed, events, i + 1) == FeedAction::Pause(PAUSE_SECONDS)
        }),
        i + 2 < events.len() && events[i + 1] == FeedEvent::Clients(0) ==> events[i + 2] is Resumed
            && action_at(feed, events, i + 2) == FeedAction::Connect,
{
    reveal(after_chunk);
    assert(reached(feed, events, (i + 1) as nat) is RoundOver);
    if i + 1 < events.len() {
        assert(can_happen(reached(feed, events, (i + 1) as nat), events[i + 1]));
    }
    if i + 2 < events.len() && events[i + 1] == FeedEvent::Clients(0) {
        assert(reached(feed, events, (i + 2) as nat) is Pausing);
        assert(can_happen(reached(feed, events, (i + 2) as nat), events[i + 2]));
    }
}

/// Fetching is given up only for a part whose header states what cannot be. Any other event leads
/// on.
pub proof fn law_only_impossible_parts_stop(feed: FeedView, event: FeedEvent)
    requires
        can_happen(feed, event),
        after(feed, event).1 == FeedAction::Stop,
    ensures
        feed matches FeedView::Reading(reader) && event matches FeedEvent::Chunk(chunk)
            && received(reader, chunk) matches Err(fault) && fault.spec_is_fatal(),
{
    reveal(after_chunk);
}

/// Only what begins as a JPEG image does is handed on, and while there are clients the next image
/// of the same connection follows.
pub proof fn law_only_images_are_published(feed: FeedView, event: FeedEvent, clients: nat)
    requires
        can_happen(feed, event),
        after(feed, event).1 == FeedAction::Publish,
    ensures
        after(feed, event).0 matches FeedView::Publishing(reader, image) && jpeg_header(
            image,
        ) is Some && (clients > 0 ==> after(
            after(feed, event).0,
            FeedEvent::Published(clients),
        ) == (FeedView::Reading(reader), FeedAction::ReadChunk)),
{
    reveal(after_chunk);
}

/// What is read after connecting is what the source sends, with the boundary that it has announced:
/// for every plain boundary, a chunk that begins with the header of a part for that boundary, with
/// any white space in it, and holds all bytes that the header announces and two for the line break,
/// leads to handing on exactly these bytes, if they begin as a JPEG image does; otherwise the round
/// is over. That the boundary makes a pattern and that the header is found is what `connected` and
/// `chunk` promise.
pub proof fn law_the_announced_boundary_is_read(
    boundary: Seq<char>,
    chunk: Seq<u8>,
    gap: Seq<char>,
    space: Seq<char>,
    digits: Seq<char>,
    body: Seq<u8>,
    rest: Seq<u8>,
)
    requires
        is_plain(boundary),
        is_pattern(header_pattern(boundary)),
        is_space(gap),
        is_space(space),
        is_numeral(digits),
        body.len() == numeral_value(digits) + 2,
        chunk == encode_utf8(
            "--"@ + boundary + "\r\nContent-type: image/jpeg"@ + gap + "Content-Length:"@ + space
                + digits + "\r\n\r\n"@,
        ) + body + rest,
        reads_spaced_parts(
            ReaderView { boundary, buffer: Seq::empty(), wanted: None },
            chunk,
        ),
    ensures
        ({
            let (reading, action) = after(FeedView::Connecting, FeedEvent::Connected(boundary));
            let next = after(reading, FeedEvent::Chunk(chunk));
            &&& action == FeedAction::ReadChunk
            &&& can_happen(reading, FeedEvent::Chunk(chunk))
            &&& jpeg_header(body) is Some ==> next == (
                FeedView::Publishing(ReaderView { boundary, buffer: rest, wanted: None }, body),
                FeedAction::Publish,
            )
            &&& jpeg_header(body) is None ==> next == (
                FeedView::RoundOver,
                FeedAction::CountClients,
            )
        }),
{
    reveal(after_chunk);
    let reader = ReaderView { boundary, buffer: Seq::<u8>::empty(), wanted: None };
    assert(reader.buffer + chunk =~= encode_utf8(spaced_header(boundary, gap, space, digits)) + body
        + rest);
    assert(received(reader, chunk) == Ok::<_, ReadFault>(
        (ReaderView { boundary, buffer: rest, wanted: None }, Some(body)),
    ));
}

/// A connection is read with the boundary that the source has announced and with nothing read yet;
/// one that makes no pattern ends the round.
pub proof fn law_connecting_begins_to_read(boundary: Seq<char>)
    ensures
        is_pattern(header_pattern(boundary)) ==> after(
            FeedView::Connecting,
            FeedEvent::Connected(boundary),
        ) == (
            FeedView::Reading(ReaderView { boundary, buffer: Seq::empty(), wanted: None }),
            FeedAction::ReadChunk,
        ),
        !is_pattern(header_pattern(boundary)) ==> after(
            FeedView::Connecting,
            FeedEvent::Connected(boundary),
        ) == (FeedView::RoundOver, FeedAction::CountClients),
{
}

/// What comes of a chunk goes by what the reader makes of it: an image is handed on, a part that is
/// none ends the round, a part that is not complete is read on, and a fault ends the round or, if it
/// is fatal, the fetching.
pub proof fn law_chunks_lead_on(reader: ReaderView, chunk: Seq<u8>)
    ensures
        ({
            let next = after(FeedView::Reading(reader), FeedEvent::Chunk(chunk));
            match received(reader, chunk) {
                Ok((rest, Some(image))) => next == (if jpeg_header(image) is Some {
                    (FeedView::Publishing(rest, image), FeedAction::Publish)
                } else {
                    (FeedView::RoundOver, FeedAction::CountClients)
                }),
                Ok((rest, None)) => next == (FeedView::Reading(rest), FeedAction::ReadChunk),
                Err(fault) => next == (if fault == ReadFault::BadPattern || fault
                    == ReadFault::BadLength {
                    (FeedView::RoundOver, FeedAction::CountClients)
                } else {
                    (FeedView::Stopped, FeedAction::Stop)
                }),
            }
        }),
{
    reveal(after_chunk);
}

/// Once an image is handed on, the same connection is read on where it was, if there are clients,
/// and otherwise the round is over. After a round the next connection is made at once if there are
/// clients, and otherwise after a pause of thirty seconds or less.
pub proof fn law_clients_decide_what_follows(reader: ReaderView, image: Seq<u8>, clients: nat)
    ensures
        clients > 0 ==> after(
            FeedView::Publishing(reader, image),
            FeedEvent::Published(clients),
        ) == (FeedView::Reading(reader), FeedAction::ReadChunk),
        after(FeedView::Publishing(reader, image), FeedEvent::Published(0)) == (
            FeedView::RoundOver,
            FeedAction::CountClients,
        ),
        clients > 0 ==> after(FeedView::RoundOver, FeedEvent::Clients(clients)) == (
            FeedView::Connecting,
            FeedAction::Connect,
        ),
        after(FeedView::RoundOver, FeedEvent::Clients(0)) == (
            FeedView::Pausing,
            FeedAction::Pause(30),
        ),
        after(FeedView::Pausing, FeedEvent::Resumed) == (FeedView::Connecting, FeedAction::Connect),
{
}

/// What can happen when: the source answers while it is being connected to, chunks and the end come
/// while it is read, images are handed on one at a time, clients are counted between rounds, a pause
/// ends, and connecting, reading and handing on can fail.
pub proof fn law_what_can_happen_when(
    reader: ReaderView,
    image: Seq<u8>,
    boundary: Seq<char>,
    chunk: Seq<u8>,
    clients: nat,
)
    ensures
        can_happen(FeedView::Connecting, FeedEvent::Connected(boundary)),
        can_happen(FeedView::Connecting, FeedEvent::Failed),
        can_happen(FeedView::Reading(reader), FeedEvent::Chunk(chunk)),
        can_happen(FeedView::Reading(reader), FeedEvent::StreamEnd),
        can_happen(FeedView::Reading(reader), FeedEvent::Failed),
        can_happen(FeedView::Publishing(reader, image), FeedEvent::Published(clients)),
        can_happen(FeedView::Publishing(reader, image), FeedEvent::Failed),
        can_happen(FeedView::RoundOver, FeedEvent::Clients(clients)),
        can_happen(FeedView::Pausing, FeedEvent::Resumed),
{
}

/// A feed stands in contracts as it is.
pub proof fn law_a_feed_stands_as_it_is(reader: ElementReader, image: Vec<u8>)
    ensures
        Feed::Connecting@ == FeedView::Connecting,
        Feed::Reading(reader)@ == FeedView::Reading(reader@),
        Feed::Publishing(reader, image)@ == FeedView::Publishing(reader@, image@),
        Feed::RoundOver@ == FeedView::RoundOver,
        Feed::Pausing@ == FeedView::Pausing,
        Feed::Stopped@ == FeedView::Stopped,
{
}

} // verus!
