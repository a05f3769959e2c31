//! The scans of a JPEG file, as far as they decide whether the decoder can take the file.
//!
//! The decoder checks each scan for itself, but some things it takes for granted. These are bounds
//! within which it is right to do so:
//!
//! - In a sequential frame the components that a scan is the first to hold come before those that
//!   an earlier scan has held. Otherwise the decoder refers to a row of blocks that is not there.
//! - The rows and columns of blocks that a scan of one component counts are, in samples, numbers of
//!   sixteen bits. Beyond that the decoder overflows where overflows are checked.
//! - In a progressive frame no coefficient can leave sixteen bits by being refined, whatever the
//!   symbols of the Huffman table are used for. Beyond that it may, and the decoder overflows where
//!   overflows are checked. Eight-bit images stay far within.
//! - The samples fit in memory, and the scans can be counted.
//!
//! A file is a sequence of markers, most of which begin a segment of stated length. The data of
//! a scan follow its segment, up to the next marker that is not a restart.
use vstd::arithmetic::power2::*;
use vstd::prelude::*;

verus! {

/// How many scans the decoder can count.
pub const MAX_SCANS: u32 = 2147483647;

/// How far a coefficient of sixteen bits can be from zero.
pub const MAX_REACH: u32 = 32768;

/// How many coefficients there are, 64 for each name that a component can have.
pub const COEFFICIENTS: usize = 16384;

/// The largest side for which eight times the number of blocks still has sixteen bits, whatever
/// the sampling.
pub const EASY_SIDE: u32 = 65528;

/// The number of sixteen bits at a place.
pub open spec fn number_at(bytes: Seq<u8>, at: int) -> nat {
    bytes[at] as nat * 256 + bytes[at + 1] as nat
}

/// Where the next marker ends, from a place on: it is a byte of ones and a byte that is neither
/// ones nor zeros.
pub open spec fn next_marker(bytes: Seq<u8>, at: int) -> Option<int>
    decreases bytes.len() - at,
{
    if at + 1 >= bytes.len() {
        None
    } else if bytes[at] == 0xFF && bytes[at + 1] != 0 && bytes[at + 1] != 0xFF {
        Some(at + 2)
    } else {
        next_marker(bytes, at + 1)
    }
}

/// A marker is found further on, within the file.
pub proof fn lemma_next_marker(bytes: Seq<u8>, at: int)
    ensures
        next_marker(bytes, at) matches Some(p) ==> at + 2 <= p <= bytes.len(),
    decreases bytes.len() - at,
{
    if at + 1 < bytes.len() {
        lemma_next_marker(bytes, at + 1);
    }
}

/// Whether a marker is a restart, which no segment follows.
pub open spec fn is_restart(code: u8) -> bool {
    0xD0 <= code <= 0xD7
}

/// Whether a marker begins a frame that the decoder takes: a sequential one, or a progressive one.
pub open spec fn is_frame(code: u8) -> bool {
    0xC0 <= code <= 0xC2
}

/// Whether a marker begins a progressive frame.
pub open spec fn is_progressive(code: u8) -> bool {
    code == 0xC2
}

/// Whether a marker begins Huffman tables.
pub open spec fn is_tables(code: u8) -> bool {
    code == 0xC4
}

/// Whether a marker begins a scan.
pub open spec fn is_scan(code: u8) -> bool {
    code == 0xDA
}

/// Whether a marker begins a segment that says nothing of the scans: quantisation tables, a
/// restart interval, application data or a comment.
pub open spec fn is_other(code: u8) -> bool {
    code == 0xDB || code == 0xDD || 0xE0 <= code <= 0xEF || code == 0xFE
}

/// Whether the decoder reads a segment after a marker. With any other, and with the end of the
/// image, it stops.
pub open spec fn begins_segment(code: u8) -> bool {
    is_frame(code) || is_tables(code) || is_scan(code) || is_other(code)
}

/// Where the segment that begins here ends. Its length is what it begins with.
pub open spec fn segment_end(bytes: Seq<u8>, at: int) -> int {
    at + number_at(bytes, at)
}

/// Whether the segment that begins here is all there.
pub open spec fn has_segment(bytes: Seq<u8>, at: int) -> bool {
    at + 2 <= bytes.len() && number_at(bytes, at) >= 2 && segment_end(bytes, at) <= bytes.len()
}

/// Whether the segment of a frame has the length that its number of components asks for.
pub open spec fn frame_is_formed(bytes: Seq<u8>, at: int) -> bool {
    number_at(bytes, at) >= 8 && number_at(bytes, at) == 8 + 3 * bytes[at + 7]
}

/// The height of a frame.
pub open spec fn frame_height(bytes: Seq<u8>, at: int) -> nat {
    number_at(bytes, at + 3)
}

/// The width of a frame.
pub open spec fn frame_width(bytes: Seq<u8>, at: int) -> nat {
    number_at(bytes, at + 5)
}

/// The name of component `i` of a frame.
pub open spec fn frame_component(bytes: Seq<u8>, at: int, i: int) -> u8 {
    bytes[at + 8 + 3 * i]
}

/// How densely component `i` of a frame is sampled along a row.
pub open spec fn across(bytes: Seq<u8>, at: int, i: int) -> int {
    bytes[at + 9 + 3 * i] as int / 16
}

/// How densely component `i` of a frame is sampled along a column.
pub open spec fn down(bytes: Seq<u8>, at: int, i: int) -> int {
    bytes[at + 9 + 3 * i] as int % 16
}

/// Whether no component is sampled more densely than `density` along a row.
pub open spec fn none_across(bytes: Seq<u8>, at: int, density: int) -> bool {
    forall|j: int| 0 <= j < bytes[at + 7] ==> #[trigger] across(bytes, at, j) <= density
}

/// Whether no component is sampled more densely than `density` along a column.
pub open spec fn none_down(bytes: Seq<u8>, at: int, density: int) -> bool {
    forall|j: int| 0 <= j < bytes[at + 7] ==> #[trigger] down(bytes, at, j) <= density
}

/// Whether the blocks of component `i`, in a scan of its own, are too many to be counted: that is
/// so near the largest height if no component is sampled more densely along a column, and near
/// the largest width if this one is sampled three times along a row, and none four times.
pub open spec fn overflows(bytes: Seq<u8>, at: int, i: int) -> bool {
    ||| frame_height(bytes, at) > EASY_SIDE && none_down(bytes, at, down(bytes, at, i))
    ||| frame_width(bytes, at) > EASY_SIDE && across(bytes, at, i) == 3 && none_across(bytes, at, 3)
}

/// Whether the component of this name, in a scan of its own, has blocks that can be counted.
pub open spec fn counts(bytes: Seq<u8>, at: int, name: u8) -> bool {
    forall|i: int|
        0 <= i < bytes[at + 7] && #[trigger] frame_component(bytes, at, i) == name ==> !overflows(
            bytes,
            at,
            i,
        )
}

/// Whether four bytes for each sample fit in memory, with the sides filled up to whole blocks.
pub open spec fn has_room(bytes: Seq<u8>, at: int) -> bool {
    (frame_width(bytes, at) + 31) * (frame_height(bytes, at) + 31) * 4 <= isize::MAX
}

/// Whether the segment of a scan holds one to four components, and has the length for them.
pub open spec fn scan_is_formed(bytes: Seq<u8>, at: int) -> bool {
    number_at(bytes, at) >= 3 && 1 <= bytes[at + 2] <= 4 && number_at(bytes, at) == 6 + 2 * bytes[at
        + 2]
}

/// The name of component `i` of a scan.
pub open spec fn scan_component(bytes: Seq<u8>, at: int, i: int) -> u8 {
    bytes[at + 3 + 2 * i]
}

/// Whether a scan holds a component.
pub open spec fn scan_holds(bytes: Seq<u8>, at: int, name: u8) -> bool {
    exists|i: int| 0 <= i < bytes[at + 2] && #[trigger] scan_component(bytes, at, i) == name
}

/// Whether a scan of a progressive frame holds coefficients other than the first.
pub open spec fn holds_later(bytes: Seq<u8>, at: int) -> bool {
    bytes[at + 3 + 2 * bytes[at + 2]] > 0
}

/// The bit down to which earlier scans have given the coefficients; zero if none has.
pub open spec fn scan_high(bytes: Seq<u8>, at: int) -> nat {
    bytes[at + 5 + 2 * bytes[at + 2]] as nat / 16
}

/// The bit down to which a scan gives the coefficients.
pub open spec fn scan_low(bytes: Seq<u8>, at: int) -> nat {
    bytes[at + 5 + 2 * bytes[at + 2]] as nat % 16
}

/// The Huffman table that a scan of one component uses for coefficients other than the first.
pub open spec fn scan_table(bytes: Seq<u8>, at: int) -> int {
    bytes[at + 4] as int % 16
}

/// Whether a scan of one component holds coefficient `i`. The coefficients of a component follow
/// those of the component with the name before.
pub open spec fn touches(bytes: Seq<u8>, at: int, i: int) -> bool {
    &&& i / 64 == scan_component(bytes, at, 0)
    &&& bytes[at + 3 + 2 * bytes[at + 2]] <= i % 64 <= bytes[at + 4 + 2 * bytes[at + 2]]
}

/// Two to the power of `bits`, for up to fifteen of them.
pub open spec fn power(bits: nat) -> nat
    decreases bits,
{
    if bits >= 15 {
        MAX_REACH as nat
    } else if bits == 0 {
        1
    } else {
        2 * power((bits - 1) as nat)
    }
}

/// How far from zero a coefficient of so many bits is at most, if its last bit is bit `low`: all
/// bits are ones. Where there are more than fifteen bits, it is as far as it can be.
pub open spec fn furthest(bits: nat, low: nat) -> nat {
    if bits + low > 15 {
        MAX_REACH as nat
    } else {
        (power(bits + low) - power(low)) as nat
    }
}

/// What has been read of a file: the frame, whether progressive and where; the components that
/// scans have held; how many bits a coefficient has at most by each of the four Huffman tables; how
/// far each coefficient is from zero at most; and how many scans there were.
pub struct Walk {
    pub frame: Option<(bool, int)>,
    pub seen: Set<u8>,
    pub magnitudes: Seq<nat>,
    pub reach: Seq<nat>,
    pub scans: nat,
}

/// Nothing has been read. A table that is used without having been given is refused, or stands for
/// a default table of ten bits.
pub open spec fn walk_start() -> Walk {
    Walk {
        frame: None,
        seen: Set::empty(),
        magnitudes: seq![10, 10, 10, 10],
        reach: Seq::new(COEFFICIENTS as nat, |i: int| 0),
        scans: 0,
    }
}

/// Whether the components that no scan has held come first.
pub open spec fn new_come_first(bytes: Seq<u8>, at: int, seen: Set<u8>) -> bool {
    forall|i: int, j: int|
        0 <= i < j < bytes[at + 2] && seen.contains(#[trigger] scan_component(bytes, at, i))
            ==> seen.contains(#[trigger] scan_component(bytes, at, j))
}

/// Whether a scan of a progressive frame refines coefficients.
pub open spec fn refines(bytes: Seq<u8>, at: int) -> bool {
    holds_later(bytes, at) && scan_high(bytes, at) > 0
}

/// Whether no coefficient that a scan refines can leave sixteen bits.
pub open spec fn refined_fit(bytes: Seq<u8>, at: int, reach: Seq<nat>) -> bool {
    forall|i: int|
        0 <= i < COEFFICIENTS && touches(bytes, at, i) ==> #[trigger] reach[i] + power(
            scan_low(bytes, at),
        ) <= MAX_REACH
}

/// Whether the decoder can take a scan. A scan before any frame, and one that is not well formed,
/// it refuses.
pub open spec fn scan_fits(bytes: Seq<u8>, at: int, walk: Walk) -> bool {
    match walk.frame {
        None => true,
        Some((progressive, frame)) => scan_is_formed(bytes, at) ==> {
            &&& walk.scans < MAX_SCANS
            &&& bytes[at + 2] == 1 ==> counts(bytes, frame, scan_component(bytes, at, 0))
            &&& !progressive ==> new_come_first(bytes, at, walk.seen)
            &&& progressive && refines(bytes, at) ==> refined_fit(bytes, at, walk.reach)
        },
    }
}

/// How far a coefficient that a scan holds is from zero at most after it: refined, it can have one
/// more bit; given, as many as the table allows.
pub open spec fn reach_after(bytes: Seq<u8>, at: int, walk: Walk, before: nat) -> nat {
    let table = scan_table(bytes, at);
    let bits = if table < 4 {
        walk.magnitudes[table]
    } else {
        0
    };
    let given = furthest(bits, scan_low(bytes, at));
    if refines(bytes, at) {
        before + power(scan_low(bytes, at))
    } else if given > before {
        given
    } else {
        before
    }
}

/// What has been read after a scan.
pub open spec fn after_scan(bytes: Seq<u8>, at: int, walk: Walk) -> Walk {
    match walk.frame {
        Some((progressive, _)) if scan_is_formed(bytes, at) => Walk {
            seen: Set::new(|name: u8| walk.seen.contains(name) || scan_holds(bytes, at, name)),
            reach: Seq::new(
                COEFFICIENTS as nat,
                |i: int|
                    if progressive && holds_later(bytes, at) && touches(bytes, at, i) {
                        reach_after(bytes, at, walk, walk.reach[i])
                    } else {
                        walk.reach[i]
                    },
            ),
            scans: walk.scans + 1,
            ..walk
        },
        _ => walk,
    }
}

/// The largest number of bits among the symbols from `at` to `end`, or `magnitude`.
pub open spec fn most_bits(bytes: Seq<u8>, at: int, end: int, magnitude: nat) -> nat
    decreases end - at,
{
    if at >= end {
        magnitude
    } else {
        let bits = bytes[at] as nat % 16;
        most_bits(
            bytes,
            at + 1,
            end,
            if bits > magnitude {
                bits
            } else {
                magnitude
            },
        )
    }
}

/// The sum of `n` bytes.
pub open spec fn sum_of(bytes: Seq<u8>, at: int, n: nat) -> nat
    decreases n,
{
    if n == 0 {
        0
    } else {
        sum_of(bytes, at, (n - 1) as nat) + bytes[at + n - 1] as nat
    }
}

/// The largest number of bits that each table gives a coefficient, after the Huffman tables from
/// `at` to `end`. A table is its class and index, how many symbols it has of each of sixteen
/// lengths, and the symbols.
pub open spec fn magnitudes_after(
    bytes: Seq<u8>,
    at: int,
    end: int,
    magnitudes: Seq<nat>,
) -> Seq<nat>
    decreases end - at,
{
    if end - at <= 17 {
        magnitudes
    } else {
        let next = at + 17 + sum_of(bytes, at + 1, 16);
        if next > end {
            magnitudes
        } else {
            magnitudes_after(
                bytes,
                next,
                end,
                if bytes[at] / 16 == 1 && bytes[at] % 16 < 4 {
                    magnitudes.update(
                        bytes[at] as int % 16,
                        most_bits(bytes, at + 17, next, 0),
                    )
                } else {
                    magnitudes
                },
            )
        }
    }
}

/// Whether a segment is the frame of the image.
pub open spec fn is_first_frame(bytes: Seq<u8>, code: u8, at: int, walk: Walk) -> bool {
    is_frame(code) && walk.frame is None && frame_is_formed(bytes, at)
}

/// What has been read after a segment that is no scan.
pub open spec fn after_segment(bytes: Seq<u8>, code: u8, at: int, walk: Walk) -> Walk {
    if is_first_frame(bytes, code, at, walk) {
        Walk { frame: Some((is_progressive(code), at)), ..walk }
    } else if is_tables(code) {
        Walk {
            magnitudes: magnitudes_after(
                bytes,
                at + 2,
                segment_end(bytes, at),
                walk.magnitudes,
            ),
            ..walk
        }
    } else {
        walk
    }
}

/// Whether the decoder can take the scans from a place on.
pub open spec fn sound_from(bytes: Seq<u8>, at: int, walk: Walk) -> bool
    decreases bytes.len() - at,
{
    proof {
        lemma_next_marker(bytes, at);
    }
    match next_marker(bytes, at) {
        None => true,
        Some(p) => {
            let code = bytes[p - 1];
            if is_restart(code) {
                sound_from(bytes, p, walk)
            } else if !begins_segment(code) || !has_segment(bytes, p) {
                true
            } else if is_scan(code) {
                scan_fits(bytes, p, walk) && sound_from(
                    bytes,
                    segment_end(bytes, p),
                    after_scan(bytes, p, walk),
                )
            } else {
                (is_first_frame(bytes, code, p, walk) ==> has_room(bytes, p)) && sound_from(
                    bytes,
                    segment_end(bytes, p),
                    after_segment(bytes, code, p, walk),
                )
            }
        },
    }
}

/// Whether the decoder can take the scans of a file. A file that does not begin with the marker of
/// an image it refuses.
pub open spec fn scans_are_sound(bytes: Seq<u8>) -> bool {
    bytes.len() >= 2 && bytes[0] == 0xFF && bytes[1] == 0xD8 ==> sound_from(bytes, 2, walk_start())
}

/// `Walk`, as it is kept.
struct ScanWalk {
    frame: Option<(bool, usize)>,
    seen: Vec<bool>,
    magnitudes: Vec<u32>,
    reach: Vec<u32>,
    scans: u32,
}

/// Numbers, as they stand in contracts.
spec fn numbers(kept: Seq<u32>) -> Seq<nat> {
    kept.map_values(|n: u32| n as nat)
}

impl View for ScanWalk {
    type V = Walk;

    closed spec fn view(&self) -> Walk {
        Walk {
            frame: match self.frame {
                Some((progressive, at)) => Some((progressive, at as int)),
                None => None,
            },
            seen: Set::new(|name: u8| self.seen@[name as int]),
            magnitudes: numbers(self.magnitudes@),
            reach: numbers(self.reach@),
            scans: self.scans as nat,
        }
    }
}

impl ScanWalk {
    /// There is a mark for each name, no number is beyond its bound, and the frame is in `bytes`.
    spec fn wf(&self, bytes: Seq<u8>) -> bool {
        &&& self.seen@.len() == 256
        &&& self.magnitudes@.len() == 4
        &&& forall|i: int| 0 <= i < 4 ==> #[trigger] self.magnitudes@[i] <= 15
        &&& self.reach@.len() == COEFFICIENTS
        &&& forall|i: int| 0 <= i < COEFFICIENTS ==> #[trigger] self.reach@[i] <= MAX_REACH
        &&& self.scans <= MAX_SCANS
        &&& self.frame matches Some((_, at)) ==> has_segment(bytes, at as int) && frame_is_formed(
            bytes,
            at as int,
        )
    }
}

/// Reads the number of sixteen bits at a place.
fn read_number(bytes: &Vec<u8>, at: usize) -> (number: usize)
    requires
        at + 2 <= bytes@.len(),
    ensures
        number == number_at(bytes@, at as int),
{
    assert(at + 2 <= bytes.len());
    bytes[at] as usize * 256 + bytes[at + 1] as usize
}

/// Finds the next marker.
fn find_marker(bytes: &Vec<u8>, from: usize) -> (found: Option<usize>)
    requires
        from <= bytes@.len(),
    ensures
        match next_marker(bytes@, from as int) {
            Some(p) => found matches Some(f) && f == p && from + 2 <= p <= bytes@.len(),
            None => found is None,
        },
{
    let mut at: usize = from;
    while bytes.len() - at > 1
        invariant
            from <= at <= bytes@.len(),
            next_marker(bytes@, from as int) == next_marker(bytes@, at as int),
        decreases bytes@.len() - at,
    {
        if bytes[at] == 0xFF && bytes[at + 1] != 0 && bytes[at + 1] != 0xFF {
            return Some(at + 2);
        }
        at = at + 1;
    }
    None
}

/// Tells whether the component of this name, in a scan of its own, has blocks that can be
/// counted.
fn check_counts(bytes: &Vec<u8>, at: usize, name: u8) -> (fit: bool)
    requires
        has_segment(bytes@, at as int),
        frame_is_formed(bytes@, at as int),
    ensures
        fit == counts(bytes@, at as int, name),
{
    assert(bytes.len() <= usize::MAX);
    let n: usize = bytes[at + 7] as usize;
    let tall = read_number(bytes, at + 3) > EASY_SIDE as usize;
    let wide = read_number(bytes, at + 5) > EASY_SIDE as usize;
    let mut most_across: u8 = 0;
    let mut most_down: u8 = 0;
    let mut k: usize = 0;
    while k < n
        invariant
            k <= n,
            n == bytes@[at + 7],
            at + 8 + 3 * n <= bytes@.len(),
            bytes.len() <= usize::MAX,
            forall|j: int| 0 <= j < k ==> #[trigger] across(bytes@, at as int, j) <= most_across,
            forall|j: int| 0 <= j < k ==> #[trigger] down(bytes@, at as int, j) <= most_down,
            k > 0 ==> exists|j: int|
                0 <= j < k && #[trigger] across(bytes@, at as int, j) == most_across,
            k > 0 ==> exists|j: int|
                0 <= j < k && #[trigger] down(bytes@, at as int, j) == most_down,
        decreases n - k,
    {
        let factors: u8 = bytes[at + 9 + 3 * k];
        assert(across(bytes@, at as int, k as int) == factors as int / 16);
        assert(down(bytes@, at as int, k as int) == factors as int % 16);
        if k == 0 || factors / 16 > most_across {
            most_across = factors / 16;
        }
        if k == 0 || factors % 16 > most_down {
            most_down = factors % 16;
        }
        k = k + 1;
    }
    let mut i: usize = 0;
    while i < n
        invariant
            i <= n,
            n == bytes@[at + 7],
            at + 8 + 3 * n <= bytes@.len(),
            bytes.len() <= usize::MAX,
            tall == (frame_height(bytes@, at as int) > EASY_SIDE),
            wide == (frame_width(bytes@, at as int) > EASY_SIDE),
            forall|j: int| 0 <= j < n ==> #[trigger] across(bytes@, at as int, j) <= most_across,
            forall|j: int| 0 <= j < n ==> #[trigger] down(bytes@, at as int, j) <= most_down,
            n > 0 ==> exists|j: int|
                0 <= j < n && #[trigger] across(bytes@, at as int, j) == most_across,
            n > 0 ==> exists|j: int|
                0 <= j < n && #[trigger] down(bytes@, at as int, j) == most_down,
            forall|j: int|
                0 <= j < i && #[trigger] frame_component(bytes@, at as int, j) == name
                    ==> !overflows(bytes@, at as int, j),
        decreases n - i,
    {
        let factors: u8 = bytes[at + 9 + 3 * i];
        assert(across(bytes@, at as int, i as int) == factors as int / 16);
        assert(down(bytes@, at as int, i as int) == factors as int % 16);
        let over = tall && factors % 16 == most_down || wide && factors / 16 == 3 && most_across
            == 3;
        assert(over == overflows(bytes@, at as int, i as int));
        if bytes[at + 8 + 3 * i] == name && over {
            assert(frame_component(bytes@, at as int, i as int) == name);
            return false;
        }
        i = i + 1;
    }
    true
}

/// Tells whether the samples of a frame fit in memory.
fn check_room(bytes: &Vec<u8>, at: usize) -> (fit: bool)
    requires
        has_segment(bytes@, at as int),
        frame_is_formed(bytes@, at as int),
    ensures
        fit == has_room(bytes@, at as int),
{
    assert(bytes.len() <= usize::MAX);
    let width: u64 = read_number(bytes, at + 5) as u64 + 31;
    let height: u64 = read_number(bytes, at + 3) as u64 + 31;
    assert(width * height <= 65566 * 65566) by (nonlinear_arith)
        requires
            width <= 65566,
            height <= 65566,
    ;
    width * height * 4 <= isize::MAX as u64
}

/// Tells whether the components that no scan has held come first.
fn check_new_come_first(bytes: &Vec<u8>, at: usize, walk: &ScanWalk) -> (fit: bool)
    requires
        walk.seen@.len() == 256,
        has_segment(bytes@, at as int),
        scan_is_formed(bytes@, at as int),
    ensures
        fit == new_come_first(bytes@, at as int, walk@.seen),
{
    assert(bytes.len() <= usize::MAX);
    let n: usize = bytes[at + 2] as usize;
    let mut met = false;
    let mut k: usize = 0;
    while k < n
        invariant
            k <= n,
            n == bytes@[at + 2],
            at + 6 + 2 * n <= bytes@.len(),
            bytes.len() <= usize::MAX,
            walk.seen@.len() == 256,
            met <==> exists|i: int|
                0 <= i < k && walk@.seen.contains(#[trigger] scan_component(bytes@, at as int, i)),
            forall|i: int, j: int|
                0 <= i < j < k && walk@.seen.contains(
                    #[trigger] scan_component(bytes@, at as int, i),
                ) ==> walk@.seen.contains(#[trigger] scan_component(bytes@, at as int, j)),
        decreases n - k,
    {
        let name: u8 = bytes[at + 3 + 2 * k];
        assert(scan_component(bytes@, at as int, k as int) == name);
        let held = walk.seen[name as usize];
        if met && !held {
            return false;
        }
        met = met || held;
        k = k + 1;
    }
    true
}

/// Computes `power`.
fn compute_power(bits: u32) -> (power_of: u32)
    ensures
        power_of == power(bits as nat),
        power_of <= MAX_REACH,
    decreases bits,
{
    proof {
        reveal_with_fuel(power, 16);
    }
    if bits >= 15 {
        MAX_REACH
    } else if bits == 0 {
        1
    } else {
        2 * compute_power(bits - 1)
    }
}

/// Two to the power of more bits is no less.
proof fn lemma_power_grows(low: nat, high: nat)
    requires
        low <= high,
    ensures
        1 <= power(low) <= power(high) <= MAX_REACH,
    decreases high - low,
{
    reveal_with_fuel(power, 16);
    if low < high {
        lemma_power_grows(low, (high - 1) as nat);
    }
}

/// Computes `furthest`.
fn compute_furthest(bits: u32, low: u32) -> (reach: u32)
    requires
        bits <= 15,
        low <= 15,
    ensures
        reach == furthest(bits as nat, low as nat),
        reach <= MAX_REACH,
{
    proof {
        lemma_power_grows(low as nat, (bits + low) as nat);
    }
    if bits + low > 15 {
        MAX_REACH
    } else {
        compute_power(bits + low) - compute_power(low)
    }
}

/// Tells whether no coefficient that a scan refines can leave sixteen bits.
fn check_refined(bytes: &Vec<u8>, at: usize, walk: &ScanWalk) -> (fit: bool)
    requires
        walk.wf(bytes@),
        has_segment(bytes@, at as int),
        scan_is_formed(bytes@, at as int),
    ensures
        fit == refined_fit(bytes@, at as int, walk@.reach),
{
    assert(bytes.len() <= usize::MAX);
    let n: usize = bytes[at + 2] as usize;
    let base: usize = bytes[at + 3] as usize * 64;
    let start: usize = bytes[at + 3 + 2 * n] as usize;
    let end: usize = bytes[at + 4 + 2 * n] as usize;
    let step: u32 = compute_power((bytes[at + 5 + 2 * n] % 16) as u32);
    let mut k: usize = start;
    while k <= end && k < 64
        invariant
            walk.wf(bytes@),
            n == bytes@[at + 2],
            base == bytes@[at + 3] * 64,
            start == bytes@[at + 3 + 2 * n],
            end == bytes@[at + 4 + 2 * n],
            step == power(scan_low(bytes@, at as int)),
            step <= MAX_REACH,
            start <= k,
            forall|i: int|
                base + start <= i < base + k ==> #[trigger] walk@.reach[i] + step <= MAX_REACH,
        decreases 64 - k,
    {
        assert(walk@.reach[base + k] == walk.reach@[base + k]);
        if walk.reach[base + k] + step > MAX_REACH {
            assert(touches(bytes@, at as int, base + k));
            return false;
        }
        k = k + 1;
    }
    true
}

/// Tells whether the decoder can take a scan.
fn check_scan(bytes: &Vec<u8>, at: usize, walk: &ScanWalk) -> (fit: bool)
    requires
        walk.wf(bytes@),
        has_segment(bytes@, at as int),
    ensures
        fit == scan_fits(bytes@, at as int, walk@),
{
    assert(bytes.len() <= usize::MAX);
    let (progressive, frame) = match walk.frame {
        None => {
            return true;
        },
        Some(frame) => frame,
    };
    let length = read_number(bytes, at);
    if length < 3 {
        return true;
    }
    let n: usize = bytes[at + 2] as usize;
    if n < 1 || n > 4 || length != 6 + 2 * n {
        return true;
    }
    if walk.scans >= MAX_SCANS {
        return false;
    }
    if n == 1 && !check_counts(bytes, frame, bytes[at + 3]) {
        return false;
    }
    if !progressive {
        return check_new_come_first(bytes, at, walk);
    }
    if bytes[at + 3 + 2 * n] > 0 && bytes[at + 5 + 2 * n] / 16 > 0 {
        check_refined(bytes, at, walk)
    } else {
        true
    }
}

/// Notes how far from zero the coefficients of a scan can be.
fn note_reach(bytes: &Vec<u8>, at: usize, walk: &mut ScanWalk)
    requires
        old(walk).wf(bytes@),
        has_segment(bytes@, at as int),
        scan_is_formed(bytes@, at as int),
        holds_later(bytes@, at as int),
        refines(bytes@, at as int) ==> refined_fit(bytes@, at as int, old(walk)@.reach),
    ensures
        final(walk).wf(bytes@),
        final(walk).seen == old(walk).seen,
        final(walk)@ == (Walk {
            reach: Seq::new(
                COEFFICIENTS as nat,
                |i: int|
                    if touches(bytes@, at as int, i) {
                        reach_after(bytes@, at as int, old(walk)@, old(walk)@.reach[i])
                    } else {
                        old(walk)@.reach[i]
                    },
            ),
            ..old(walk)@
        }),
{
    assert(bytes.len() <= usize::MAX);
    let n: usize = bytes[at + 2] as usize;
    let base: usize = bytes[at + 3] as usize * 64;
    let start: usize = bytes[at + 3 + 2 * n] as usize;
    let end: usize = bytes[at + 4 + 2 * n] as usize;
    let last: u8 = bytes[at + 5 + 2 * n];
    let refining = last / 16 > 0;
    let low: u32 = (last % 16) as u32;
    let step: u32 = compute_power(low);
    let table: usize = (bytes[at + 4] % 16) as usize;
    let bits: u32 = if table < 4 {
        walk.magnitudes[table]
    } else {
        0
    };
    let given: u32 = compute_furthest(bits, low);
    let ghost before = old(walk)@;
    assert(table < 4 ==> before.magnitudes[table as int] == bits);
    let mut k: usize = start;
    while k <= end && k < 64
        invariant
            n == bytes@[at + 2],
            base == bytes@[at + 3] * 64,
            start == bytes@[at + 3 + 2 * n],
            end == bytes@[at + 4 + 2 * n],
            0 < start <= k,
            k == start || (k <= end + 1 && k <= 64),
            refining == refines(bytes@, at as int),
            step == power(scan_low(bytes@, at as int)),
            given <= MAX_REACH,
            before == old(walk)@,
            before.reach.len() == COEFFICIENTS,
            refining ==> refined_fit(bytes@, at as int, before.reach),
            forall|r: nat| #[trigger]
                reach_after(bytes@, at as int, before, r) == (if refining {
                    r + step as nat
                } else if given > r {
                    given as nat
                } else {
                    r
                }),
            walk.wf(bytes@),
            walk.frame == old(walk).frame,
            walk.seen == old(walk).seen,
            walk.magnitudes == old(walk).magnitudes,
            walk.scans == old(walk).scans,
            forall|i: int|
                0 <= i < COEFFICIENTS ==> #[trigger] walk.reach@[i] == (if base + start <= i < base
                    + k {
                    reach_after(bytes@, at as int, before, before.reach[i])
                } else {
                    before.reach[i]
                }),
        decreases 64 - k,
    {
        let i: usize = base + k;
        assert(touches(bytes@, at as int, i as int));
        assert(walk.reach@[i as int] == before.reach[i as int]);
        let reach: u32 = walk.reach[i];
        let next: u32 = if refining {
            reach + step
        } else if given > reach {
            given
        } else {
            reach
        };
        walk.reach.set(i, next);
        k = k + 1;
    }
    assert forall|i: int| 0 <= i < COEFFICIENTS implies touches(bytes@, at as int, i) == (base
        + start <= i < base + k) by {}
    assert(walk@.reach =~= Seq::new(
        COEFFICIENTS as nat,
        |i: int|
            if touches(bytes@, at as int, i) {
                reach_after(bytes@, at as int, before, before.reach[i])
            } else {
                before.reach[i]
            },
    ));
}

/// Notes a scan that the decoder can take.
fn note_scan(bytes: &Vec<u8>, at: usize, walk: &mut ScanWalk)
    requires
        old(walk).wf(bytes@),
        has_segment(bytes@, at as int),
        scan_fits(bytes@, at as int, old(walk)@),
    ensures
        final(walk).wf(bytes@),
        final(walk)@ == after_scan(bytes@, at as int, old(walk)@),
{
    assert(bytes.len() <= usize::MAX);
    let progressive = match walk.frame {
        None => {
            return;
        },
        Some((progressive, _)) => progressive,
    };
    let length = read_number(bytes, at);
    if length < 3 {
        return;
    }
    let n: usize = bytes[at + 2] as usize;
    if n < 1 || n > 4 || length != 6 + 2 * n {
        return;
    }
    if progressive && bytes[at + 3 + 2 * n] > 0 {
        note_reach(bytes, at, walk);
    }
    assert(walk@.reach =~= after_scan(bytes@, at as int, old(walk)@).reach);
    walk.scans = walk.scans + 1;
    let ghost before = old(walk).seen@;
    let ghost reach = walk.reach@;
    let mut k: usize = 0;
    while k < n
        invariant
            k <= n,
            n == bytes@[at + 2],
            at + 6 + 2 * n <= bytes@.len(),
            bytes.len() <= usize::MAX,
            walk.seen@.len() == 256,
            before.len() == 256,
            forall|name: u8|
                #[trigger] walk.seen@[name as int] <==> before[name as int] || exists|i: int|
                    0 <= i < k && #[trigger] scan_component(bytes@, at as int, i) == name,
            walk.frame == old(walk).frame,
            walk@.magnitudes == old(walk)@.magnitudes,
            walk.magnitudes@.len() == 4,
            forall|i: int| 0 <= i < 4 ==> #[trigger] walk.magnitudes@[i] <= 15,
            walk.reach@ == reach,
            walk.scans == old(walk).scans + 1,
        decreases n - k,
    {
        let name: u8 = bytes[at + 3 + 2 * k];
        assert(scan_component(bytes@, at as int, k as int) == name);
        let ghost earlier = walk.seen@;
        walk.seen.set(name as usize, true);
        k = k + 1;
        assert forall|other: u8|
            #[trigger] walk.seen@[other as int] <==> before[other as int] || exists|i: int|
                0 <= i < k && #[trigger] scan_component(bytes@, at as int, i) == other by {
            if other == name {
                assert(scan_component(bytes@, at as int, k - 1) == other);
            } else {
                assert(walk.seen@[other as int] == earlier[other as int]);
            }
        }
    }
    assert(walk@.seen =~= after_scan(bytes@, at as int, old(walk)@).seen);
}

/// Finds the largest number of bits among the symbols from `at` to `end`.
fn find_most_bits(bytes: &Vec<u8>, from: usize, end: usize, least: u32) -> (magnitude: u32)
    requires
        from <= end <= bytes@.len(),
        least <= 15,
    ensures
        magnitude == most_bits(bytes@, from as int, end as int, least as nat),
        magnitude <= 15,
{
    let mut magnitude: u32 = least;
    let mut at: usize = from;
    while at < end
        invariant
            from <= at <= end <= bytes@.len(),
            magnitude <= 15,
            most_bits(bytes@, from as int, end as int, least as nat) == most_bits(
                bytes@,
                at as int,
                end as int,
                magnitude as nat,
            ),
        decreases end - at,
    {
        let bits: u32 = (bytes[at] % 16) as u32;
        if bits > magnitude {
            magnitude = bits;
        }
        at = at + 1;
    }
    magnitude
}

/// Adds up sixteen bytes.
fn add_up(bytes: &Vec<u8>, at: usize) -> (sum: usize)
    requires
        at + 16 <= bytes@.len(),
    ensures
        sum == sum_of(bytes@, at as int, 16),
        sum <= 4080,
{
    assert(bytes.len() <= usize::MAX);
    let mut sum: usize = 0;
    let mut k: usize = 0;
    while k < 16
        invariant
            k <= 16,
            at + 16 <= bytes@.len(),
            bytes.len() <= usize::MAX,
            sum == sum_of(bytes@, at as int, k as nat),
            sum <= 255 * k,
        decreases 16 - k,
    {
        sum = sum + bytes[at + k] as usize;
        k = k + 1;
    }
    sum
}

/// Notes the largest number of bits that Huffman tables give a coefficient.
fn note_tables(bytes: &Vec<u8>, from: usize, end: usize, magnitudes: &mut Vec<u32>)
    requires
        from <= end <= bytes@.len(),
        old(magnitudes)@.len() == 4,
        forall|i: int| 0 <= i < 4 ==> #[trigger] old(magnitudes)@[i] <= 15,
    ensures
        final(magnitudes)@.len() == 4,
        forall|i: int| 0 <= i < 4 ==> #[trigger] final(magnitudes)@[i] <= 15,
        numbers(final(magnitudes)@) == magnitudes_after(
            bytes@,
            from as int,
            end as int,
            numbers(old(magnitudes)@),
        ),
{
    assert(bytes.len() <= usize::MAX);
    let mut at: usize = from;
    while end - at > 17
        invariant
            from <= at <= end <= bytes@.len(),
            bytes.len() <= usize::MAX,
            magnitudes@.len() == 4,
            forall|i: int| 0 <= i < 4 ==> #[trigger] magnitudes@[i] <= 15,
            magnitudes_after(bytes@, from as int, end as int, numbers(old(magnitudes)@))
                == magnitudes_after(bytes@, at as int, end as int, numbers(magnitudes@)),
        decreases end - at,
    {
        let size = add_up(bytes, at + 1);
        if size > end - at - 17 {
            return;
        }
        let next = at + 17 + size;
        let kind: u8 = bytes[at];
        if kind / 16 == 1 && kind % 16 < 4 {
            let ghost before = numbers(magnitudes@);
            let most = find_most_bits(bytes, at + 17, next, 0);
            magnitudes.set((kind % 16) as usize, most);
            assert(numbers(magnitudes@) =~= before.update(kind as int % 16, most as nat));
        }
        at = next;
    }
}

/// Tells whether the decoder can take the scans of a file.
pub fn check_scans(bytes: &Vec<u8>) -> (fit: bool)
    ensures
        fit == scans_are_sound(bytes@),
{
    if bytes.len() < 2 || bytes[0] != 0xFF || bytes[1] != 0xD8 {
        return true;
    }
    let mut seen: Vec<bool> = Vec::new();
    while seen.len() < 256
        invariant
            seen@.len() <= 256,
            forall|i: int| 0 <= i < seen@.len() ==> !(#[trigger] seen@[i]),
        decreases 256 - seen@.len(),
    {
        seen.push(false);
    }
    let mut reach: Vec<u32> = Vec::new();
    while reach.len() < COEFFICIENTS
        invariant
            reach@.len() <= COEFFICIENTS,
            forall|i: int| 0 <= i < reach@.len() ==> #[trigger] reach@[i] == 0,
        decreases COEFFICIENTS - reach@.len(),
    {
        reach.push(0);
    }
    let magnitudes: Vec<u32> = vec![10, 10, 10, 10];
    let mut walk = ScanWalk { frame: None, seen, magnitudes, reach, scans: 0 };
    assert(walk@.seen =~= walk_start().seen);
    assert(walk@.magnitudes =~= walk_start().magnitudes);
    assert(walk@.reach =~= walk_start().reach);
    let mut at: usize = 2;
    loop
        invariant
            at <= bytes@.len(),
            walk.wf(bytes@),
            bytes@.len() >= 2 && bytes@[0] == 0xFF && bytes@[1] == 0xD8,
            sound_from(bytes@, 2, walk_start()) == sound_from(bytes@, at as int, walk@),
        decreases bytes@.len() - at,
    {
        let p = match find_marker(bytes, at) {
            None => {
                return true;
            },
            Some(p) => p,
        };
        let code: u8 = bytes[p - 1];
        if 0xD0 <= code && code <= 0xD7 {
            at = p;
        } else {
            let frame = 0xC0 <= code && code <= 0xC2;
            let known = frame || code == 0xC4 || 0xDA <= code && code <= 0xDB || code == 0xDD
                || 0xE0 <= code && code <= 0xEF || code == 0xFE;
            if !known || bytes.len() - p < 2 {
                return true;
            }
            let length = read_number(bytes, p);
            if length < 2 || length > bytes.len() - p {
                return true;
            }
            if code == 0xDA {
                if !check_scan(bytes, p, &walk) {
                    return false;
                }
                note_scan(bytes, p, &mut walk);
            } else if code == 0xC4 {
                note_tables(bytes, p + 2, p + length, &mut walk.magnitudes);
            } else if frame && walk.frame.is_none() && length >= 8 && length == 8 + 3 * (bytes[p
                + 7] as usize) {
                if !check_room(bytes, p) {
                    return false;
                }
                walk.frame = Some((code == 0xC2, p));
            }
            at = p + length;
        }
    }
}

/// Whether the marker of this code stands at a place.
pub open spec fn is_marker(bytes: Seq<u8>, at: int, code: u8) -> bool {
    0 <= at && at + 1 < bytes.len() && bytes[at] == 0xFF && bytes[at + 1] == code
}

/// Whether wherever the marker of a frame stands, the sides after it are short of the largest, and
/// four bytes for each sample fit in memory.
pub open spec fn sides_are_easy(bytes: Seq<u8>) -> bool {
    forall|f: int, code: u8| #[trigger]
        is_marker(bytes, f, code) && 0xC0 <= code <= 0xC2 && f + 9 <= bytes.len() ==> {
            let height = bytes[f + 5] * 256 + bytes[f + 6];
            let width = bytes[f + 7] * 256 + bytes[f + 8];
            height <= 65528 && width <= 65528 && (width + 31) * (height + 31) * 4 <= isize::MAX
        }
}

/// Whether no component stands in two scans.
pub open spec fn scans_are_apart(bytes: Seq<u8>) -> bool {
    forall|s: int, t: int, i: int, j: int|
        is_marker(bytes, s, 0xDA) && is_marker(bytes, t, 0xDA) && s != t && 0 <= i < bytes[s + 4]
            && 0 <= j < bytes[t + 4] ==> #[trigger] bytes[s + 5 + 2 * i] != #[trigger] bytes[t + 5
            + 2 * j]
}

/// What a walk has noted where the scans are apart, or nothing is refined.
spec fn keeps_apart(bytes: Seq<u8>, at: int, walk: Walk) -> bool {
    &&& 0 <= walk.scans <= at
    &&& walk.frame matches Some((progressive, f)) ==> {
        &&& is_marker(bytes, f - 2, bytes[f - 1])
        &&& 0xC0 <= bytes[f - 1] <= 0xC2
        &&& progressive == (bytes[f - 1] == 0xC2)
        &&& f + 8 <= bytes.len()
    }
    &&& forall|name: u8| #[trigger]
        walk.seen.contains(name) ==> exists|s: int, i: int|
            is_marker(bytes, s, 0xDA) && s < at && 0 <= i < bytes[s + 4] && name
                == #[trigger] bytes[s + 5 + 2 * i]
}

/// A marker is where one is found.
proof fn lemma_marker_is_there(bytes: Seq<u8>, at: int)
    requires
        0 <= at,
    ensures
        next_marker(bytes, at) matches Some(p) ==> at + 2 <= p && is_marker(
            bytes,
            p - 2,
            bytes[p - 1],
        ),
    decreases bytes.len() - at,
{
    if at + 1 < bytes.len() {
        lemma_marker_is_there(bytes, at + 1);
    }
}

/// Files whose scans are apart, or that have no refinement, are sound from any place on.
proof fn lemma_apart_is_sound(bytes: Seq<u8>, at: int, walk: Walk)
    requires
        2 <= at,
        bytes.len() <= 2147483647,
        sides_are_easy(bytes),
        (forall|f: int| !(#[trigger] is_marker(bytes, f, 0xC2))) && scans_are_apart(bytes) || (
        forall|f: int| !(#[trigger] is_marker(bytes, f, 0xC0))) && (forall|f: int|
            !(#[trigger] is_marker(bytes, f, 0xC1))) && (forall|s: int|
            #[trigger] is_marker(bytes, s, 0xDA) ==> bytes[s + 7 + 2 * bytes[s + 4]] < 16),
        keeps_apart(bytes, at, walk),
    ensures
        sound_from(bytes, at, walk),
    decreases bytes.len() - at,
{
    lemma_next_marker(bytes, at);
    lemma_marker_is_there(bytes, at);
    if let Some(p) = next_marker(bytes, at) {
        let code = bytes[p - 1];
        assert(is_marker(bytes, p - 2, code));
        if is_restart(code) {
            lemma_apart_is_sound(bytes, p, walk);
        } else if begins_segment(code) && has_segment(bytes, p) {
            let end = segment_end(bytes, p);
            if is_scan(code) {
                assert(is_marker(bytes, p - 2, 0xDA));
                let next = after_scan(bytes, p, walk);
                if walk.frame is Some && scan_is_formed(bytes, p) {
                    let (progressive, f) = walk.frame.unwrap();
                    assert(is_marker(bytes, f - 2, bytes[f - 1]));
                    assert(frame_height(bytes, f) <= EASY_SIDE);
                    assert(frame_width(bytes, f) <= EASY_SIDE);
                    if !progressive {
                        assert forall|i: int, j: int|
                            0 <= i < j < bytes[p + 2] && walk.seen.contains(
                                #[trigger] scan_component(bytes, p, i),
                            ) implies walk.seen.contains(
                            #[trigger] scan_component(bytes, p, j),
                        ) by {
                            let name = scan_component(bytes, p, i);
                            let (s, k) = choose|s: int, k: int|
                                is_marker(bytes, s, 0xDA) && s < at && 0 <= k < bytes[s + 4] && name
                                    == #[trigger] bytes[s + 5 + 2 * k];
                            assert(is_marker(bytes, f - 2, 0xC0) || is_marker(bytes, f - 2, 0xC1));
                            assert(bytes[s + 5 + 2 * k] != bytes[(p - 2) + 5 + 2 * i]);
                        }
                    } else {
                        assert(scan_high(bytes, p) == 0);
                    }
                    assert forall|name: u8| #[trigger] next.seen.contains(name) implies exists|
                        s: int,
                        i: int,
                    |
                        is_marker(bytes, s, 0xDA) && s < end && 0 <= i < bytes[s + 4] && name
                            == #[trigger] bytes[s + 5 + 2 * i] by {
                        if walk.seen.contains(name) {
                            let (s, k) = choose|s: int, k: int|
                                is_marker(bytes, s, 0xDA) && s < at && 0 <= k < bytes[s + 4] && name
                                    == #[trigger] bytes[s + 5 + 2 * k];
                            assert(is_marker(bytes, s, 0xDA) && s < end && name == bytes[s + 5 + 2
                                * k]);
                        } else {
                            let k = choose|k: int|
                                0 <= k < bytes[p + 2] && #[trigger] scan_component(bytes, p, k)
                                    == name;
                            assert(name == bytes[(p - 2) + 5 + 2 * k]);
                        }
                    }
                }
                lemma_apart_is_sound(bytes, end, next);
            } else {
                let next = after_segment(bytes, code, p, walk);
                if is_first_frame(bytes, code, p, walk) {
                    assert(is_marker(bytes, p - 2, code) && 0xC0 <= code <= 0xC2);
                    assert(has_room(bytes, p));
                }
                lemma_apart_is_sound(bytes, end, next);
            }
        }
    }
}

/// An ordinary file is sound: a sequential one in which no component stands in two scans, as in one
/// with a single scan, and a progressive one without refinement; provided that its sides are short
/// of the largest, and that it fits in memory.
pub proof fn law_ordinary_files_are_sound(bytes: Seq<u8>)
    requires
        bytes.len() <= 2147483647,
        sides_are_easy(bytes),
        (forall|f: int| !(#[trigger] is_marker(bytes, f, 0xC2))) && scans_are_apart(bytes) || (
        forall|f: int| !(#[trigger] is_marker(bytes, f, 0xC0))) && (forall|f: int|
            !(#[trigger] is_marker(bytes, f, 0xC1))) && (forall|s: int|
            #[trigger] is_marker(bytes, s, 0xDA) ==> bytes[s + 7 + 2 * bytes[s + 4]] < 16),
    ensures
        scans_are_sound(bytes),
{
    lemma_apart_is_sound(bytes, 2, walk_start());
}

/// Where nothing of an image stands at the start, there is nothing to be unsound.
pub proof fn law_what_is_no_image_is_sound(bytes: Seq<u8>)
    requires
        bytes.len() < 2 || bytes[0] != 0xFF || bytes[1] != 0xD8,
    ensures
        scans_are_sound(bytes),
{
}

/// A file is read marker by marker. What is no marker and what is a restart is passed over; the end
/// of the image, and whatever else the decoder stops at, ends the reading; a scan must fit; a first
/// frame must have room; and a segment is passed over by its length.
pub proof fn law_files_are_read_marker_by_marker(bytes: Seq<u8>, at: int, walk: Walk)
    requires
        0 <= at,
        at + 1 < bytes.len(),
    ensures
        bytes[at] != 0xFF || bytes[at + 1] == 0 || bytes[at + 1] == 0xFF ==> sound_from(
            bytes,
            at,
            walk,
        ) == sound_from(bytes, at + 1, walk),
        bytes[at] == 0xFF && bytes[at + 1] != 0 && bytes[at + 1] != 0xFF ==> {
            let code = bytes[at + 1];
            let p = at + 2;
            let length = bytes[at + 2] * 256 + bytes[at + 3];
            let whole = at + 4 <= bytes.len() && length >= 2 && p + length <= bytes.len();
            let known = 0xC0 <= code <= 0xC2 || code == 0xC4 || code == 0xDA || code == 0xDB || code
                == 0xDD || 0xE0 <= code <= 0xEF || code == 0xFE;
            if 0xD0 <= code <= 0xD7 {
                sound_from(bytes, at, walk) == sound_from(bytes, p, walk)
            } else if !known || !whole {
                sound_from(bytes, at, walk)
            } else if code == 0xDA {
                sound_from(bytes, at, walk) == (scan_fits(bytes, p, walk) && sound_from(
                    bytes,
                    p + length,
                    after_scan(bytes, p, walk),
                ))
            } else if 0xC0 <= code <= 0xC2 && walk.frame is None && length >= 8 && length == 8 + 3
                * bytes[at + 9] {
                sound_from(bytes, at, walk) == ((bytes[at + 7] * 256 + bytes[at + 8] + 31) * (
                bytes[at + 5] * 256 + bytes[at + 6] + 31) * 4 <= isize::MAX && sound_from(
                    bytes,
                    p + length,
                    Walk { frame: Some((code == 0xC2, p)), ..walk },
                ))
            } else if code == 0xC4 {
                sound_from(bytes, at, walk) == sound_from(
                    bytes,
                    p + length,
                    Walk {
                        magnitudes: magnitudes_after(
                            bytes,
                            p + 2,
                            p + length,
                            walk.magnitudes,
                        ),
                        ..walk
                    },
                )
            } else {
                sound_from(bytes, at, walk) == sound_from(bytes, p + length, walk)
            }
        },
{
}

/// When a scan fits, of one to four components: the scans can be counted; blocks can, if it is of one
/// component; in a sequential frame a component that came before is followed by such components
/// only; and in a progressive frame every coefficient that it refines stays within sixteen bits.
pub proof fn law_when_a_scan_fits(bytes: Seq<u8>, at: int, walk: Walk, progressive: bool, f: int)
    requires
        walk.frame == Some((progressive, f)),
        1 <= bytes[at + 2] <= 4,
        bytes[at] * 256 + bytes[at + 1] == 6 + 2 * bytes[at + 2],
        walk.scans < 2147483647,
        bytes[at + 2] == 1 ==> counts(bytes, f, bytes[at + 3]),
    ensures
        !progressive ==> (scan_fits(bytes, at, walk) <==> forall|i: int, j: int|
            0 <= i < j < bytes[at + 2] && walk.seen.contains(#[trigger] bytes[at + 3 + 2 * i])
                ==> walk.seen.contains(#[trigger] bytes[at + 3 + 2 * j])),
        progressive && (bytes[at + 3 + 2 * bytes[at + 2]] == 0 || bytes[at + 5 + 2 * bytes[at + 2]]
            < 16) ==> scan_fits(bytes, at, walk),
        progressive && bytes[at + 3 + 2 * bytes[at + 2]] > 0 && bytes[at + 5 + 2 * bytes[at + 2]]
            >= 16 ==> (scan_fits(bytes, at, walk) <==> forall|i: int|
            0 <= i < 16384 && i / 64 == bytes[at + 3] && bytes[at + 3 + 2 * bytes[at + 2]] <= i % 64
                <= bytes[at + 4 + 2 * bytes[at + 2]] ==> #[trigger] walk.reach[i] + power(
                bytes[at + 5 + 2 * bytes[at + 2]] as nat % 16,
            ) <= 32768),
{
    if !progressive {
        if scan_fits(bytes, at, walk) {
            assert forall|i: int, j: int|
                0 <= i < j < bytes[at + 2] && walk.seen.contains(
                    #[trigger] bytes[at + 3 + 2 * i],
                ) implies walk.seen.contains(#[trigger] bytes[at + 3 + 2 * j]) by {
                assert(walk.seen.contains(scan_component(bytes, at, i)));
                assert(walk.seen.contains(scan_component(bytes, at, j)));
            }
        } else {
            let (i, j) = choose|i: int, j: int|
                0 <= i < j < bytes[at + 2] && walk.seen.contains(
                    #[trigger] scan_component(bytes, at, i),
                ) && !walk.seen.contains(#[trigger] scan_component(bytes, at, j));
            assert(walk.seen.contains(bytes[at + 3 + 2 * i]));
            assert(!walk.seen.contains(bytes[at + 3 + 2 * j]));
        }
    }
}

/// Blocks can be counted unless a side is near the largest.
pub proof fn law_blocks_can_be_counted(bytes: Seq<u8>, f: int, name: u8)
    requires
        bytes[f + 3] * 256 + bytes[f + 4] <= 65528,
        bytes[f + 5] * 256 + bytes[f + 6] <= 65528,
    ensures
        counts(bytes, f, name),
{
}

/// Two to the power of a number of bits is what its name says.
proof fn lemma_power_is_pow2(bits: nat)
    requires
        bits <= 15,
    ensures
        power(bits) == pow2(bits),
    decreases bits,
{
    lemma2_to64();
    if bits > 0 {
        lemma_pow2_unfold(bits);
        if bits < 15 {
            lemma_power_is_pow2((bits - 1) as nat);
        }
    }
}

/// Coefficients that are given down to one bit and refined bit by bit stay within sixteen bits,
/// wherever the bits of the table and those below have room in fifteen: refined down to bit `k`, a
/// coefficient is at most all ones from there on.
pub proof fn law_refining_in_order_fits(bits: nat, low: nat, k: nat)
    requires
        bits + low <= 15,
        k <= low,
    ensures
        power(k) == pow2(k),
        furthest(bits, low) == pow2(bits + low) - pow2(low),
        k > 0 ==> (pow2(bits + low) - pow2(k)) + power((k - 1) as nat) == pow2(bits + low) - pow2(
            (k - 1) as nat,
        ),
        pow2(bits + low) - pow2(k) + power(k) <= 32768,
{
    lemma2_to64();
    lemma_power_is_pow2(k);
    lemma_power_is_pow2(low);
    lemma_power_is_pow2(bits + low);
    lemma_power_grows(low, bits + low);
    if k > 0 {
        lemma_pow2_unfold(k);
        lemma_power_is_pow2((k - 1) as nat);
    }
}

/// What a scan leaves behind: it is counted; its components have been held; in a progressive frame a
/// coefficient that it refines can be further from zero by the bit that it refines, and one that it
/// gives as far as the table that it names allows; and all else stays as it is.
pub proof fn law_what_a_scan_leaves_behind(
    bytes: Seq<u8>,
    at: int,
    walk: Walk,
    progressive: bool,
    f: int,
    name: u8,
    i: int,
)
    requires
        walk.frame == Some((progressive, f)),
        1 <= bytes[at + 2] <= 4,
        bytes[at] * 256 + bytes[at + 1] == 6 + 2 * bytes[at + 2],
        0 <= i < 16384,
        walk.magnitudes.len() == 4,
        bytes[at + 4] % 16 < 4,
    ensures
        ({
            let next = after_scan(bytes, at, walk);
            let start = bytes[at + 3 + 2 * bytes[at + 2]];
            let end = bytes[at + 4 + 2 * bytes[at + 2]];
            let low = bytes[at + 5 + 2 * bytes[at + 2]] as nat % 16;
            let refining = bytes[at + 5 + 2 * bytes[at + 2]] >= 16;
            let bits = walk.magnitudes[bytes[at + 4] as int % 16];
            &&& next.frame == walk.frame
            &&& next.magnitudes == walk.magnitudes
            &&& next.scans == walk.scans + 1
            &&& next.seen.contains(name) <==> walk.seen.contains(name) || exists|k: int|
                0 <= k < bytes[at + 2] && #[trigger] bytes[at + 3 + 2 * k] == name
            &&& next.reach.len() == 16384
            &&& next.reach[i] == (if progressive && start > 0 && i / 64 == bytes[at + 3] && start
                <= i % 64 <= end {
                if refining {
                    walk.reach[i] + power(low)
                } else if furthest(bits, low) > walk.reach[i] {
                    furthest(bits, low)
                } else {
                    walk.reach[i]
                }
            } else {
                walk.reach[i]
            })
        }),
{
    let next = after_scan(bytes, at, walk);
    if scan_holds(bytes, at, name) {
        let k = choose|k: int|
            0 <= k < bytes[at + 2] && #[trigger] scan_component(bytes, at, k) == name;
        assert(bytes[at + 3 + 2 * k] == name);
    }
    assert forall|k: int|
        0 <= k < bytes[at + 2] && #[trigger] bytes[at + 3 + 2 * k] == name implies scan_holds(
        bytes,
        at,
        name,
    ) by {
        assert(scan_component(bytes, at, k) == name);
    }
}

/// The most bits among symbols is no fewer than any symbol has, and no more than one of them has;
/// and a sum of bytes grows by the byte that is added.
pub proof fn law_most_bits_and_sums(
    bytes: Seq<u8>,
    at: int,
    end: int,
    least: nat,
    i: int,
    n: nat,
)
    requires
        at <= end,
    ensures
        most_bits(bytes, at, end, least) >= least,
        at <= i < end ==> most_bits(bytes, at, end, least) >= bytes[i] as nat % 16,
        most_bits(bytes, at, end, least) == least || exists|k: int|
            at <= k < end && most_bits(bytes, at, end, least) == #[trigger] bytes[k] as nat % 16,
        sum_of(bytes, at, 0) == 0,
        sum_of(bytes, at, n + 1) == sum_of(bytes, at, n) + bytes[at + n],
    decreases end - at,
{
    if at < end {
        let bits = bytes[at] as nat % 16;
        let next = if bits > least {
            bits
        } else {
            least
        };
        law_most_bits_and_sums(bytes, at + 1, end, next, i, n);
        assert(bytes[at] as nat % 16 == bits);
    }
}

/// Huffman tables are read one after the other: each one of the second class takes the place of the
/// one with its index, with the most bits that its symbols have, and the others do not count.
pub proof fn law_tables_are_read_in_order(
    bytes: Seq<u8>,
    at: int,
    end: int,
    magnitudes: Seq<nat>,
)
    ensures
        end - at <= 17 ==> magnitudes_after(bytes, at, end, magnitudes) == magnitudes,
        end - at > 17 && at + 17 + sum_of(bytes, at + 1, 16) <= end ==> {
            let next = at + 17 + sum_of(bytes, at + 1, 16);
            magnitudes_after(bytes, at, end, magnitudes) == magnitudes_after(
                bytes,
                next,
                end,
                if 16 <= bytes[at] <= 19 {
                    magnitudes.update(bytes[at] - 16, most_bits(bytes, at + 17, next, 0))
                } else {
                    magnitudes
                },
            )
        },
{
}

/// Nothing has been read at the start, and a table that was not given has ten bits.
pub proof fn law_nothing_is_read_at_the_start(i: int, name: u8)
    ensures
        walk_start().frame is None,
        walk_start().scans == 0,
        !walk_start().seen.contains(name),
        walk_start().magnitudes == seq![10nat, 10, 10, 10],
        walk_start().reach.len() == 16384,
        0 <= i < 16384 ==> walk_start().reach[i] == 0,
{
}

/// When the blocks of a component can be counted: unless the height is above 65528 and no component
/// is sampled more densely down, or the width is and it is sampled three times across, and none
/// more often.
pub proof fn law_when_blocks_can_be_counted(bytes: Seq<u8>, f: int, name: u8)
    ensures
        counts(bytes, f, name) <==> forall|i: int|
            0 <= i < bytes[f + 7] && #[trigger] bytes[f + 8 + 3 * i] == name ==> !(bytes[f + 3] * 256
                + bytes[f + 4] > 65528 && forall|j: int|
                0 <= j < bytes[f + 7] ==> #[trigger] bytes[f + 9 + 3 * j] as int % 16 <= bytes[f + 9
                    + 3 * i] as int % 16) && !(bytes[f + 5] * 256 + bytes[f + 6] > 65528 && bytes[f
                + 9 + 3 * i] as int / 16 == 3 && forall|j: int|
                0 <= j < bytes[f + 7] ==> #[trigger] bytes[f + 9 + 3 * j] as int / 16 <= 3),
{
    assert forall|i: int| 0 <= i < bytes[f + 7] implies (#[trigger] overflows(bytes, f, i)) == ((
    bytes[f + 3] * 256 + bytes[f + 4] > 65528 && forall|j: int|
        0 <= j < bytes[f + 7] ==> #[trigger] bytes[f + 9 + 3 * j] as int % 16 <= bytes[f + 9 + 3
            * i] as int % 16) || (bytes[f + 5] * 256 + bytes[f + 6] > 65528 && bytes[f + 9 + 3
        * i] as int / 16 == 3 && forall|j: int|
        0 <= j < bytes[f + 7] ==> #[trigger] bytes[f + 9 + 3 * j] as int / 16 <= 3)) by {
        assert forall|j: int| down(bytes, f, j) == #[trigger] bytes[f + 9 + 3 * j] as int % 16 by {}
        assert forall|j: int| across(bytes, f, j) == #[trigger] bytes[f + 9 + 3 * j] as int / 16 by {}
    }
    if counts(bytes, f, name) {
        assert forall|i: int|
            0 <= i < bytes[f + 7] && #[trigger] bytes[f + 8 + 3 * i] == name implies !overflows(
            bytes,
            f,
            i,
        ) by {
            assert(frame_component(bytes, f, i) == name);
        }
    } else {
        let i = choose|i: int|
            0 <= i < bytes[f + 7] && #[trigger] frame_component(bytes, f, i) == name && overflows(
                bytes,
                f,
                i,
            );
        assert(bytes[f + 8 + 3 * i] == name);
    }
}

/// A file that begins with the marker of an image is read from there on, and where no marker can
/// follow there is nothing to be unsound.
pub proof fn law_files_are_read_from_the_start(bytes: Seq<u8>, at: int, walk: Walk)
    ensures
        bytes.len() >= 2 && bytes[0] == 0xFF && bytes[1] == 0xD8 ==> scans_are_sound(bytes)
            == sound_from(bytes, 2, walk_start()),
        at + 1 >= bytes.len() ==> sound_from(bytes, at, walk),
        walk.frame is None ==> scan_fits(bytes, at, walk) && after_scan(bytes, at, walk) == walk,
{
}

} // verus!
