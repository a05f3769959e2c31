//! What a client asks for, and where the proxy listens.
use url::{ParseError, Url};
use vstd::prelude::*;
use vstd::string::*;

use crate::decimal::{decimal, law_numeral_reads_back, parse_u16, parsed};

verus! {

/// The port that the proxy listens on if it is told no other.
pub const PORT: u16 = 8888;

/// Declares `url::ParseError`, the error of a text that is no URL.
#[verifier::external_type_specification]
#[verifier::external_body]
pub struct ExParseError(ParseError);

/// Why a request cannot be served.
#[derive(Clone, Copy, Debug, PartialEq, Eq, Structural)]
pub enum RequestFault {
    /// Its target makes no URL.
    BadUrl,
    /// The width is not a number of sixteen bits.
    BadWidth,
}

/// The URL that a request target is taken from.
pub open spec fn target_url(target: Seq<char>) -> Seq<char> {
    "http://example.com"@ + target
}

/// The names and values of the query of a URL, in order, as `url::Url::query_pairs` gives them,
/// or `None` where `url::Url::parse` refuses the text.
pub uninterp spec fn query_of(url: Seq<char>) -> Option<Seq<(Seq<char>, Seq<char>)>>;

/// A query, as it stands in contracts.
pub open spec fn pairs_view(pairs: Seq<(String, String)>) -> Seq<(Seq<char>, Seq<char>)> {
    pairs.map_values(|pair: (String, String)| (pair.0@, pair.1@))
}

/// Whether a path begins with a slash and has no more than 65535 characters, all of them
/// slashes, ASCII letters, digits, hyphens or underscores.
pub open spec fn is_plain_path(path: Seq<char>) -> bool {
    &&& 0 < path.len() <= 65535
    &&& path[0] == '/'
    &&& forall|i: int|
        0 <= i < path.len() ==> {
            ||| 'a' <= #[trigger] path[i] <= 'z'
            ||| 'A' <= path[i] <= 'Z'
            ||| '0' <= path[i] <= '9'
            ||| path[i] == '/'
            ||| path[i] == '-'
            ||| path[i] == '_'
        }
}

/// The target of a request for the images at `path`, at a width of `width`.
pub open spec fn width_target(path: Seq<char>, width: u16) -> Seq<char> {
    path + "?width="@ + decimal(width as nat)
}

/// The query of a target that asks for a width, under a plain path, is that width and nothing
/// else.
pub open spec fn reads_width(url: Seq<char>, pairs: Seq<(Seq<char>, Seq<char>)>) -> bool {
    forall|path: Seq<char>, width: u16|
        is_plain_path(path) && url == target_url(#[trigger] width_target(path, width)) ==> pairs
            == seq![("width"@, decimal(width as nat))]
}

/// Whether a URL is that of a target that asks for a width under a plain path.
pub open spec fn asks_for_width(url: Seq<char>) -> bool {
    exists|path: Seq<char>, width: u16|
        is_plain_path(path) && url == target_url(#[trigger] width_target(path, width))
}

/// Takes a URL apart with `url::Url::parse` and hands out what its `query_pairs` gives. Taken on
/// trust: the outcome depends on the text alone; and a URL on the fixed host with a plain path and
/// the query `width=` with a numeral is taken, and has that one pair.
#[verifier::external_body]
fn parse_query(url: &str) -> (pairs: Result<Vec<(String, String)>, ParseError>)
    ensures
        pairs is Ok <==> query_of(url@) is Some,
        pairs matches Ok(p) ==> query_of(url@) == Some(pairs_view(p@)),
        asks_for_width(url@) ==> pairs is Ok,
        pairs matches Ok(p) ==> reads_width(url@, pairs_view(p@)),
{
    Ok(Url::parse(url)?.query_pairs().into_owned().collect())
}

/// The value of the first pair with this name.
pub open spec fn first_value(pairs: Seq<(Seq<char>, Seq<char>)>, name: Seq<char>) -> Option<
    Seq<char>,
>
    decreases pairs.len(),
{
    if pairs.len() == 0 {
        None
    } else if pairs[0].0 == name {
        Some(pairs[0].1)
    } else {
        first_value(pairs.skip(1), name)
    }
}

/// The width that a query asks for: that of the first pair named `width`, if there is one.
pub open spec fn width_in(pairs: Seq<(Seq<char>, Seq<char>)>) -> Result<
    Option<u16>,
    RequestFault,
> {
    match first_value(pairs, "width"@) {
        None => Ok(None),
        Some(value) => match parsed(value, u16::MAX as nat) {
            None => Err(RequestFault::BadWidth),
            Some(n) => Ok(Some(n as u16)),
        },
    }
}

/// The width that a query asks for.
pub fn query_width(pairs: &Vec<(String, String)>) -> (width: Result<Option<u16>, RequestFault>)
    ensures
        width == width_in(pairs_view(pairs@)),
{
    let ghost all = pairs_view(pairs@);
    let name = "width".to_owned();
    let mut i: usize = 0;
    assert(all.skip(0) =~= all);
    while i < pairs.len()
        invariant
            i <= pairs@.len(),
            all == pairs_view(pairs@),
            name@ == "width"@,
            first_value(all, "width"@) == first_value(all.skip(i as int), "width"@),
        decreases pairs@.len() - i,
    {
        let ghost rest = all.skip(i as int);
        assert(rest[0] == all[i as int]);
        if pairs[i].0 == name {
            return match parse_u16(pairs[i].1.as_str()) {
                None => Err(RequestFault::BadWidth),
                Some(n) => Ok(Some(n)),
            };
        }
        assert(rest.skip(1) =~= all.skip(i + 1));
        i = i + 1;
    }
    Ok(None)
}

/// The width that a request target asks for. A target that asks for a width under a plain path
/// is understood.
pub fn request_width(target: &str) -> (width: Result<Option<u16>, RequestFault>)
    ensures
        width == (match query_of(target_url(target@)) {
            None => Err(RequestFault::BadUrl),
            Some(pairs) => width_in(pairs),
        }),
        forall|path: Seq<char>, w: u16|
            is_plain_path(path) && target@ == #[trigger] width_target(path, w) ==> width == Ok::<
                Option<u16>,
                RequestFault,
            >(Some(w)),
{
    let mut url = "http://example.com".to_owned();
    url.append(target);
    match parse_query(url.as_str()) {
        Err(_) => {
            assert(!asks_for_width(url@));
            Err(RequestFault::BadUrl)
        },
        Ok(pairs) => {
            let width = query_width(&pairs);
            assert forall|path: Seq<char>, w: u16|
                is_plain_path(path) && target@ == #[trigger] width_target(path, w) implies width
                == Ok::<Option<u16>, RequestFault>(Some(w)) by {
                law_numeral_reads_back(w as nat, u16::MAX as nat);
                assert(pairs_view(pairs@) == seq![("width"@, decimal(w as nat))]);
            }
            width
        },
    }
}

/// The port to listen on: the one that was asked for, or `PORT`. `None` where what was asked for
/// is not a number of sixteen bits.
pub fn listen_port(asked: Option<&str>) -> (port: Option<u16>)
    ensures
        asked is None ==> port == Some(PORT) && port == Some(8888u16),
        asked matches Some(text) ==> match parsed(text@, u16::MAX as nat) {
            Some(n) => port matches Some(p) && p == n,
            None => port is None,
        },
{
    match asked {
        None => Some(PORT),
        Some(text) => parse_u16(text),
    }
}

/// The width that a query asks for is that of the first pair named `width`, wherever it stands and
/// whatever other pairs there are: its number, if its value is one of sixteen bits, and otherwise
/// the fault. Only if there is no such pair no width is asked for.
pub proof fn law_first_width_is_asked_for(pairs: Seq<(Seq<char>, Seq<char>)>, i: int)
    requires
        0 <= i < pairs.len(),
        pairs[i].0 == "width"@,
        forall|j: int| 0 <= j < i ==> (#[trigger] pairs[j]).0 != "width"@,
    ensures
        first_value(pairs, "width"@) == Some(pairs[i].1),
        match parsed(pairs[i].1, 65535) {
            Some(n) => width_in(pairs) == Ok::<Option<u16>, RequestFault>(Some(n as u16)),
            None => width_in(pairs) == Err::<Option<u16>, RequestFault>(RequestFault::BadWidth),
        },
    decreases i,
{
    if i > 0 {
        let rest = pairs.skip(1);
        assert(pairs[0].0 != "width"@);
        assert(rest[i - 1] == pairs[i]);
        assert forall|j: int| 0 <= j < i - 1 implies (#[trigger] rest[j]).0 != "width"@ by {
            assert(rest[j] == pairs[j + 1]);
        }
        law_first_width_is_asked_for(rest, i - 1);
    }
}

/// Without a pair named `width` no width is asked for.
pub proof fn law_no_width_is_asked_for(pairs: Seq<(Seq<char>, Seq<char>)>)
    requires
        forall|j: int| 0 <= j < pairs.len() ==> (#[trigger] pairs[j]).0 != "width"@,
    ensures
        first_value(pairs, "width"@) is None,
        width_in(pairs) == Ok::<Option<u16>, RequestFault>(None),
    decreases pairs.len(),
{
    if pairs.len() > 0 {
        let rest = pairs.skip(1);
        assert(pairs[0].0 != "width"@);
        assert forall|j: int| 0 <= j < rest.len() implies (#[trigger] rest[j]).0 != "width"@ by {
            assert(rest[j] == pairs[j + 1]);
        }
        law_no_width_is_asked_for(rest);
    }
}

/// What follows the first pair named `width` does not matter, and what comes before it neither.
pub proof fn law_other_pairs_do_not_matter(
    before: Seq<(Seq<char>, Seq<char>)>,
    value: Seq<char>,
    rest: Seq<(Seq<char>, Seq<char>)>,
)
    requires
        forall|j: int| 0 <= j < before.len() ==> (#[trigger] before[j]).0 != "width"@,
    ensures
        width_in(before + seq![("width"@, value)] + rest) == width_in(seq![("width"@, value)]),
{
    let all = before + seq![("width"@, value)] + rest;
    let n = before.len() as int;
    assert(all[n] == ("width"@, value));
    assert forall|j: int| 0 <= j < n implies (#[trigger] all[j]).0 != "width"@ by {
        assert(all[j] == before[j]);
    }
    law_first_width_is_asked_for(all, n);
    law_first_width_is_asked_for(seq![("width"@, value)], 0);
}

/// The pairs of a query stand in contracts as they are, in their order, and the target as it is
/// behind the name of a host.
pub proof fn law_pairs_and_targets_stand_as_they_are(
    pairs: Seq<(String, String)>,
    i: int,
    target: Seq<char>,
    width: u16,
)
    ensures
        pairs_view(pairs).len() == pairs.len(),
        0 <= i < pairs.len() ==> pairs_view(pairs)[i] == (pairs[i].0@, pairs[i].1@),
        target_url(target) == "http://example.com"@ + target,
        width_target(target, width) == target + "?width="@ + decimal(width as nat),
{
}

/// A path is plain if, and only if, it begins with a slash, has at most 65535 characters, and holds
/// slashes, ASCII letters, digits, hyphens and underscores only.
pub proof fn law_plain_paths(path: Seq<char>)
    ensures
        is_plain_path(path) <==> 0 < path.len() <= 65535 && path[0] == '/' && forall|i: int|
            0 <= i < path.len() ==> ('a' <= #[trigger] path[i] <= 'z' || 'A' <= path[i] <= 'Z'
                || '0' <= path[i] <= '9' || path[i] == '/' || path[i] == '-' || path[i] == '_'),
{
}

} // verus!
