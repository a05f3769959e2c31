//! The names of the queues that the images go through.
use vstd::prelude::*;
use vstd::string::*;

use crate::decimal::{decimal, law_numerals_differ, write_decimal};

verus! {

/// The name of the queue of the images of a width.
pub open spec fn queue_of(width: u16) -> Seq<char> {
    "inproc://scale"@ + decimal(width as nat)
}

/// The name of the queue of the images as they come in.
pub open spec fn main_queue() -> Seq<char> {
    "inproc://jpegs"@
}

/// The name of the queue of the images as they come in.
pub fn main_queue_name() -> (name: String)
    ensures
        name@ == main_queue(),
{
    "inproc://jpegs".to_owned()
}

/// The name of the queue of the images of a width.
pub fn scaled_queue_name(width: u16) -> (name: String)
    ensures
        name@ == queue_of(width),
{
    let mut name = "inproc://scale".to_owned();
    name.append(write_decimal(width as u64).as_str());
    name
}

/// Each width has a queue of its own, and none of them is the queue of the images as they come
/// in.
pub proof fn law_queues_are_apart(width: u16, other: u16)
    ensures
        width != other ==> queue_of(width) != queue_of(other),
        queue_of(width) != main_queue(),
{
    reveal_strlit("inproc://scale");
    reveal_strlit("inproc://jpegs");
    let prefix = "inproc://scale"@;
    if width != other {
        law_numerals_differ(width as nat, other as nat);
        assert(queue_of(width).skip(prefix.len() as int) =~= decimal(width as nat));
        assert(queue_of(other).skip(prefix.len() as int) =~= decimal(other as nat));
    }
    assert(queue_of(width)[9] == 's');
    assert(main_queue()[9] == 'j');
}

/// The queue of a width is named by the width, and that of the images as they come in by a fixed
/// name.
pub proof fn law_queues_are_named_by_width(width: u16)
    ensures
        queue_of(width) == "inproc://scale"@ + decimal(width as nat),
        main_queue() == "inproc://jpegs"@,
{
}

} // verus!
