//! What the guest asks of its host in return.
//!
//! A call into the host follows the rules of a call into the guest, with the
//! two sides changing places. The guest encodes the argument and gives its
//! region up with the call. The host uses that region up and answers with a
//! pointer to a new region, which the guest owns from then on and must decode
//! or deallocate in its turn.

use crate::arena::{Arena, Pointer};
use crate::text::{c_string, is_text, nul_free, ptr_from_string};
use vstd::prelude::*;
use vstd::utf8::*;

verus! {

/// True when the host has honored a call. `before` is the guest memory when
/// the call was made and `argument` the pointer that was handed over; `after`
/// is the guest memory when the call returned and `result` the pointer that
/// came back. The argument is gone, the result is a text buffer that was not
/// there before, behind a pointer other than 0, and nothing else has changed.
pub open spec fn answered(
    before: Map<Pointer, Seq<u8>>,
    argument: Pointer,
    after: Map<Pointer, Seq<u8>>,
    result: Pointer,
) -> bool {
    &&& before.dom().contains(argument)
    &&& result != 0
    &&& !before.remove(argument).dom().contains(result)
    &&& after.dom().contains(result)
    &&& is_text(after[result])
    &&& after == before.remove(argument).insert(result, after[result])
}

/// The name that the guest sends when it calls back.
pub fn callback_text() -> (name: String)
    ensures
        name@ == "World"@,
{
    "World".to_owned()
}

/// Prepares the call back into the host: encodes the name into a region of
/// its own and returns the pointer, which is the argument of the call. The
/// pointer that the host answers with goes to the caller as it is.
pub fn callback(arena: &mut Arena) -> (name: Pointer)
    ensures
        name != 0,
        !old(arena)@.dom().contains(name),
        final(arena)@ == old(arena)@.insert(name, c_string("World"@)),
        is_text(final(arena)@[name]),
{
    let text: String = callback_text();
    proof {
        name_can_travel();
    }
    ptr_from_string(arena, text)
}

/// The name that is sent can travel, and it takes five bytes.
pub proof fn name_can_travel()
    ensures
        nul_free("World"@),
        encode_utf8("World"@).len() == 5,
{
    reveal_strlit("World");
    assert(is_ascii_chars("World"@));
    is_ascii_chars_encode_utf8("World"@);
}

/// A call back that the host honors leaves the guest memory as it was before
/// the guest prepared the call, but for the result, which is a text buffer
/// that the guest now owns. The argument does not leak.
pub proof fn callback_settles(
    memory: Map<Pointer, Seq<u8>>,
    name: Pointer,
    after: Map<Pointer, Seq<u8>>,
    result: Pointer,
)
    requires
        !memory.dom().contains(name),
        answered(memory.insert(name, c_string("World"@)), name, after, result),
    ensures
        result != 0,
        !memory.dom().contains(result),
        is_text(after[result]),
        after == memory.insert(result, after[result]),
{
    let before = memory.insert(name, c_string("World"@));
    assert(before.remove(name) =~= memory);
}

} // verus!
