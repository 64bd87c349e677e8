//! The operations that the guest offers to its host. Each of them takes and
//! returns what the codecs carry: a pointer argument is decoded, which uses
//! its region up, and a pointer result is a region that the caller owns from
//! then on. Scalars pass as they are.

use crate::arena::{Arena, Pointer};
use crate::buffer::{bytes_from_ptr, framed, is_framed, payload, ptr_from_bytes};
use crate::buffer::{byte_round_trip, framed_by_payload, header_of_value, MAX_PAYLOAD};
use crate::text::{c_string, is_text, nul_free, text_of};
use crate::text::{encode_concat, nul_free_bytes, ptr_from_string, string_from_ptr, text_bytes};
use vstd::prelude::*;
use vstd::string::StringExecFns;
use vstd::utf8::*;

verus! {

/// The greeting for `name`.
pub open spec fn greeting_of(name: Seq<char>) -> Seq<char> {
    "Hello "@ + name
}

/// The files that the workspace exchange touches, for the directory it was
/// called with.
pub struct WorkspaceFiles {
    /// The file that is read, and whose contents are reported.
    pub input: String,
    /// The file that is announced as the one being written.
    pub announced: String,
    /// The path that is written to: the directory itself, as it was given.
    pub target: String,
    /// What is written.
    pub contents: String,
}

/// Adds two scalars. Scalars cross the boundary as they are: no region is
/// allocated, read or released.
pub fn sum(x: i32, y: i32) -> (total: i32)
    requires
        i32::MIN <= x + y <= i32::MAX,
    ensures
        total == x + y,
{
    x + y
}

/// The bytes of `data` in the opposite order.
pub fn reversed(data: Vec<u8>) -> (turned: Vec<u8>)
    ensures
        turned@ == data@.reverse(),
{
    let mut turned: Vec<u8> = Vec::with_capacity(data.len());
    let mut left: usize = data.len();
    while left > 0
        invariant
            left <= data@.len(),
            turned@.len() == data@.len() - left,
            forall|k: int| 0 <= k < turned@.len() ==> turned@[k] == data@[data@.len() - 1 - k],
        decreases left,
    {
        left -= 1;
        turned.push(data[left]);
    }
    assert(turned@ =~= data@.reverse());
    turned
}

/// The greeting for `name`: the word of greeting, a blank, and the name.
pub fn greeting(name: &str) -> (line: String)
    ensures
        line@ == greeting_of(name@),
{
    let mut line: String = "Hello ".to_owned();
    line.append(name);
    line
}

/// Names the files of the workspace exchange for a directory.
pub fn workspace_files(dir: String) -> (files: WorkspaceFiles)
    ensures
        files.input@ == dir@ + "/in.txt"@,
        files.announced@ == dir@ + "/hello.txt"@,
        files.target@ == dir@,
        files.contents@ == "blah"@,
{
    let mut input: String = dir.clone();
    input.append("/in.txt");
    let mut announced: String = dir.clone();
    announced.append("/hello.txt");
    WorkspaceFiles { input, announced, target: dir, contents: "blah".to_owned() }
}

/// Reverses a binary payload. The argument is decoded, which uses its region
/// up; the result is a new length-prefixed buffer that the caller owns.
pub fn reverse(arena: &mut Arena, raw: Pointer) -> (pointer: Pointer)
    requires
        old(arena)@.dom().contains(raw),
        is_framed(old(arena)@[raw]),
    ensures
        pointer != 0,
        !old(arena)@.remove(raw).dom().contains(pointer),
        final(arena)@ == old(arena)@.remove(raw).insert(
            pointer,
            framed(payload(old(arena)@[raw]).reverse()),
        ),
        is_framed(final(arena)@[pointer]),
{
    proof {
        header_of_value(arena@[raw]);
        framed_by_payload(arena@[raw]);
    }
    let data_in: Vec<u8> = bytes_from_ptr(arena, raw);
    ptr_from_bytes(arena, reversed(data_in))
}

/// Greets by name. The argument is decoded, which uses its region up; the
/// result is a new text buffer that the caller owns.
pub fn hello(arena: &mut Arena, name: Pointer) -> (pointer: Pointer)
    requires
        old(arena)@.dom().contains(name),
        is_text(old(arena)@[name]),
    ensures
        pointer != 0,
        !old(arena)@.remove(name).dom().contains(pointer),
        final(arena)@ == old(arena)@.remove(name).insert(
            pointer,
            c_string(greeting_of(text_of(old(arena)@[name]))),
        ),
        is_text(final(arena)@[pointer]),
{
    let in_param: String = string_from_ptr(arena, name);
    let output: String = greeting(in_param.as_str());
    proof {
        greeting_can_travel(old(arena)@[name]);
    }
    ptr_from_string(arena, output)
}

/// Prepares the workspace exchange. The argument, the directory as text, is
/// decoded, which uses its region up. Reading and writing the files that are
/// named is left to the caller; whether that succeeds has no bearing on what
/// crosses the boundary.
pub fn workspace_write(arena: &mut Arena, dir: Pointer) -> (files: WorkspaceFiles)
    requires
        old(arena)@.dom().contains(dir),
        is_text(old(arena)@[dir]),
    ensures
        files.input@ == text_of(old(arena)@[dir]) + "/in.txt"@,
        files.announced@ == text_of(old(arena)@[dir]) + "/hello.txt"@,
        files.target@ == text_of(old(arena)@[dir]),
        files.contents@ == "blah"@,
        final(arena)@ == old(arena)@.remove(dir),
{
    let in_param: String = string_from_ptr(arena, dir);
    workspace_files(in_param)
}

/// The greeting for the text of a text buffer can travel in its turn, and it
/// is six bytes longer than that text.
pub proof fn greeting_can_travel(region: Seq<u8>)
    requires
        is_text(region),
    ensures
        nul_free(greeting_of(text_of(region))),
        encode_utf8(greeting_of(text_of(region))).len() == region.len() + 5,
{
    let name = text_of(region);
    reveal_strlit("Hello ");
    decode_utf8_encode_utf8(text_bytes(region));
    nul_free_bytes(name);
    assert(is_ascii_chars("Hello "@));
    is_ascii_chars_encode_utf8("Hello "@);
    encode_concat("Hello "@, name);
    assert(region.subrange(0, region.len() - 1) =~= text_bytes(region));
    assert(nul_free(name));
    assert forall|i: int| 0 <= i < greeting_of(name).len() implies (#[trigger] greeting_of(
        name,
    )[i]) != '\0' by {
        if i >= 6 {
            assert(greeting_of(name)[i] == name[i - 6]);
        }
    }
}

/// Reversing twice gives the payload back, whatever the payload, the empty
/// one and a single byte included: encode it, reverse the region, reverse
/// the region that comes back, and the last region is the first one again.
pub proof fn reverse_twice(data: Seq<u8>)
    requires
        data.len() <= MAX_PAYLOAD,
    ensures
        ({
            let sent = framed(data);
            let once = framed(payload(sent).reverse());
            let twice = framed(payload(once).reverse());
            &&& is_framed(sent)
            &&& is_framed(once)
            &&& is_framed(twice)
            &&& twice == sent
            &&& payload(twice) == data
        }),
{
    byte_round_trip(data);
    byte_round_trip(data.reverse());
    assert(data.reverse().reverse() =~= data);
}

/// Reversing a sequence of bytes twice gives the sequence back.
pub proof fn reversed_twice(data: Seq<u8>)
    ensures
        data.reverse().reverse() == data,
{
    assert(data.reverse().reverse() =~= data);
}

} // verus!
