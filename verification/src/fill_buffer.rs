//! The scanline fill buffer: one horizontal span per row, kept in a hash map.

use vstd::prelude::*;
use crate::color::Color;

verus! {

/// The span of one row that a boundary trace has touched: the leftmost and
/// the rightmost column seen so far, and the color to fill with.
#[derive(Clone, Copy, Debug)]
pub struct FillingLine {
    pub x1: i32,
    pub x2: i32,
    pub color: Color,
}

/// `ahash::AHashMap`, opaque to the verifier.
#[verifier::external_type_specification]
#[verifier::external_body]
#[verifier::reject_recursive_types(K)]
#[verifier::reject_recursive_types(V)]
#[verifier::reject_recursive_types(S)]
pub struct ExAHashMap<K, V, S>(ahash::AHashMap<K, V, S>);

/// `ahash::RandomState`, the hasher factory of the map, opaque to the verifier.
#[verifier::external_type_specification]
#[verifier::external_body]
pub struct ExRandomState(ahash::RandomState);

/// The key to value mapping that a fill buffer holds.
pub uninterp spec fn lines(buffer: ahash::AHashMap<i32, FillingLine>) -> Map<i32, FillingLine>;

/// `AHashMap::new`: a map without entries.
#[verifier::external_body]
pub(crate) fn new_buffer() -> (buffer: ahash::AHashMap<i32, FillingLine>)
    ensures
        forall|y: i32| !lines(buffer).contains_key(y),
{
    ahash::AHashMap::new()
}

/// `HashMap::entry` followed by `Entry::or_insert`, on the map inside the
/// `AHashMap`: hands out the value stored under `y`, after storing `fresh`
/// there if the key was absent.  What the caller leaves in the slot is what
/// the map then holds under `y`; no other entry changes.
#[verifier::external_body]
pub(crate) fn line_entry(
    buffer: &mut ahash::AHashMap<i32, FillingLine>,
    y: i32,
    fresh: FillingLine,
) -> (slot: &mut FillingLine)
    ensures
        *slot == (if lines(*old(buffer)).contains_key(y) {
            lines(*old(buffer))[y]
        } else {
            fresh
        }),
        lines(*final(buffer)) == lines(*old(buffer)).insert(y, *final(slot)),
{
    buffer.entry(y).or_insert(fresh)
}

/// The iterator of `&AHashMap`, which is `HashMap::iter` on the map inside
/// it, collected: every entry of the map exactly once, in an order that
/// nothing is said about.
#[verifier::external_body]
pub(crate) fn buffer_entries(buffer: &ahash::AHashMap<i32, FillingLine>) -> (entries: Vec<
    (i32, FillingLine),
>)
    ensures
        forall|i: int|
            0 <= i < entries@.len() ==> lines(*buffer).contains_key(#[trigger] entries@[i].0)
                && lines(*buffer)[entries@[i].0] == entries@[i].1,
        forall|i: int, j: int|
            0 <= i < j < entries@.len() ==> #[trigger] entries@[i].0 != #[trigger] entries@[j].0,
        forall|y: i32|
            lines(*buffer).contains_key(y) ==> exists|i: int|
                0 <= i < entries@.len() && #[trigger] entries@[i].0 == y,
{
    buffer.into_iter().map(|(y, line)| (*y, *line)).collect()
}

/// `HashMap::clear` on the map inside the `AHashMap`: removes every entry.
#[verifier::external_body]
pub(crate) fn clear_buffer(buffer: &mut ahash::AHashMap<i32, FillingLine>)
    ensures
        forall|y: i32| !lines(*final(buffer)).contains_key(y),
{
    buffer.clear()
}

} // verus!
