//! Looking an entity up by its handle.
//!
//! Entities are named by plain 64-bit handles. A list may in principle name
//! a handle twice; a lookup then finds the first place that holds it.

use vstd::prelude::*;

verus! {

/// Whether `i` is the first place in `handles` that holds `entity`.
pub open spec fn is_first(handles: Seq<u64>, entity: u64, i: int) -> bool {
    &&& 0 <= i < handles.len()
    &&& handles[i] == entity
    &&& forall|j: int| 0 <= j < i ==> handles[j] != entity
}

/// The first place in `handles` that holds `entity`, if any does.
pub open spec fn first_index(handles: Seq<u64>, entity: u64) -> Option<int>
    decreases handles.len(),
{
    if handles.len() == 0 {
        None
    } else {
        match first_index(handles.drop_last(), entity) {
            Some(i) => Some(i),
            None => if handles.last() == entity {
                Some(handles.len() - 1)
            } else {
                None
            },
        }
    }
}

/// `first_index` finds the first place that holds the handle, and finds
/// nothing only when no place holds it.
pub proof fn lemma_first_index(handles: Seq<u64>, entity: u64)
    ensures
        match first_index(handles, entity) {
            Some(i) => is_first(handles, entity, i),
            None => forall|j: int| 0 <= j < handles.len() ==> handles[j] != entity,
        },
    decreases handles.len(),
{
    if handles.len() > 0 {
        let front = handles.drop_last();
        lemma_first_index(front, entity);
        match first_index(front, entity) {
            Some(i) => {
                assert forall|j: int| 0 <= j < i implies handles[j] != entity by {
                    assert(handles[j] == front[j]);
                }
            },
            None => {
                assert forall|j: int| 0 <= j < handles.len() - 1 implies handles[j] != entity by {
                    assert(handles[j] == front[j]);
                }
            },
        }
    }
}

/// A first place, once known, is what `first_index` returns.
pub proof fn lemma_first_index_is(handles: Seq<u64>, entity: u64, i: int)
    requires
        is_first(handles, entity, i),
    ensures
        first_index(handles, entity) == Some(i),
{
    lemma_first_index(handles, entity);
}

} // verus!
