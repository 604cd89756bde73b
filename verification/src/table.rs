//! The shared table handle: the single point the config watcher writes and
//! the lookup pipeline reads. A reload builds a wholly new table version and
//! swaps it in; a reader sees the current version in full, never a mix of
//! two versions. The mutual exclusion around the handle is the embedding
//! program's concern; these contracts state what a reader or writer observes
//! inside its critical section.

use vstd::prelude::*;
use crate::dict::{dict_of, init_address_dict, views_of, AddressDict};
use crate::record::{MemoAddress, MemoView};

verus! {

/// Owns the current table version for the process lifetime.
pub struct SharedTable {
    current: AddressDict,
}

impl View for SharedTable {
    type V = Map<Seq<char>, MemoView>;

    closed spec fn view(&self) -> Map<Seq<char>, MemoView> {
        self.current@
    }
}

impl SharedTable {
    pub closed spec fn wf(self) -> bool {
        self.current.wf()
    }

    /// Wraps an initial table version, built before any reader starts.
    pub fn new(initial: AddressDict) -> (t: SharedTable)
        requires
            initial.wf(),
        ensures
            t.wf(),
            t@ == initial@,
    {
        SharedTable { current: initial }
    }

    /// A reader's snapshot: the current version, whole.
    pub fn read(&self) -> (d: &AddressDict)
        requires
            self.wf(),
        ensures
            d.wf(),
            d@ == self@,
    {
        &self.current
    }

    /// Replaces the current version with a wholly new one.
    pub fn swap(&mut self, new_version: AddressDict)
        requires
            old(self).wf(),
            new_version.wf(),
        ensures
            final(self).wf(),
            final(self)@ == new_version@,
    {
        self.current = new_version;
    }

    /// One reload round: a successfully re-parsed record list builds a new
    /// version and swaps it in; a failed re-read or re-parse (`None`) leaves
    /// the previously active version in force.
    pub fn apply_reload(&mut self, parsed: Option<Vec<MemoAddress>>)
        requires
            old(self).wf(),
        ensures
            final(self).wf(),
            parsed is Some ==> final(self)@ == dict_of(views_of(parsed.unwrap()@)),
            parsed is None ==> final(self)@ == old(self)@,
    {
        match parsed {
            Some(records) => {
                let new_version = init_address_dict(records);
                self.swap(new_version);
            },
            None => {},
        }
    }
}

/// Reload atomicity: an observer of a swap sees either the pre-swap or the
/// post-swap version in full; when both versions are nonempty, what it sees
/// is never an empty table.
pub proof fn lemma_swap_never_empty(
    pre: Map<Seq<char>, MemoView>,
    post: Map<Seq<char>, MemoView>,
    observed: Map<Seq<char>, MemoView>,
)
    requires
        observed == pre || observed == post,
        pre.dom().len() > 0,
        post.dom().len() > 0,
    ensures
        observed.dom().len() > 0,
{
}

} // verus!
