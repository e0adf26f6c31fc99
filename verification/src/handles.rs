//! The files that are open in the vault.

use std::collections::HashMap;
use vstd::prelude::*;

verus! {

/// What a table of open files holds.
#[verifier::ext_equal]
pub struct HandlesView<H> {
    /// The open file of each handle.
    pub open: Map<u64, H>,
    /// The number of the next handle.
    pub next: u64,
}

/// Whether all handles were given out before the next one. This ends when the
/// numbers run out and start over.
pub open spec fn numbered<H>(t: HandlesView<H>) -> bool {
    forall|fh: u64| #[trigger] t.open.contains_key(fh) ==> fh < t.next
}

/// The table after a file was opened.
pub open spec fn with_file<H>(t: HandlesView<H>, file: H) -> HandlesView<H> {
    HandlesView {
        open: t.open.insert(t.next, file),
        next: if t.next == u64::MAX {
            0
        } else {
            (t.next + 1) as u64
        },
    }
}

/// The table after a handle was released.
pub open spec fn without_file<H>(t: HandlesView<H>, fh: u64) -> HandlesView<H> {
    HandlesView { open: t.open.remove(fh), next: t.next }
}

/// The files that are open, by handle.
pub struct HandleTable<H> {
    open: HashMap<u64, H>,
    next: u64,
}

impl<H> View for HandleTable<H> {
    type V = HandlesView<H>;

    closed spec fn view(&self) -> HandlesView<H> {
        HandlesView { open: self.open@, next: self.next }
    }
}

impl<H> HandleTable<H> {
    /// A table without open files.
    pub fn new() -> (r: Self)
        ensures
            r@ == (HandlesView { open: Map::<u64, H>::empty(), next: 1 }),
    {
        HandleTable { open: HashMap::new(), next: 1 }
    }

    /// Takes in an open file and gives it a handle.
    pub fn insert(&mut self, file: H) -> (r: u64)
        ensures
            r == old(self)@.next,
            final(self)@ == with_file(old(self)@, file),
    {
        broadcast use vstd::std_specs::hash::group_hash_axioms;

        let fh: u64 = self.next;
        self.next = if fh == u64::MAX {
            0
        } else {
            fh + 1
        };
        self.open.insert(fh, file);
        fh
    }

    /// The open file of a handle.
    pub fn get(&self, fh: u64) -> (r: Option<&H>)
        ensures
            match r {
                Some(file) => self@.open.contains_key(fh) && *file == self@.open[fh],
                None => !self@.open.contains_key(fh),
            },
    {
        broadcast use vstd::std_specs::hash::group_hash_axioms;

        self.open.get(&fh)
    }

    /// Releases a handle.
    pub fn remove(&mut self, fh: u64)
        ensures
            final(self)@ == without_file(old(self)@, fh),
    {
        broadcast use vstd::std_specs::hash::group_hash_axioms;

        self.open.remove(&fh);
    }

    /// How many files are open.
    pub fn count(&self) -> (r: usize)
        ensures
            r == self@.open.len(),
    {
        broadcast use vstd::std_specs::hash::group_hash_axioms;

        self.open.len()
    }
}

/// A new handle is no open file's handle, and the files that are open keep
/// theirs, as long as the numbers do not start over.
pub proof fn law_new_handle_is_fresh<H>(t: HandlesView<H>, file: H, other: u64)
    requires
        numbered(t),
        t.next < u64::MAX,
    ensures
        !t.open.contains_key(t.next),
        numbered(with_file(t, file)),
        with_file(t, file).open[t.next] == file,
        t.open.contains_key(other) ==> with_file(t, file).open.contains_key(other)
            && with_file(t, file).open[other] == t.open[other],
{
}

/// Every set of handles is finite, as there are finitely many numbers.
proof fn lemma_handles_are_finite(s: Set<u64>)
    ensures
        s.finite(),
{
    let all = vstd::set_lib::set_int_range(0, 0x1_0000_0000_0000_0000);
    vstd::set_lib::lemma_int_range(0, 0x1_0000_0000_0000_0000);
    let handles = all.map(|i: int| i as u64);
    all.lemma_map_finite(|i: int| i as u64);
    assert forall|fh: u64| s.contains(fh) implies #[trigger] handles.contains(fh) by {
        assert(all.contains(fh as int));
    }
    vstd::set_lib::lemma_set_subset_finite(handles, s);
}

/// The open files are counted: there are finitely many, opening one adds one,
/// as long as the numbers do not start over, and releasing an open one takes one
/// away.
pub proof fn law_open_files_are_counted<H>(t: HandlesView<H>, file: H, fh: u64)
    ensures
        t.open.dom().finite(),
        numbered(t) ==> with_file(t, file).open.len() == t.open.len() + 1,
        t.open.contains_key(fh) ==> without_file(t, fh).open.len() == t.open.len() - 1,
        !t.open.contains_key(fh) ==> without_file(t, fh).open.len() == t.open.len(),
{
    lemma_handles_are_finite(t.open.dom());
    assert(!t.open.contains_key(fh) ==> t.open.remove(fh) =~= t.open);
}

/// To release a handle closes that file and no other.
pub proof fn law_release_closes_one_file<H>(t: HandlesView<H>, fh: u64, other: u64)
    ensures
        !without_file(t, fh).open.contains_key(fh),
        other != fh ==> without_file(t, fh).open.contains_key(other) == t.open.contains_key(other),
        numbered(t) ==> numbered(without_file(t, fh)),
{
}

/// To open a file adds it under the next handle and changes no other; the handle
/// after it is one more, or zero after the last.
pub proof fn law_opening_adds_one_file<H>(t: HandlesView<H>, file: H, fh: u64, other: u64)
    ensures
        with_file(t, file).open == t.open.insert(t.next, file),
        t.next < 0xffff_ffff_ffff_ffff ==> with_file(t, file).next == t.next + 1,
        t.next == 0xffff_ffff_ffff_ffff ==> with_file(t, file).next == 0,
        without_file(t, fh).open == t.open.remove(fh),
        without_file(t, fh).next == t.next,
        other != fh && t.open.contains_key(other) ==> without_file(t, fh).open[other]
            == t.open[other],
        numbered(t) <==> !exists|h: u64| t.open.contains_key(h) && h >= t.next,
{
    if !(exists|h: u64| t.open.contains_key(h) && h >= t.next) {
        assert forall|h: u64| #[trigger] t.open.contains_key(h) implies h < t.next by {}
    }
}

} // verus!
