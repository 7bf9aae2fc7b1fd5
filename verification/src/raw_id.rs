//! Compact integer codes for identifiers, and the registry that assigns
//! them.
//!
//! Raw ids are handed out sequentially from `0` in registration order;
//! that order depends on how content was scanned, so two independently
//! started processes may assign different codes to the same identifier.
//! The save codec and the connection handshake exist to reconcile that
//! drift.

use vstd::prelude::*;

use crate::identifier::{Identifier, IdentifierView};

verus! {

/// A compact signed integer standing in for an [`Identifier`].
///
/// Two sentinel values are reserved and never assigned by registration:
/// `-1` ("air", the empty tile) and `-2` ("missingno", unknown content).
#[derive(Debug, Copy, Clone, PartialEq, Eq, Hash, Structural)]
pub struct RawId(pub i32);

impl RawId {
    /// True of the sentinel for the empty tile.
    pub fn is_air(&self) -> (r: bool)
        ensures
            r == (self.0 == -1),
    {
        self.0 == -1
    }

    /// True of the sentinel for unknown/placeholder content.
    pub fn is_missingno(&self) -> (r: bool)
        ensures
            r == (self.0 == -2),
    {
        self.0 == -2
    }
}

/// Bidirectional map between identifiers and raw ids.
///
/// The identifier registered `i`-th holds raw id `i`, so the whole map is
/// just the sequence of registered identifiers, and the two sentinel raw
/// ids (negative by definition) can never collide with a registered one.
#[derive(Debug)]
pub struct RawIds {
    ids: Vec<Identifier>,
}

impl View for RawIds {
    type V = Seq<IdentifierView>;

    closed spec fn view(&self) -> Seq<IdentifierView> {
        self.ids@.map(|i: int, id: Identifier| id@)
    }
}

impl RawIds {
    /// Well-formed: no identifier is registered twice, and every assigned
    /// raw id fits in an `i32`.
    pub open spec fn wf(&self) -> bool {
        &&& forall|i: int, j: int|
            0 <= i < j < self@.len() ==> self@[i] != self@[j]
        &&& self@.len() <= i32::MAX as int
    }

    /// Whether `id` is registered.
    pub open spec fn contains_id(&self, id: IdentifierView) -> bool {
        exists|i: int| 0 <= i < self@.len() && self@[i] == id
    }

    /// The raw id assigned to a registered identifier.
    pub open spec fn raw_of(&self, id: IdentifierView) -> int {
        choose|i: int| 0 <= i < self@.len() && self@[i] == id
    }

    /// Whether `raw` is a raw id this registry has assigned.
    pub open spec fn in_range(&self, raw: int) -> bool {
        0 <= raw < self@.len()
    }

    pub fn new() -> (r: Self)
        ensures
            r@ =~= Seq::<IdentifierView>::empty(),
            r.wf(),
    {
        RawIds { ids: Vec::new() }
    }

    pub fn len(&self) -> (r: usize)
        ensures
            r == self@.len(),
    {
        self.ids.len()
    }

    /// Assigns the next unused sequential raw id to `id`.
    ///
    /// Duplicate registration is undefined behaviour in the design, so it
    /// is excluded here; callers register each identifier once.
    pub fn register(&mut self, id: Identifier) -> (r: RawId)
        requires
            old(self).wf(),
            !old(self).contains_id(id@),
            old(self)@.len() < i32::MAX as int,
        ensures
            final(self)@ =~= old(self)@.push(id@),
            final(self).wf(),
            r.0 as int == old(self)@.len(),
            final(self).contains_id(id@),
            final(self).raw_of(id@) == r.0 as int,
    {
        let raw = RawId(self.ids.len() as i32);
        self.ids.push(id);
        proof {
            let new = self@;
            let n = new.len() - 1;
            assert(new[n] == new.last());
            assert(forall|i: int, j: int| 0 <= i < j < new.len() ==> new[i] != new[j]) by {
                assert(forall|i: int| 0 <= i < n ==> new[i] == old(self)@[i]);
            }
            assert(new[n] == id@);
            let w = choose|i: int| 0 <= i < new.len() && new[i] == id@;
            assert(new[w] == id@ && new[n] == id@);
        }
        raw
    }

    /// The identifier registered `i`-th, i.e. the one with raw id `i`.
    pub fn identifier_at(&self, i: usize) -> (r: &Identifier)
        requires
            i < self@.len(),
        ensures
            r@ == self@[i as int],
    {
        &self.ids[i]
    }

    /// Rebuilds a registry from a plain list of identifiers, the `i`-th
    /// receiving raw id `i`; used when decoding an embedded snapshot,
    /// which promises nothing about duplicates.
    pub fn from_identifiers(ids: Vec<Identifier>) -> (r: Self)
        ensures
            r@ =~= ids@.map(|i: int, id: Identifier| id@),
    {
        RawIds { ids }
    }

    /// Forward lookup: the raw id registered for `id`, if any.
    pub fn get_raw_id(&self, id: &Identifier) -> (r: Option<RawId>)
        requires
            self.wf(),
        ensures
            r is Some <==> self.contains_id(id@),
            r matches Some(raw) ==> {
                &&& self.in_range(raw.0 as int)
                &&& self@[raw.0 as int] == id@
                &&& self.raw_of(id@) == raw.0 as int
            },
    {
        let n = self.ids.len();
        let mut i: usize = 0;
        while i < n
            invariant
                n == self@.len(),
                i <= n,
                self.wf(),
                forall|j: int| 0 <= j < i ==> self@[j] != id@,
            decreases n - i,
        {
            if self.ids[i] == *id {
                proof {
                    assert(self@[i as int] == id@);
                    let w = choose|k: int| 0 <= k < self@.len() && self@[k] == id@;
                    assert(self@[w] == id@ && self@[i as int] == id@);
                }
                return Some(RawId(i as i32));
            }
            i += 1;
        }
        None
    }

    /// Reverse lookup: the identifier that `raw` stands for, if any.
    ///
    /// The sentinels `-1` and `-2` are negative, so they always resolve to
    /// `None`: they have no registration entry.
    pub fn get_id(&self, raw: RawId) -> (r: Option<&Identifier>)
        ensures
            r is Some <==> self.in_range(raw.0 as int),
            r matches Some(id) ==> id@ == self@[raw.0 as int],
    {
        if raw.0 >= 0 && (raw.0 as usize) < self.ids.len() {
            Some(&self.ids[raw.0 as usize])
        } else {
            None
        }
    }
}

impl Clone for RawIds {
    fn clone(&self) -> (r: Self)
        ensures
            r@ == self@,
    {
        let mut ids: Vec<Identifier> = Vec::new();
        let n = self.ids.len();
        let mut i: usize = 0;
        while i < n
            invariant
                n == self.ids@.len(),
                i <= n,
                ids@.len() == i as int,
                forall|j: int| 0 <= j < i ==> ids@[j]@ == self.ids@[j]@,
            decreases n - i,
        {
            ids.push(self.ids[i].clone());
            i += 1;
        }
        let r = RawIds { ids };
        proof {
            assert(r@ =~= self@);
        }
        r
    }
}

/// Every registered identifier resolves through its raw id back to
/// itself, the raw id of a registered identifier is unique, and the
/// sentinel raw ids `-1` and `-2` are never assigned.
pub proof fn lemma_registry_inverse(r: RawIds, id: IdentifierView)
    requires
        r.wf(),
        r.contains_id(id),
    ensures
        r.in_range(r.raw_of(id)),
        r@[r.raw_of(id)] == id,
        forall|j: int| 0 <= j < r@.len() && r@[j] == id ==> j == r.raw_of(id),
        !r.in_range(-1),
        !r.in_range(-2),
{
    let w = r.raw_of(id);
    assert(0 <= w < r@.len() && r@[w] == id);
    assert forall|j: int| 0 <= j < r@.len() && r@[j] == id implies j == w by {
        if j != w {
            assert(r@[j] != r@[w]);
        }
    }
}

} // verus!
