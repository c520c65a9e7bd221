//! The memory manager's state: the registry and the segments it hands registrations to.
//!
//! Opening a slab on a segment goes through the segment's allocator, which its owner holds
//! beside this table (its claims and allocations are `unsafe` calls): the owner asks this
//! table where a request goes, opens the slab on the segment it names, and records the
//! outcome here. Everything else (lookups, closing, usage) is answered here.

use super::data::{MemEntry, Registered};
use super::error::{ensure_url_matches, map_teardown_err, ManagerError};
use super::locator::{spec_default_url, spec_segment_base_key, Locator};
use super::registry::{DefaultSegment, EntryView, Registry, RegistryView};
use crate::ids::{Id, SegmentId};
use crate::io::Kind;
use crate::slab::segment::{first_slab_at, restated, Segment};
use std::collections::hash_map::Entry;
use std::collections::HashMap;
use vstd::std_specs::iter::IteratorSpec;
use crate::io::{HasInfo, HasMapping, State};
use super::locator::LocatorRef;
use super::usage::{sort_by_id, sorted_by_id, Usage};
use crate::url::{url_scheme, Url};
use vstd::prelude::*;

verus! {

broadcast use vstd::std_specs::hash::group_hash_axioms;

/// The table holds a segment with id `id`.
pub open spec fn has_segment(s: Map<u64, Segment>, id: SegmentId) -> bool {
    s.contains_key(id.0)
}

/// The segment `id` of the table, if it holds one.
pub open spec fn segment_of(s: Map<u64, Segment>, id: SegmentId) -> Option<Segment> {
    if s.contains_key(id.0) {
        Some(s[id.0])
    } else {
        None
    }
}

/// A segment as `create_segment` makes it: of `kind`, with no base, no identity, no slab.
pub open spec fn fresh_segment(s: Segment, kind: Kind) -> bool {
    &&& s.spec_kind() == kind
    &&& s.spec_base() is None
    &&& s.slabs() == Seq::<crate::backend::Slab>::empty()
}

/// Where the slab registered under `id` sits in its segment, or why it cannot be found.
pub open spec fn spec_slab_index(
    reg: RegistryView,
    segs: Map<u64, Segment>,
    id: Id,
) -> Result<usize, ManagerError> {
    if !reg.entries.contains_key(id) {
        Err(ManagerError::UnknownId(id))
    } else {
        let (loc, sid) = reg.entries[id];
        match segment_of(segs, sid) {
            None => Err(ManagerError::UnknownSegment(sid)),
            Some(s) => match first_slab_at(s.slabs(), loc) {
                Some(i) => Ok(i as usize),
                None => Err(ManagerError::SlabNotInSegment),
            },
        }
    }
}

/// `new` is `old` with slab `i` of segment `sid` marked closed, and nothing else changed.
pub open spec fn slab_closed(old: Map<u64, Segment>, new: Map<u64, Segment>, sid: SegmentId, i: int) -> bool {
    let (o, n) = (old[sid.0], new[sid.0]);
    &&& old.contains_key(sid.0)
    &&& new == old.insert(sid.0, n)
    &&& n.spec_kind() == o.spec_kind()
    &&& n.spec_base() == o.spec_base()
    &&& n.spec_uuid() == o.spec_uuid()
    &&& n.slabs().len() == o.slabs().len()
    &&& forall|j: int| 0 <= j < o.slabs().len() && j != i ==> n.slabs()[j] == o.slabs()[j]
    &&& restated(n.slabs()[i], o.slabs()[i], State::Closed)
}

/// `n` is `o` with every slab marked closed.
pub open spec fn segment_closed(o: Segment, n: Segment) -> bool {
    &&& n.spec_kind() == o.spec_kind()
    &&& n.spec_base() == o.spec_base()
    &&& n.spec_uuid() == o.spec_uuid()
    &&& n.slabs().len() == o.slabs().len()
    &&& forall|j: int|
        0 <= j < o.slabs().len() ==> restated(#[trigger] n.slabs()[j], o.slabs()[j], State::Closed)
}

/// `new` is `old` with every slab of every segment marked closed.
pub open spec fn all_closed(old: Map<u64, Segment>, new: Map<u64, Segment>) -> bool {
    &&& new.dom() == old.dom()
    &&& forall|k: u64| #[trigger] old.contains_key(k) ==> segment_closed(old[k], new[k])
}

/// Every default and every named segment of the registry is in the table.
pub open spec fn names_segments(reg: RegistryView, segs: Map<u64, Segment>) -> bool {
    &&& forall|k: Seq<char>| #[trigger] reg.defaults.contains_key(k) ==> has_segment(segs, reg.defaults[k])
    &&& forall|k: Seq<char>| #[trigger] reg.bases.contains_key(k) ==> has_segment(segs, reg.bases[k])
}

/// The registry and the table of segments, keyed by segment id.
pub struct Manager {
    registry: Registry,
    segments: HashMap<u64, Segment>,
}

impl Manager {
    /// What the registry holds.
    pub closed spec fn reg(&self) -> RegistryView {
        self.registry@
    }

    /// The segments by id.
    pub closed spec fn segs(&self) -> Map<u64, Segment> {
        self.segments@
    }

    /// The registry is well formed, and every segment id lies below the next one.
    pub closed spec fn wf(&self) -> bool {
        &&& self.registry.wf()
        &&& forall|k: u64| #[trigger] self.segments@.contains_key(k) ==> k < self.registry@.next_segment_id
        &&& names_segments(self.registry@, self.segments@)
    }

    /// No segment and nothing registered.
    pub fn new() -> (r: Self)
        ensures
            r.wf(),
            r.segs() == Map::<u64, Segment>::empty(),
            r.reg().next_mem_id == 0,
            r.reg().next_segment_id == 0,
            r.reg().ids == Map::<Seq<char>, Id>::empty(),
            r.reg().entries == Map::<Id, EntryView>::empty(),
            r.reg().bases == Map::<Seq<char>, SegmentId>::empty(),
            r.reg().defaults == Map::<Seq<char>, SegmentId>::empty(),
    {
        Manager { registry: Registry::new(), segments: HashMap::new() }
    }

    /// The registry, for lookups by locator or id.
    pub fn registry(&self) -> (r: &Registry)
        ensures
            r@ == self.reg(),
            self.wf() ==> r.wf(),
    {
        &self.registry
    }

    /// Segment `id`, if the table holds it.
    pub fn segment(&self, id: SegmentId) -> (r: Option<&Segment>)
        requires
            self.wf(),
        ensures
            match segment_of(self.segs(), id) {
                Some(s) => r matches Some(x) && *x == s,
                None => r is None,
            },
    {
        self.segments.get(&id.0)
    }

    /// Segment `id` for changes; nothing else changes.
    pub fn segment_mut(&mut self, id: SegmentId) -> (r: Option<&mut Segment>)
        requires
            old(self).wf(),
        ensures
            final(self).wf(),
            final(self).reg() == old(self).reg(),
            match segment_of(old(self).segs(), id) {
                Some(s) => r matches Some(x) && *x == s && final(self).segs() == old(self).segs().insert(
                    id.0,
                    *final(x),
                ),
                None => r is None && final(self).segs() == old(self).segs(),
            },
    {
        if !self.segments.contains_key(&id.0) {
            return None;
        }
        match self.segments.entry(id.0) {
            Entry::Occupied(o) => Some(o.into_mut()),
            Entry::Vacant(_) => {
                proof {
                    assert(false);
                }
                None
            },
        }
    }

    /// The ids of all segments, each once.
    pub fn segment_ids(&self) -> (r: Vec<SegmentId>)
        ensures
            r@.len() == self.segs().dom().len(),
            forall|i: int| 0 <= i < r@.len() ==> self.segs().contains_key(#[trigger] r@[i].0),
            forall|k: u64| #[trigger] self.segs().contains_key(k) ==> exists|i: int|
                0 <= i < r@.len() && r@[i].0 == k,
            forall|i: int, j: int| 0 <= i < r@.len() && 0 <= j < r@.len() && i != j ==> r@[i] != r@[j],
    {
        let mut out: Vec<SegmentId> = Vec::new();
        let ghost keys = self.segments.keys().remaining();
        for k in it: self.segments.keys()
            invariant
                it.seq() == keys,
                out@.len() == it.index(),
                forall|j: int| 0 <= j < it.index() ==> #[trigger] out@[j].0 == *keys[j],
        {
            out.push(SegmentId(*k));
        }
        proof {
            assert(keys.unref().to_set() == self.segments@.dom());
            assert forall|i: int| 0 <= i < out@.len() implies self.segments@.contains_key(#[trigger] out@[i].0) by {
                assert(keys.unref()[i] == *keys[i]);
                assert(keys.unref().to_set().contains(keys.unref()[i]));
            }
            assert forall|k: u64| #[trigger] self.segments@.contains_key(k) implies exists|i: int|
                0 <= i < out@.len() && out@[i].0 == k by {
                assert(keys.unref().to_set().contains(k));
                let i = choose|i: int| 0 <= i < keys.unref().len() && keys.unref()[i] == k;
                assert(out@[i].0 == *keys[i]);
            }
            assert forall|i: int, j: int| 0 <= i < out@.len() && 0 <= j < out@.len() && i != j implies out@[i] != out@[j] by {
                assert(keys[i] != keys[j]);
                assert(out@[i].0 == *keys[i] && out@[j].0 == *keys[j]);
            }
        }
        out
    }

    /// A new segment of `kind` with no slab; it becomes the kind's default segment (for
    /// process `pid`) unless the kind has one.
    pub fn create_segment(&mut self, kind: Kind, pid: u32) -> (r: SegmentId)
        requires
            old(self).wf(),
            old(self).reg().next_segment_id < u64::MAX,
        ensures
            final(self).wf(),
            r == SegmentId(old(self).reg().next_segment_id),
            !has_segment(old(self).segs(), r),
            final(self).reg() == (RegistryView {
                next_segment_id: (old(self).reg().next_segment_id + 1) as u64,
                defaults: if old(self).reg().defaults.contains_key(spec_default_url(kind, pid)) {
                    old(self).reg().defaults
                } else {
                    old(self).reg().defaults.insert(spec_default_url(kind, pid), r)
                },
                ..old(self).reg()
            }),
            final(self).segs() == old(self).segs().insert(r.0, final(self).segs()[r.0]),
            fresh_segment(final(self).segs()[r.0], kind),
    {
        let id = self.registry.alloc_segment_id();
        let key = Locator::default_for_kind(kind, pid);
        self.registry.note_default_segment(key.as_str(), id);
        let fresh = Segment::new(kind);
        self.segments.insert(id.0, fresh);
        proof {
            assert forall|k: Seq<char>| #[trigger] self.registry@.defaults.contains_key(k) implies has_segment(
                self.segments@,
                self.registry@.defaults[k],
            ) by {
                if old(self).registry@.defaults.contains_key(k) {
                    assert(has_segment(old(self).segments@, old(self).registry@.defaults[k]));
                }
            }
            assert forall|k: Seq<char>| #[trigger] self.registry@.bases.contains_key(k) implies has_segment(
                self.segments@,
                self.registry@.bases[k],
            ) by {
                assert(has_segment(old(self).segments@, old(self).registry@.bases[k]));
            }
        }
        id
    }

    /// The segment a registration on the default segment of `scheme` goes to (process `pid`):
    /// the kind's default segment, created on first use.
    pub fn ensure_default_segment(&mut self, scheme: &str, pid: u32) -> (r: Result<SegmentId, ManagerError>)
        requires
            old(self).wf(),
            Kind::spec_from_scheme(scheme@) matches Some(k) && !old(self).reg().defaults.contains_key(
                spec_default_url(k, pid),
            ) ==> old(self).reg().next_segment_id < u64::MAX,
        ensures
            final(self).wf(),
            match Kind::spec_from_scheme(scheme@) {
                None => r matches Err(ManagerError::UnsupportedScheme(x)) && x@ == scheme@ && final(self).reg() == old(self).reg() && final(self).segs() == old(self).segs(),
                Some(k) => if old(self).reg().defaults.contains_key(spec_default_url(k, pid)) {
                    r == Ok::<SegmentId, ManagerError>(
                        old(self).reg().defaults[spec_default_url(k, pid)],
                    ) && final(self).reg() == old(self).reg() && final(self).segs() == old(self).segs()
                } else {
                    let id = old(self).reg().next_segment_id;
                    &&& r == Ok::<SegmentId, ManagerError>(SegmentId(id))
                    &&& final(self).reg() == (RegistryView {
                        next_segment_id: (id + 1) as u64,
                        defaults: old(self).reg().defaults.insert(
                            spec_default_url(k, pid),
                            SegmentId(id),
                        ),
                        ..old(self).reg()
                    })
                    &&& !old(self).segs().contains_key(id)
                    &&& final(self).segs() == old(self).segs().insert(id, final(self).segs()[id])
                    &&& fresh_segment(final(self).segs()[id], k)
                },
            },
            r matches Ok(id) ==> Kind::spec_from_scheme(scheme@) matches Some(k)
                && final(self).reg().defaults.contains_key(spec_default_url(k, pid))
                && final(self).reg().defaults[spec_default_url(k, pid)] == id && has_segment(
                final(self).segs(),
                id,
            ),
    {
        match self.registry.default_segment_for(scheme, pid) {
            Err(e) => Err(e),
            Ok(DefaultSegment::Existing(id)) => Ok(id),
            Ok(DefaultSegment::Create(kind)) => Ok(self.create_segment(kind, pid)),
        }
    }

    /// First step of opening a named segment at `base`: the base may name no open segment and
    /// its scheme must name a storage kind; then the segment's id is handed out. The segment
    /// is opened by its owner and recorded with [`Self::finish_segment`].
    pub fn begin_segment(&mut self, base: &Locator) -> (r: Result<(SegmentId, Kind), ManagerError>)
        requires
            old(self).wf(),
            !old(self).reg().bases.contains_key(spec_segment_base_key(base@)) && Kind::spec_from_scheme(
                url_scheme(base@),
            ) is Some ==> old(self).reg().next_segment_id < u64::MAX,
        ensures
            final(self).wf(),
            final(self).segs() == old(self).segs(),
            old(self).reg().bases.contains_key(spec_segment_base_key(base@)) ==> (r matches Err(
                ManagerError::DuplicateSegment(k),
            ) && k@ == spec_segment_base_key(base@) && final(self).reg() == old(self).reg()),
            !old(self).reg().bases.contains_key(spec_segment_base_key(base@)) ==> match Kind::spec_from_scheme(
                url_scheme(base@),
            ) {
                None => r matches Err(ManagerError::UnsupportedScheme(x)) && x@ == url_scheme(base@)
                    && final(self).reg() == old(self).reg(),
                Some(k) => r == Ok::<(SegmentId, Kind), ManagerError>(
                    (SegmentId(old(self).reg().next_segment_id), k),
                ) && final(self).reg() == (RegistryView {
                    next_segment_id: (old(self).reg().next_segment_id + 1) as u64,
                    ..old(self).reg()
                }),
            },
    {
        let key = base.base_key();
        self.registry.check_new_base(key.as_str())?;
        let kind = match Kind::from_scheme(base.scheme()) {
            Some(k) => k,
            None => {
                return Err(ManagerError::UnsupportedScheme(base.scheme().to_owned()));
            },
        };
        let id = self.registry.alloc_segment_id();
        Ok((id, kind))
    }

    /// Record the segment `id`, opened at `base` by its owner, as the segment named by that
    /// base.
    pub fn finish_segment(&mut self, id: SegmentId, base: &Locator, segment: Segment)
        requires
            old(self).wf(),
            !has_segment(old(self).segs(), id),
            id.0 < old(self).reg().next_segment_id,
            !old(self).reg().bases.contains_key(spec_segment_base_key(base@)),
        ensures
            final(self).wf(),
            final(self).reg() == (RegistryView {
                bases: old(self).reg().bases.insert(spec_segment_base_key(base@), id),
                ..old(self).reg()
            }),
            final(self).segs() == old(self).segs().insert(id.0, segment),
    {
        let key = base.base_key();
        self.registry.insert_base(key.as_str(), id);
        let ghost seg = segment;
        self.segments.insert(id.0, segment);
        proof {
            assert forall|k: Seq<char>| #[trigger] self.registry@.defaults.contains_key(k) implies has_segment(
                self.segments@,
                self.registry@.defaults[k],
            ) by {
                assert(has_segment(old(self).segments@, old(self).registry@.defaults[k]));
            }
            assert forall|k: Seq<char>| #[trigger] self.registry@.bases.contains_key(k) implies has_segment(
                self.segments@,
                self.registry@.bases[k],
            ) by {
                if old(self).registry@.bases.contains_key(k) {
                    assert(has_segment(old(self).segments@, old(self).registry@.bases[k]));
                }
            }
        }
    }

    /// The segment named by the segment base of `locator`.
    pub fn segment_id_for_base(&self, locator: &str) -> (r: Result<SegmentId, ManagerError>)
        requires
            self.wf(),
        ensures
            self.reg().bases.contains_key(spec_segment_base_key(locator@)) ==> r == Ok::<
                SegmentId,
                ManagerError,
            >(self.reg().bases[spec_segment_base_key(locator@)]),
            !self.reg().bases.contains_key(spec_segment_base_key(locator@)) ==> (r matches Err(
                ManagerError::UnknownSegmentBase(k),
            ) && k@ == spec_segment_base_key(locator@)),
            r matches Ok(id) ==> has_segment(self.segs(), id),
    {
        self.registry.segment_id_for_base(locator)
    }

    /// Where a registration of `url` on segment `segment_id` may go: the locator must be new,
    /// the segment must exist, and the url's scheme must be the segment's kind. The slab is
    /// then opened by the segment's owner and recorded with [`Self::record`].
    pub fn check_register(&self, segment_id: SegmentId, url: &Url) -> (r: Result<Kind, ManagerError>)
        requires
            self.wf(),
        ensures
            self.reg().ids.contains_key(url@) ==> (r matches Err(ManagerError::DuplicateLocator(k))
                && k@ == url@),
            !self.reg().ids.contains_key(url@) ==> match segment_of(self.segs(), segment_id) {
                None => r matches Err(ManagerError::UnknownSegment(x)) && x == segment_id,
                Some(s) => if url_scheme(url@) == s.spec_kind().spec_scheme() {
                    r == Ok::<Kind, ManagerError>(s.spec_kind())
                } else {
                    r matches Err(ManagerError::SchemeMismatch { url_scheme: u, kind: k }) && u@
                        == url_scheme(url@) && k == s.spec_kind()
                },
            },
    {
        self.registry.check_new_locator(url)?;
        let kind = match self.segment(segment_id) {
            Some(s) => s.kind(),
            None => {
                return Err(ManagerError::UnknownSegment(segment_id));
            },
        };
        ensure_url_matches(url, kind)?;
        Ok(kind)
    }

    /// Record the slab opened at `url` on segment `segment_id` at index `slab_index`.
    pub fn record(&mut self, url: &Url, segment_id: SegmentId, slab_index: usize) -> (r: Registered)
        requires
            old(self).wf(),
            !old(self).reg().ids.contains_key(url@),
            old(self).reg().next_mem_id < u64::MAX,
        ensures
            final(self).wf(),
            final(self).segs() == old(self).segs(),
            r.id == Id(old(self).reg().next_mem_id),
            r.locator@ == url@,
            r.segment_id == segment_id,
            r.slab_index == slab_index,
            final(self).reg() == (RegistryView {
                next_mem_id: (old(self).reg().next_mem_id + 1) as u64,
                ids: old(self).reg().ids.insert(url@, r.id),
                entries: old(self).reg().entries.insert(r.id, (url@, segment_id)),
                ..old(self).reg()
            }),
    {
        self.registry.record(url, segment_id, slab_index)
    }

    /// The id registered for `locator`.
    pub fn id<S: LocatorRef + ?Sized>(&self, locator: &S) -> (r: Result<Id, ManagerError>)
        requires
            self.wf(),
        ensures
            self.reg().ids.contains_key(locator.spec_key()) ==> r == Ok::<Id, ManagerError>(
                self.reg().ids[locator.spec_key()],
            ),
            !self.reg().ids.contains_key(locator.spec_key()) ==> (r matches Err(
                ManagerError::UnknownLocator(k),
            ) && k@ == locator.spec_key()),
    {
        self.registry.id(locator.locator_key())
    }

    /// The id registered for `locator`, if any.
    pub fn try_id<S: LocatorRef + ?Sized>(&self, locator: &S) -> (r: Option<Id>)
        requires
            self.wf(),
        ensures
            r is Some <==> self.reg().ids.contains_key(locator.spec_key()),
            r matches Some(id) ==> id == self.reg().ids[locator.spec_key()],
    {
        self.registry.try_id(locator.locator_key())
    }

    /// Whether `locator` is registered.
    pub fn contains_locator<S: LocatorRef + ?Sized>(&self, locator: &S) -> (r: bool)
        requires
            self.wf(),
        ensures
            r == self.reg().ids.contains_key(locator.spec_key()),
    {
        self.registry.contains_locator(locator.locator_key())
    }

    /// The locator registered under `id`.
    pub fn locator(&self, id: Id) -> (r: Result<&Locator, ManagerError>)
        requires
            self.wf(),
        ensures
            self.reg().entries.contains_key(id) ==> (r matches Ok(l) && l@ == self.reg().entries[id].0),
            !self.reg().entries.contains_key(id) ==> (r matches Err(ManagerError::UnknownId(x)) && x
                == id),
    {
        self.registry.locator(id)
    }

    /// The registered slab with id `id`.
    pub fn mem_entry(&self, id: Id) -> (r: Result<&MemEntry, ManagerError>)
        requires
            self.wf(),
        ensures
            self.reg().entries.contains_key(id) ==> (r matches Ok(e) && (e.locator@, e.segment_id)
                == self.reg().entries[id]),
            !self.reg().entries.contains_key(id) ==> (r matches Err(ManagerError::UnknownId(x)) && x
                == id),
    {
        self.registry.mem_entry(id)
    }

    /// The segment of the slab registered under `id`.
    pub fn segment_id_for(&self, id: Id) -> (r: Result<SegmentId, ManagerError>)
        requires
            self.wf(),
        ensures
            self.reg().entries.contains_key(id) ==> r == Ok::<SegmentId, ManagerError>(
                self.reg().entries[id].1,
            ),
            !self.reg().entries.contains_key(id) ==> (r matches Err(ManagerError::UnknownId(x)) && x
                == id),
    {
        self.registry.segment_id_for(id)
    }

    /// Index of the slab registered under `id` in its segment.
    pub fn slab_index(&self, id: Id) -> (r: Result<usize, ManagerError>)
        requires
            self.wf(),
        ensures
            r == spec_slab_index(self.reg(), self.segs(), id),
    {
        let entry = self.registry.mem_entry(id)?;
        let seg = match self.segment(entry.segment_id) {
            Some(s) => s,
            None => {
                return Err(ManagerError::UnknownSegment(entry.segment_id));
            },
        };
        match seg.locate_slab(entry.locator.as_url()) {
            Some(i) => Ok(i),
            None => Err(ManagerError::SlabNotInSegment),
        }
    }

    /// Close the slab registered under `id` (its mapping stays for the allocator) and forget
    /// the registration.
    pub fn close(&mut self, id: Id) -> (r: Result<(), ManagerError>)
        requires
            old(self).wf(),
        ensures
            final(self).wf(),
            match spec_slab_index(old(self).reg(), old(self).segs(), id) {
                Err(e) => r == Err::<(), ManagerError>(e) && final(self).reg() == old(self).reg()
                    && final(self).segs() == old(self).segs(),
                Ok(i) => r is Ok && final(self).reg() == (RegistryView {
                    ids: old(self).reg().ids.remove(old(self).reg().entries[id].0),
                    entries: old(self).reg().entries.remove(id),
                    ..old(self).reg()
                }) && slab_closed(
                    old(self).segs(),
                    final(self).segs(),
                    old(self).reg().entries[id].1,
                    i as int,
                ),
            },
    {
        self.close_or_unlink(id, false)
    }

    /// Same as [`Self::close`]: the mapping goes when the segment goes.
    pub fn unlink(&mut self, id: Id) -> (r: Result<(), ManagerError>)
        requires
            old(self).wf(),
        ensures
            final(self).wf(),
            match spec_slab_index(old(self).reg(), old(self).segs(), id) {
                Err(e) => r == Err::<(), ManagerError>(e) && final(self).reg() == old(self).reg()
                    && final(self).segs() == old(self).segs(),
                Ok(i) => r is Ok && final(self).reg() == (RegistryView {
                    ids: old(self).reg().ids.remove(old(self).reg().entries[id].0),
                    entries: old(self).reg().entries.remove(id),
                    ..old(self).reg()
                }) && slab_closed(
                    old(self).segs(),
                    final(self).segs(),
                    old(self).reg().entries[id].1,
                    i as int,
                ),
            },
    {
        self.close_or_unlink(id, true)
    }

    #[verifier::spinoff_prover]
    fn close_or_unlink(&mut self, id: Id, unlink: bool) -> (r: Result<(), ManagerError>)
        requires
            old(self).wf(),
        ensures
            final(self).wf(),
            match spec_slab_index(old(self).reg(), old(self).segs(), id) {
                Err(e) => r == Err::<(), ManagerError>(e) && final(self).reg() == old(self).reg()
                    && final(self).segs() == old(self).segs(),
                Ok(i) => r is Ok && final(self).reg() == (RegistryView {
                    ids: old(self).reg().ids.remove(old(self).reg().entries[id].0),
                    entries: old(self).reg().entries.remove(id),
                    ..old(self).reg()
                }) && slab_closed(
                    old(self).segs(),
                    final(self).segs(),
                    old(self).reg().entries[id].1,
                    i as int,
                ),
            },
    {
        let sid = self.registry.segment_id_for(id)?;
        let idx = self.slab_index(id)?;
        proof {
            crate::slab::segment::lemma_first_slab_at_found(
                self.segments@[sid.0].slabs(),
                self.registry@.entries[id].0,
            );
        }
        let ghost segs0 = self.segments@;
        let ghost reg0 = self.registry@;
        let seg = match self.segment_mut(sid) {
            Some(s) => s,
            None => {
                return Err(ManagerError::UnknownSegment(sid));
            },
        };
        let _ = if unlink {
            seg.unlink(idx)
        } else {
            seg.close(idx)
        };
        assert(slab_closed(segs0, self.segments@, sid, idx as int));
        let r = self.registry.remove(id);
        assert(self.segments@.dom() == segs0.dom());
        r
    }

    /// Close every slab of every segment and forget every registration.
    pub fn close_all(&mut self) -> (r: Result<(), ManagerError>)
        requires
            old(self).wf(),
        ensures
            final(self).wf(),
            r is Ok,
            final(self).reg() == (RegistryView {
                ids: Map::empty(),
                entries: Map::empty(),
                ..old(self).reg()
            }),
            all_closed(old(self).segs(), final(self).segs()),
    {
        self.close_or_unlink_all(false)
    }

    /// Same as [`Self::close_all`].
    pub fn unlink_all(&mut self) -> (r: Result<(), ManagerError>)
        requires
            old(self).wf(),
        ensures
            final(self).wf(),
            r is Ok,
            final(self).reg() == (RegistryView {
                ids: Map::empty(),
                entries: Map::empty(),
                ..old(self).reg()
            }),
            all_closed(old(self).segs(), final(self).segs()),
    {
        self.close_or_unlink_all(true)
    }

    fn close_or_unlink_all(&mut self, unlink: bool) -> (r: Result<(), ManagerError>)
        requires
            old(self).wf(),
        ensures
            final(self).wf(),
            r is Ok,
            final(self).reg() == (RegistryView {
                ids: Map::empty(),
                entries: Map::empty(),
                ..old(self).reg()
            }),
            all_closed(old(self).segs(), final(self).segs()),
    {
        let ids = self.segment_ids();
        let n = ids.len();
        let mut i: usize = 0;
        while i < n
            invariant
                n == ids@.len(),
                0 <= i <= n,
                ids@.len() == old(self).segments@.dom().len(),
                forall|a: int| 0 <= a < n ==> old(self).segments@.contains_key(#[trigger] ids@[a].0),
                forall|k: u64| #[trigger] old(self).segments@.contains_key(k) ==> exists|a: int|
                    0 <= a < n && ids@[a].0 == k,
                forall|a: int, b: int| 0 <= a < n && 0 <= b < n && a != b ==> ids@[a] != ids@[b],
                self.registry == old(self).registry,
                self.segments@.dom() == old(self).segments@.dom(),
                forall|k: u64|
                    #[trigger] old(self).segments@.contains_key(k) ==> (if exists|a: int|
                        0 <= a < i && ids@[a].0 == k {
                        segment_closed(old(self).segments@[k], self.segments@[k])
                    } else {
                        self.segments@[k] == old(self).segments@[k]
                    }),
            decreases n - i,
        {
            let k = ids[i].0;
            let ghost before = self.segments@;
            match self.segments.entry(k) {
                Entry::Occupied(o) => {
                    let seg = o.into_mut();
                    let _ = if unlink {
                        seg.unlink_all()
                    } else {
                        seg.close_all()
                    };
                },
                Entry::Vacant(_) => {
                    proof {
                        assert(false);
                    }
                },
            }
            proof {
                assert(self.segments@ == before.insert(k, self.segments@[k]));
                assert forall|q: u64| #[trigger] old(self).segments@.contains_key(q) implies (if exists|a: int|
                    0 <= a < i + 1 && ids@[a].0 == q {
                    segment_closed(old(self).segments@[q], self.segments@[q])
                } else {
                    self.segments@[q] == old(self).segments@[q]
                }) by {
                    if q == k {
                        assert(ids@[i as int].0 == q);
                        if exists|a: int| 0 <= a < i && ids@[a].0 == q {
                            let a = choose|a: int| 0 <= a < i && ids@[a].0 == q;
                            assert(ids@[a] == ids@[i as int]);
                        }
                        assert(before[k] == old(self).segments@[k]);
                    } else {
                        if exists|a: int| 0 <= a < i + 1 && ids@[a].0 == q {
                            let a = choose|a: int| 0 <= a < i + 1 && ids@[a].0 == q;
                            assert(a != i);
                        }
                    }
                }
            }
            i = i + 1;
        }
        proof {
            assert forall|q: u64| #[trigger] old(self).segments@.contains_key(q) implies segment_closed(
                old(self).segments@[q],
                self.segments@[q],
            ) by {
                let a = choose|a: int| 0 <= a < n && ids@[a].0 == q;
                assert(exists|b: int| 0 <= b < i && ids@[b].0 == q);
            }
            assert forall|q: Seq<char>| #[trigger] self.registry@.defaults.contains_key(q) implies has_segment(
                self.segments@,
                self.registry@.defaults[q],
            ) by {
                assert(has_segment(old(self).segments@, old(self).registry@.defaults[q]));
            }
            assert forall|q: Seq<char>| #[trigger] self.registry@.bases.contains_key(q) implies has_segment(
                self.segments@,
                self.registry@.bases[q],
            ) by {
                assert(has_segment(old(self).segments@, old(self).registry@.bases[q]));
            }
        }
        self.registry.clear();
        Ok(())
    }

    /// Usage rows of every registration, measured in its segment, ordered by id.
    #[verifier::spinoff_prover]
    pub fn usage_rows(&self) -> (r: Vec<Usage>)
        requires
            self.wf(),
        ensures
            sorted_by_id(r@),
            forall|i: int|
                0 <= i < r@.len() ==> #[trigger] self.reg().entries.contains_key(r@[i].id)
                    && self.reg().entries[r@[i].id] == (r@[i].locator@, r@[i].segment_id)
                    && (r@[i].raw_len, r@[i].arena_len) == Usage::spec_slab_lens(
                    segment_of(self.segs(), r@[i].segment_id),
                    r@[i].locator@,
                ),
            forall|id: Id| #[trigger]
                self.reg().entries.contains_key(id) ==> exists|i: int| 0 <= i < r@.len() && r@[i].id == id,
            r@.len() == self.reg().entries.dom().len(),
            forall|i: int, j: int| 0 <= i < j < r@.len() ==> #[trigger] r@[i].id.0 < #[trigger] r@[j].id.0,
            forall|i: int|
                0 <= i < r@.len() ==> (#[trigger] r@[i]).scheme@ == url_scheme(r@[i].locator@)
                    && r@[i].header_len == (if r@[i].raw_len >= r@[i].arena_len {
                    r@[i].raw_len - r@[i].arena_len
                } else {
                    0
                }),
    {
        let entries = self.registry.entries();
        let mut rows: Vec<Usage> = Vec::new();
        let n = entries.len();
        let mut i: usize = 0;
        while i < n
            invariant
                n == entries@.len(),
                0 <= i <= n,
                rows@.len() == i,
                self.wf(),
                forall|j: int|
                    0 <= j < i ==> (#[trigger] rows@[j]).id == entries@[j].0 && rows@[j].locator@
                        == entries@[j].1@ && rows@[j].segment_id == entries@[j].2 && (
                        rows@[j].raw_len,
                        rows@[j].arena_len,
                    ) == Usage::spec_slab_lens(
                        segment_of(self.segs(), rows@[j].segment_id),
                        rows@[j].locator@,
                    ) && rows@[j].scheme@ == url_scheme(rows@[j].locator@) && rows@[j].header_len == (
                    if rows@[j].raw_len >= rows@[j].arena_len {
                        rows@[j].raw_len - rows@[j].arena_len
                    } else {
                        0
                    }),
            decreases n - i,
        {
            let (id, locator, segment_id) = (entries[i].0, entries[i].1.clone(), entries[i].2);
            let seg = self.segment(segment_id);
            let row = Usage::of_slab(id, segment_id, locator, seg);
            assert(Usage::owned(seg) == segment_of(self.segs(), segment_id));
            rows.push(row);
            i = i + 1;
        }
        let ghost before = rows@;
        let out = sort_by_id(rows);
        proof {
            broadcast use vstd::seq_lib::to_multiset_contains;

            assert forall|i: int| 0 <= i < out@.len() implies #[trigger] self.registry@.entries.contains_key(
                out@[i].id,
            ) && self.registry@.entries[out@[i].id] == (out@[i].locator@, out@[i].segment_id) && (
                out@[i].raw_len,
                out@[i].arena_len,
            ) == Usage::spec_slab_lens(segment_of(self.segments@, out@[i].segment_id), out@[i].locator@) by {
                let x = out@[i];
                assert(out@.contains(x));
                assert(out@.to_multiset().count(x) > 0);
                assert(before.to_multiset().count(x) > 0);
                assert(before.contains(x));
                let j = choose|j: int| 0 <= j < before.len() && before[j] == x;
                assert(before[j] == x);
                assert(before[j].id == entries@[j].0);
                assert(self.registry@.entries.contains_key(entries@[j].0));
                assert(self.registry@.entries[entries@[j].0] == (entries@[j].1@, entries@[j].2));
            }
            assert forall|id: Id| #[trigger] self.registry@.entries.contains_key(id) implies exists|i: int|
                0 <= i < out@.len() && out@[i].id == id by {
                let j = choose|j: int| 0 <= j < entries@.len() && entries@[j].0 == id;
                let x = before[j];
                assert(before.contains(x));
                assert(before.to_multiset().count(x) > 0);
                assert(out@.to_multiset().count(x) > 0);
                assert(out@.contains(x));
                let i = choose|i: int| 0 <= i < out@.len() && out@[i] == x;
                assert(out@[i].id == id);
            }
            assert forall|i: int| 0 <= i < out@.len() implies (#[trigger] out@[i]).scheme@ == url_scheme(
                out@[i].locator@,
            ) && out@[i].header_len == (if out@[i].raw_len >= out@[i].arena_len {
                out@[i].raw_len - out@[i].arena_len
            } else {
                0
            }) by {
                let x = out@[i];
                assert(out@.contains(x));
                assert(out@.to_multiset().count(x) > 0);
                assert(before.to_multiset().count(x) > 0);
                assert(before.contains(x));
                let j = choose|j: int| 0 <= j < before.len() && before[j] == x;
                assert(before[j] == x);
            }
            // The rows carry the registrations' distinct ids, so sorting leaves them strictly
            // ascending, and there are as many as registrations.
            assert(before.no_duplicates()) by {
                assert forall|p: int, q: int| 0 <= p < before.len() && 0 <= q < before.len() && p != q
                    implies before[p] != before[q] by {
                    assert(before[p].id == entries@[p].0 && before[q].id == entries@[q].0);
                }
            }
            before.lemma_multiset_has_no_duplicates();
            out@.lemma_multiset_has_no_duplicates_conv();
            assert forall|i: int, j: int| 0 <= i < j < out@.len() implies #[trigger] out@[i].id.0
                < #[trigger] out@[j].id.0 by {
                assert(out@[i] != out@[j]);
                let x = out@[i];
                let y = out@[j];
                assert(out@.contains(x) && out@.contains(y));
                assert(out@.to_multiset().count(x) > 0 && out@.to_multiset().count(y) > 0);
                assert(before.to_multiset().count(x) > 0 && before.to_multiset().count(y) > 0);
                assert(before.contains(x) && before.contains(y));
                let p = choose|p: int| 0 <= p < before.len() && before[p] == x;
                let q = choose|q: int| 0 <= q < before.len() && before[q] == y;
                assert(before[p].id == entries@[p].0 && before[q].id == entries@[q].0);
            }
            vstd::seq_lib::to_multiset_len(out@);
            vstd::seq_lib::to_multiset_len(before);
        }
        out
    }
}


/// A closed registration is found neither by its locator nor by its id, while its slab stays
/// in its segment, marked closed, with its mapping as it was (the allocator may still hand
/// out memory in it).
pub proof fn lemma_close_then_lookup(
    old_reg: RegistryView,
    old_segs: Map<u64, Segment>,
    new_reg: RegistryView,
    new_segs: Map<u64, Segment>,
    id: Id,
)
    requires
        spec_slab_index(old_reg, old_segs, id) is Ok,
        new_reg == (RegistryView {
            ids: old_reg.ids.remove(old_reg.entries[id].0),
            entries: old_reg.entries.remove(id),
            ..old_reg
        }),
        slab_closed(
            old_segs,
            new_segs,
            old_reg.entries[id].1,
            spec_slab_index(old_reg, old_segs, id)->Ok_0 as int,
        ),
    ensures
        ({
            let (loc, sid) = old_reg.entries[id];
            let i = spec_slab_index(old_reg, old_segs, id)->Ok_0 as int;
            &&& !new_reg.ids.contains_key(loc)
            &&& !new_reg.entries.contains_key(id)
            &&& segment_of(new_segs, sid) matches Some(s) && s.slabs()[i].spec_info().state
                == State::Closed && s.slabs()[i].spec_bytes() == segment_of(
                old_segs,
                sid,
            )->Some_0.slabs()[i].spec_bytes()
        }),
{
    let (loc, sid) = old_reg.entries[id];
    assert(new_segs.contains_key(sid.0));
}

} // verus!
