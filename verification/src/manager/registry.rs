//! The registry's bookkeeping: which locator is registered under which id on which segment,
//! which segment a base locator names, and the first segment opened per storage kind.
//!
//! Opening and closing the slabs themselves is the segments' work; the registry decides what
//! a request is answered before that work and records the outcome after it.

use super::data::{MemEntry, Registered};
use super::error::ManagerError;
use super::locator::{spec_default_url, spec_segment_base_key, Locator};
use crate::ids::{Id, SegmentId};
use crate::io::Kind;
use crate::url::{str_is, url_scheme, Url};
use std::collections::HashMap;
use vstd::prelude::*;

verus! {

broadcast use vstd::std_specs::hash::group_hash_axioms;

/// A text key and the segment it leads to.
#[derive(Debug)]
pub struct SegmentKey {
    pub key: String,
    pub segment_id: SegmentId,
}

/// What a registered slab is: its locator text, and its segment.
pub type EntryView = (Seq<char>, SegmentId);

/// The text keys of a list of keyed records.
pub open spec fn keyed(s: Seq<SegmentKey>) -> Seq<(Seq<char>, SegmentId)> {
    s.map_values(|k: SegmentKey| (k.key@, k.segment_id))
}

/// The locator texts and ids of a list of registered locators.
pub open spec fn located(s: Seq<(String, Id)>) -> Seq<(Seq<char>, Id)> {
    s.map_values(|r: (String, Id)| (r.0@, r.1))
}

/// The map from text key to segment of keyed records.
pub open spec fn key_map(s: Seq<(Seq<char>, SegmentId)>) -> Map<Seq<char>, SegmentId> {
    Map::new(
        |k: Seq<char>| exists|i: int| 0 <= i < s.len() && s[i].0 == k,
        |k: Seq<char>| s[choose|i: int| 0 <= i < s.len() && s[i].0 == k].1,
    )
}

/// The map from locator text to id of registered locators.
pub open spec fn id_map(s: Seq<(Seq<char>, Id)>) -> Map<Seq<char>, Id> {
    Map::new(
        |k: Seq<char>| exists|i: int| 0 <= i < s.len() && s[i].0 == k,
        |k: Seq<char>| s[choose|i: int| 0 <= i < s.len() && s[i].0 == k].1,
    )
}

/// The registered slabs by id: locator text and segment.
pub open spec fn entry_view(m: Map<u64, MemEntry>) -> Map<Id, EntryView> {
    Map::new(|id: Id| m.contains_key(id.0), |id: Id| (m[id.0].locator@, m[id.0].segment_id))
}

pub open spec fn keys_unique(s: Seq<(Seq<char>, SegmentId)>) -> bool {
    forall|i: int, j: int| 0 <= i < s.len() && 0 <= j < s.len() && s[i].0 == s[j].0 ==> i == j
}

/// Registered locators: each locator text and each id at most once.
pub open spec fn locs_unique(s: Seq<(Seq<char>, Id)>) -> bool {
    &&& forall|i: int, j: int|
        0 <= i < s.len() && 0 <= j < s.len() && s[i].0 == s[j].0 ==> i == j
    &&& forall|i: int, j: int|
        0 <= i < s.len() && 0 <= j < s.len() && s[i].1 == s[j].1 ==> i == j
}

/// What the registry holds.
pub struct RegistryView {
    pub next_mem_id: u64,
    pub next_segment_id: u64,
    /// Locator text to id of each registered slab.
    pub ids: Map<Seq<char>, Id>,
    /// Id to locator text and segment of each registered slab.
    pub entries: Map<Id, EntryView>,
    /// Base key to segment of each named segment.
    pub bases: Map<Seq<char>, SegmentId>,
    /// Default locator text to the first segment created for that kind.
    pub defaults: Map<Seq<char>, SegmentId>,
}

/// The registry's records.
#[derive(Debug)]
pub struct Registry {
    next_mem_id: u64,
    next_segment_id: u64,
    /// Locator text to id, in registration order.
    by_locator: Vec<(String, Id)>,
    /// Id to registered slab.
    by_mem: HashMap<u64, MemEntry>,
    bases: Vec<SegmentKey>,
    defaults: Vec<SegmentKey>,
}

impl View for Registry {
    type V = RegistryView;

    closed spec fn view(&self) -> RegistryView {
        RegistryView {
            next_mem_id: self.next_mem_id,
            next_segment_id: self.next_segment_id,
            ids: id_map(located(self.by_locator@)),
            entries: entry_view(self.by_mem@),
            bases: key_map(keyed(self.bases@)),
            defaults: key_map(keyed(self.defaults@)),
        }
    }
}

/// What the default-segment lookup answers for a scheme.
#[derive(Debug, Clone, Copy, PartialEq, Eq, Structural)]
pub enum DefaultSegment {
    /// The kind already has its default segment.
    Existing(SegmentId),
    /// The kind has none yet: a segment of this kind is to be created.
    Create(Kind),
}

/// Looking up the key of record `i` of unique keyed records gives its segment.
proof fn lemma_key_at(s: Seq<(Seq<char>, SegmentId)>, i: int)
    requires
        keys_unique(s),
        0 <= i < s.len(),
    ensures
        key_map(s).contains_key(s[i].0),
        key_map(s)[s[i].0] == s[i].1,
{
    let k = s[i].0;
    assert(exists|j: int| 0 <= j < s.len() && s[j].0 == k);
    let j = choose|j: int| 0 <= j < s.len() && s[j].0 == k;
    assert(j == i);
}

/// Adding a record with a new key adds that key.
proof fn lemma_key_push(s: Seq<(Seq<char>, SegmentId)>, k: Seq<char>, v: SegmentId)
    requires
        keys_unique(s),
        !key_map(s).contains_key(k),
    ensures
        keys_unique(s.push((k, v))),
        key_map(s.push((k, v))) == key_map(s).insert(k, v),
{
    let t = s.push((k, v));
    assert forall|i: int, j: int| 0 <= i < t.len() && 0 <= j < t.len() && t[i].0 == t[j].0 implies i
        == j by {
        if i < s.len() && j == s.len() {
            assert(t[i] == s[i]);
            assert(key_map(s).contains_key(s[i].0));
        } else if j < s.len() && i == s.len() {
            assert(t[j] == s[j]);
            assert(key_map(s).contains_key(s[j].0));
        } else if i < s.len() && j < s.len() {
            assert(t[i] == s[i] && t[j] == s[j]);
        }
    }
    assert forall|q: Seq<char>| #[trigger] key_map(t).contains_key(q) == key_map(s).insert(
        k,
        v,
    ).contains_key(q) by {
        if key_map(s).contains_key(q) {
            let i = choose|i: int| 0 <= i < s.len() && s[i].0 == q;
            assert(t[i] == s[i]);
        }
        if q == k {
            assert(t[s.len() as int].0 == k);
        }
        if key_map(t).contains_key(q) && q != k {
            let i = choose|i: int| 0 <= i < t.len() && t[i].0 == q;
            assert(i < s.len());
            assert(t[i] == s[i]);
        }
    }
    assert forall|q: Seq<char>| #[trigger] key_map(t).contains_key(q) implies key_map(t)[q]
        == key_map(s).insert(k, v)[q] by {
        let i = choose|i: int| 0 <= i < t.len() && t[i].0 == q;
        lemma_key_at_unique(t, i);
        if q != k {
            assert(i < s.len());
            assert(t[i] == s[i]);
            lemma_key_at(s, i);
        }
    }
    assert(key_map(t) =~= key_map(s).insert(k, v));
}

proof fn lemma_key_at_unique(s: Seq<(Seq<char>, SegmentId)>, i: int)
    requires
        keys_unique(s),
        0 <= i < s.len(),
    ensures
        key_map(s)[s[i].0] == s[i].1,
{
    lemma_key_at(s, i);
}

/// Looking up the locator text of record `i` of unique registered locators gives its id.
proof fn lemma_loc_at(s: Seq<(Seq<char>, Id)>, i: int)
    requires
        locs_unique(s),
        0 <= i < s.len(),
    ensures
        id_map(s).contains_key(s[i].0),
        id_map(s)[s[i].0] == s[i].1,
{
    let k = s[i].0;
    assert(exists|j: int| 0 <= j < s.len() && s[j].0 == k);
    let j = choose|j: int| 0 <= j < s.len() && s[j].0 == k;
    assert(j == i);
}

/// Adding a new locator with a new id adds it.
proof fn lemma_loc_push(s: Seq<(Seq<char>, Id)>, r: (Seq<char>, Id))
    requires
        locs_unique(s),
        !id_map(s).contains_key(r.0),
        forall|i: int| 0 <= i < s.len() ==> (#[trigger] s[i]).1 != r.1,
    ensures
        locs_unique(s.push(r)),
        id_map(s.push(r)) == id_map(s).insert(r.0, r.1),
{
    let t = s.push(r);
    assert forall|i: int| 0 <= i < s.len() implies s[i].0 != r.0 by {
        if s[i].0 == r.0 {
            assert(id_map(s).contains_key(s[i].0));
        }
    }
    assert(locs_unique(t)) by {
        assert forall|i: int, j: int| 0 <= i < t.len() && 0 <= j < t.len() && t[i].0 == t[j].0 implies i
            == j by {
            if i < s.len() {
                assert(t[i] == s[i]);
            }
            if j < s.len() {
                assert(t[j] == s[j]);
            }
        }
        assert forall|i: int, j: int| 0 <= i < t.len() && 0 <= j < t.len() && t[i].1 == t[j].1 implies i
            == j by {
            if i < s.len() {
                assert(t[i] == s[i]);
            }
            if j < s.len() {
                assert(t[j] == s[j]);
            }
        }
    }
    assert forall|q: Seq<char>| #[trigger] id_map(t).contains_key(q) == id_map(s).insert(
        r.0,
        r.1,
    ).contains_key(q) by {
        if id_map(s).contains_key(q) {
            let i = choose|i: int| 0 <= i < s.len() && s[i].0 == q;
            assert(t[i] == s[i]);
        }
        if q == r.0 {
            assert(t[s.len() as int].0 == q);
        }
        if id_map(t).contains_key(q) && q != r.0 {
            let i = choose|i: int| 0 <= i < t.len() && t[i].0 == q;
            assert(t[i] == s[i]);
        }
    }
    assert forall|q: Seq<char>| #[trigger] id_map(t).contains_key(q) implies id_map(t)[q]
        == id_map(s).insert(r.0, r.1)[q] by {
        let i = choose|i: int| 0 <= i < t.len() && t[i].0 == q;
        lemma_loc_at(t, i);
        if q != r.0 {
            assert(t[i] == s[i]);
            lemma_loc_at(s, i);
        }
    }
    assert(id_map(t) =~= id_map(s).insert(r.0, r.1));
}

/// Taking out record `k` takes out its locator text.
proof fn lemma_loc_remove(s: Seq<(Seq<char>, Id)>, k: int)
    requires
        locs_unique(s),
        0 <= k < s.len(),
    ensures
        locs_unique(s.remove(k)),
        id_map(s.remove(k)) == id_map(s).remove(s[k].0),
{
    let t = s.remove(k);
    assert forall|i: int| 0 <= i < t.len() implies t[i] == s[if i < k { i } else { i + 1 }] by {}
    assert(locs_unique(t)) by {
        assert forall|i: int, j: int| 0 <= i < t.len() && 0 <= j < t.len() && t[i].0 == t[j].0 implies i
            == j by {
            assert(t[i] == s[if i < k { i } else { i + 1 }]);
            assert(t[j] == s[if j < k { j } else { j + 1 }]);
        }
        assert forall|i: int, j: int| 0 <= i < t.len() && 0 <= j < t.len() && t[i].1 == t[j].1 implies i
            == j by {
            assert(t[i] == s[if i < k { i } else { i + 1 }]);
            assert(t[j] == s[if j < k { j } else { j + 1 }]);
        }
    }
    assert forall|q: Seq<char>| #[trigger] id_map(t).contains_key(q) == id_map(s).remove(
        s[k].0,
    ).contains_key(q) by {
        if id_map(t).contains_key(q) {
            let i = choose|i: int| 0 <= i < t.len() && t[i].0 == q;
            let o = if i < k { i } else { i + 1 };
            assert(t[i] == s[o]);
        }
        if id_map(s).contains_key(q) && q != s[k].0 {
            let o = choose|o: int| 0 <= o < s.len() && s[o].0 == q;
            assert(o != k);
            let i = if o < k { o } else { o - 1 };
            assert(t[i] == s[o]);
        }
    }
    assert forall|q: Seq<char>| #[trigger] id_map(t).contains_key(q) implies id_map(t)[q]
        == id_map(s).remove(s[k].0)[q] by {
        let i = choose|i: int| 0 <= i < t.len() && t[i].0 == q;
        let o = if i < k { i } else { i + 1 };
        assert(t[i] == s[o]);
        lemma_loc_at(t, i);
        lemma_loc_at(s, o);
    }
    assert(id_map(t) =~= id_map(s).remove(s[k].0));
}

impl Registry {
    /// Unique keys and ids, and every id below the next one to hand out.
    pub closed spec fn wf(&self) -> bool {
        &&& locs_unique(located(self.by_locator@))
        &&& forall|i: int|
            0 <= i < self.by_locator@.len() ==> self.by_mem@.contains_key(
                (#[trigger] self.by_locator@[i]).1.0,
            ) && self.by_mem@[self.by_locator@[i].1.0].locator@ == self.by_locator@[i].0@
        &&& forall|k: u64|
            #[trigger] self.by_mem@.contains_key(k) ==> k < self.next_mem_id && exists|i: int|
                0 <= i < self.by_locator@.len() && self.by_locator@[i].1.0 == k
        &&& keys_unique(keyed(self.bases@))
        &&& keys_unique(keyed(self.defaults@))
    }

    /// An empty registry.
    pub fn new() -> (r: Self)
        ensures
            r.wf(),
            r@.next_mem_id == 0,
            r@.next_segment_id == 0,
            r@.ids == Map::<Seq<char>, Id>::empty(),
            r@.entries == Map::<Id, EntryView>::empty(),
            r@.bases == Map::<Seq<char>, SegmentId>::empty(),
            r@.defaults == Map::<Seq<char>, SegmentId>::empty(),
    {
        let r = Registry {
            next_mem_id: 0,
            next_segment_id: 0,
            by_locator: Vec::new(),
            by_mem: HashMap::new(),
            bases: Vec::new(),
            defaults: Vec::new(),
        };
        assert(r@.ids =~= Map::<Seq<char>, Id>::empty());
        assert(r@.entries =~= Map::<Id, EntryView>::empty());
        assert(r@.bases =~= Map::<Seq<char>, SegmentId>::empty());
        assert(r@.defaults =~= Map::<Seq<char>, SegmentId>::empty());
        r
    }

    /// Every registered id is below the next one, so the next one is fresh.
    pub proof fn lemma_next_id_fresh(&self)
        requires
            self.wf(),
        ensures
            forall|id: Id| #[trigger] self@.entries.contains_key(id) ==> id.0 < self@.next_mem_id,
            !self@.entries.contains_key(Id(self@.next_mem_id)),
    {
        assert forall|id: Id| #[trigger] self@.entries.contains_key(id) implies id.0
            < self@.next_mem_id by {
            assert(self.by_mem@.contains_key(id.0));
        }
    }

    /// Whether another segment id can be handed out.
    pub fn can_alloc_segment(&self) -> (r: bool)
        ensures
            r == (self@.next_segment_id < u64::MAX),
    {
        self.next_segment_id < u64::MAX
    }

    /// Whether another registration id can be handed out.
    pub fn can_record(&self) -> (r: bool)
        ensures
            r == (self@.next_mem_id < u64::MAX),
    {
        self.next_mem_id < u64::MAX
    }

    /// Hand out the next segment id.
    pub fn alloc_segment_id(&mut self) -> (r: SegmentId)
        requires
            old(self).wf(),
            old(self)@.next_segment_id < u64::MAX,
        ensures
            final(self).wf(),
            r == SegmentId(old(self)@.next_segment_id),
            final(self)@ == (RegistryView {
                next_segment_id: (old(self)@.next_segment_id + 1) as u64,
                ..old(self)@
            }),
    {
        let id = SegmentId(self.next_segment_id);
        self.next_segment_id = self.next_segment_id + 1;
        id
    }

    /// Index of the keyed record with key `key`.
    fn find_key(list: &Vec<SegmentKey>, key: &str) -> (r: Option<usize>)
        requires
            keys_unique(keyed(list@)),
        ensures
            r is Some <==> key_map(keyed(list@)).contains_key(key@),
            r matches Some(i) ==> i < list@.len() && list@[i as int].key@ == key@
                && key_map(keyed(list@))[key@] == list@[i as int].segment_id,
    {
        let n = list.len();
        let mut i: usize = 0;
        while i < n
            invariant
                n == list@.len(),
                i <= n,
                keys_unique(keyed(list@)),
                forall|j: int| 0 <= j < i ==> list@[j].key@ != key@,
            decreases n - i,
        {
            if str_is(list[i].key.as_str(), key) {
                proof {
                    assert(keyed(list@)[i as int].0 == key@);
                    lemma_key_at(keyed(list@), i as int);
                }
                return Some(i);
            }
            i = i + 1;
        }
        proof {
            if key_map(keyed(list@)).contains_key(key@) {
                let j = choose|j: int| 0 <= j < keyed(list@).len() && keyed(list@)[j].0 == key@;
                assert(list@[j].key@ == keyed(list@)[j].0);
            }
        }
        None
    }

    /// Add the keyed record (`key`, `id`) when `key` is new.
    fn insert_key(list: &mut Vec<SegmentKey>, key: &str, id: SegmentId)
        requires
            keys_unique(keyed(old(list)@)),
            !key_map(keyed(old(list)@)).contains_key(key@),
        ensures
            keys_unique(keyed(final(list)@)),
            key_map(keyed(final(list)@)) == key_map(keyed(old(list)@)).insert(key@, id),
    {
        let ghost s = keyed(list@);
        list.push(SegmentKey { key: key.to_owned(), segment_id: id });
        proof {
            assert(keyed(list@) =~= s.push((key@, id)));
            lemma_key_push(s, key@, id);
        }
    }

    /// Record `id` as the default segment of the kind whose default locator is `key`, unless
    /// that kind already has one.
    pub fn note_default_segment(&mut self, key: &str, id: SegmentId)
        requires
            old(self).wf(),
        ensures
            final(self).wf(),
            final(self)@ == (RegistryView {
                defaults: if old(self)@.defaults.contains_key(key@) {
                    old(self)@.defaults
                } else {
                    old(self)@.defaults.insert(key@, id)
                },
                ..old(self)@
            }),
    {
        if Self::find_key(&self.defaults, key).is_none() {
            Self::insert_key(&mut self.defaults, key, id);
        }
    }

    /// The default segment of the kind whose default locator is `key`, if it has one.
    pub fn default_segment(&self, key: &str) -> (r: Option<SegmentId>)
        requires
            self.wf(),
        ensures
            r is Some <==> self@.defaults.contains_key(key@),
            r matches Some(id) ==> self@.defaults[key@] == id,
    {
        match Self::find_key(&self.defaults, key) {
            Some(i) => Some(self.defaults[i].segment_id),
            None => None,
        }
    }

    /// Where a registration on the default segment of `scheme` goes, in process `pid`: the
    /// kind's existing default segment, a new segment of that kind, or a refusal.
    pub fn default_segment_for(&self, scheme: &str, pid: u32) -> (r: Result<
        DefaultSegment,
        ManagerError,
    >)
        requires
            self.wf(),
        ensures
            match Kind::spec_from_scheme(scheme@) {
                None => r matches Err(ManagerError::UnsupportedScheme(s)) && s@ == scheme@,
                Some(kind) => if self@.defaults.contains_key(spec_default_url(kind, pid)) {
                    r == Ok::<DefaultSegment, ManagerError>(
                        DefaultSegment::Existing(self@.defaults[spec_default_url(kind, pid)]),
                    )
                } else {
                    r == Ok::<DefaultSegment, ManagerError>(DefaultSegment::Create(kind))
                },
            },
    {
        let kind = match Kind::from_scheme(scheme) {
            Some(k) => k,
            None => {
                return Err(ManagerError::UnsupportedScheme(scheme.to_owned()));
            },
        };
        let key = Locator::default_for_kind(kind, pid);
        match self.default_segment(key.as_str()) {
            Some(id) => Ok(DefaultSegment::Existing(id)),
            None => Ok(DefaultSegment::Create(kind)),
        }
    }

    /// A segment named by `base_key` may be opened only once.
    pub fn check_new_base(&self, base_key: &str) -> (r: Result<(), ManagerError>)
        requires
            self.wf(),
        ensures
            r is Ok <==> !self@.bases.contains_key(base_key@),
            r matches Err(e) ==> e matches ManagerError::DuplicateSegment(k) && k@ == base_key@,
    {
        match Self::find_key(&self.bases, base_key) {
            Some(_) => Err(ManagerError::DuplicateSegment(base_key.to_owned())),
            None => Ok(()),
        }
    }

    /// Record that the segment `id` is named by the new base key `base_key`.
    pub fn insert_base(&mut self, base_key: &str, id: SegmentId)
        requires
            old(self).wf(),
            !old(self)@.bases.contains_key(base_key@),
        ensures
            final(self).wf(),
            final(self)@ == (RegistryView { bases: old(self)@.bases.insert(base_key@, id), ..old(self)@ }),
    {
        Self::insert_key(&mut self.bases, base_key, id);
        assert(self.by_mem@ == old(self).by_mem@ && self.by_locator@ == old(self).by_locator@);
    }

    /// The segment whose base key is the segment base key of `locator`.
    pub fn segment_id_for_base(&self, locator: &str) -> (r: Result<SegmentId, ManagerError>)
        requires
            self.wf(),
        ensures
            self@.bases.contains_key(spec_segment_base_key(locator@)) ==> r == Ok::<
                SegmentId,
                ManagerError,
            >(self@.bases[spec_segment_base_key(locator@)]),
            !self@.bases.contains_key(spec_segment_base_key(locator@)) ==> (r matches Err(
                ManagerError::UnknownSegmentBase(k),
            ) && k@ == spec_segment_base_key(locator@)),
    {
        let key = Locator::segment_base_key(locator);
        match Self::find_key(&self.bases, key.as_str()) {
            Some(i) => Ok(self.bases[i].segment_id),
            None => Err(ManagerError::UnknownSegmentBase(key)),
        }
    }

    /// The registered slab under id `k`, by the locator record that names it.
    proof fn lemma_entry_at(&self, i: int)
        requires
            self.wf(),
            0 <= i < self.by_locator@.len(),
        ensures
            self@.ids.contains_key(self.by_locator@[i].0@),
            self@.ids[self.by_locator@[i].0@] == self.by_locator@[i].1,
            self@.entries.contains_key(self.by_locator@[i].1),
            self@.entries[self.by_locator@[i].1].0 == self.by_locator@[i].0@,
            self@.entries[self.by_locator@[i].1] == (
                self.by_mem@[self.by_locator@[i].1.0].locator@,
                self.by_mem@[self.by_locator@[i].1.0].segment_id,
            ),
    {
        let s = located(self.by_locator@);
        assert(s[i] == (self.by_locator@[i].0@, self.by_locator@[i].1));
        lemma_loc_at(s, i);
        assert(self.by_mem@.contains_key(self.by_locator@[i].1.0));
    }

    /// Index of the registration of locator text `key`.
    fn find_locator(&self, key: &str) -> (r: Option<usize>)
        requires
            self.wf(),
        ensures
            r is Some <==> self@.ids.contains_key(key@),
            r matches Some(i) ==> i < self.by_locator@.len() && self.by_locator@[i as int].0@
                == key@ && self@.ids[key@] == self.by_locator@[i as int].1
                && self@.entries.contains_key(self.by_locator@[i as int].1)
                && self@.entries[self.by_locator@[i as int].1].0 == key@,
    {
        let n = self.by_locator.len();
        let mut i: usize = 0;
        while i < n
            invariant
                n == self.by_locator@.len(),
                i <= n,
                self.wf(),
                forall|j: int| 0 <= j < i ==> self.by_locator@[j].0@ != key@,
            decreases n - i,
        {
            if str_is(self.by_locator[i].0.as_str(), key) {
                proof {
                    self.lemma_entry_at(i as int);
                }
                return Some(i);
            }
            i = i + 1;
        }
        proof {
            let s = located(self.by_locator@);
            if self@.ids.contains_key(key@) {
                let j = choose|j: int| 0 <= j < s.len() && s[j].0 == key@;
                assert(s[j].0 == self.by_locator@[j].0@);
            }
        }
        None
    }

    /// A locator may be registered only once.
    pub fn check_new_locator(&self, url: &Url) -> (r: Result<(), ManagerError>)
        requires
            self.wf(),
        ensures
            r is Ok <==> !self@.ids.contains_key(url@),
            r matches Err(e) ==> e matches ManagerError::DuplicateLocator(k) && k@ == url@,
    {
        match self.find_locator(url.as_str()) {
            Some(_) => Err(ManagerError::DuplicateLocator(url.as_str().to_owned())),
            None => Ok(()),
        }
    }

    /// Record the slab at `url`, opened as slab `slab_index` of segment `segment_id`, under a
    /// new id.
    pub fn record(&mut self, url: &Url, segment_id: SegmentId, slab_index: usize) -> (r:
        Registered)
        requires
            old(self).wf(),
            !old(self)@.ids.contains_key(url@),
            old(self)@.next_mem_id < u64::MAX,
        ensures
            final(self).wf(),
            r.id == Id(old(self)@.next_mem_id),
            r.locator@ == url@,
            r.segment_id == segment_id,
            r.slab_index == slab_index,
            !old(self)@.entries.contains_key(r.id),
            final(self)@ == (RegistryView {
                next_mem_id: (old(self)@.next_mem_id + 1) as u64,
                ids: old(self)@.ids.insert(url@, r.id),
                entries: old(self)@.entries.insert(r.id, (url@, segment_id)),
                ..old(self)@
            }),
    {
        proof {
            self.lemma_next_id_fresh();
        }
        let id = Id(self.next_mem_id);
        self.next_mem_id = self.next_mem_id + 1;
        let ghost s = located(self.by_locator@);
        let key = url.as_str().to_owned();
        assert(key@ == url@);
        self.by_locator.push((key, id));
        let entry = MemEntry { locator: Locator::from(url.clone()), segment_id };
        assert(entry.locator@ == url@);
        self.by_mem.insert(id.0, entry);
        proof {
            assert(located(self.by_locator@) =~= s.push((url@, id)));
            assert forall|i: int| 0 <= i < s.len() implies (#[trigger] s[i]).1 != id by {
                assert(s[i].1 == old(self).by_locator@[i].1);
                assert(old(self).by_mem@.contains_key(old(self).by_locator@[i].1.0));
            }
            lemma_loc_push(s, (url@, id));
            assert(entry_view(self.by_mem@) =~= entry_view(old(self).by_mem@).insert(
                id,
                (url@, segment_id),
            ));
            assert forall|i: int| 0 <= i < self.by_locator@.len() implies self.by_mem@.contains_key(
                (#[trigger] self.by_locator@[i]).1.0,
            ) && self.by_mem@[self.by_locator@[i].1.0].locator@ == self.by_locator@[i].0@ by {
                if i < s.len() {
                    assert(self.by_locator@[i] == old(self).by_locator@[i]);
                    assert(old(self).by_mem@.contains_key(old(self).by_locator@[i].1.0));
                    assert(old(self).by_locator@[i].1 != id);
                }
            }
            assert forall|k: u64| #[trigger] self.by_mem@.contains_key(k) implies k < self.next_mem_id
                && exists|i: int| 0 <= i < self.by_locator@.len() && self.by_locator@[i].1.0 == k by {
                if k == id.0 {
                    assert(self.by_locator@[s.len() as int].1.0 == k);
                } else {
                    assert(old(self).by_mem@.contains_key(k));
                    let i = choose|i: int| 0 <= i < old(self).by_locator@.len() && old(self).by_locator@[i].1.0 == k;
                    assert(self.by_locator@[i] == old(self).by_locator@[i]);
                }
            }
        }
        Registered { id, locator: Locator::from(url.clone()), segment_id, slab_index }
    }

    /// The id registered for locator text `key`.
    pub fn id(&self, key: &str) -> (r: Result<Id, ManagerError>)
        requires
            self.wf(),
        ensures
            self@.ids.contains_key(key@) ==> r == Ok::<Id, ManagerError>(self@.ids[key@]),
            !self@.ids.contains_key(key@) ==> (r matches Err(ManagerError::UnknownLocator(k))
                && k@ == key@),
    {
        match self.find_locator(key) {
            Some(i) => Ok(self.by_locator[i].1),
            None => Err(ManagerError::UnknownLocator(key.to_owned())),
        }
    }

    /// The id registered for locator text `key`, if any.
    pub fn try_id(&self, key: &str) -> (r: Option<Id>)
        requires
            self.wf(),
        ensures
            r is Some <==> self@.ids.contains_key(key@),
            r matches Some(id) ==> self@.ids[key@] == id,
    {
        match self.find_locator(key) {
            Some(i) => Some(self.by_locator[i].1),
            None => None,
        }
    }

    pub fn contains_locator(&self, key: &str) -> (r: bool)
        requires
            self.wf(),
        ensures
            r == self@.ids.contains_key(key@),
    {
        self.find_locator(key).is_some()
    }

    /// The registered slab with id `id`.
    pub fn mem_entry(&self, id: Id) -> (r: Result<&MemEntry, ManagerError>)
        requires
            self.wf(),
        ensures
            self@.entries.contains_key(id) ==> (r matches Ok(e) && (e.locator@, e.segment_id)
                == self@.entries[id]),
            !self@.entries.contains_key(id) ==> (r matches Err(ManagerError::UnknownId(x)) && x
                == id),
    {
        match self.by_mem.get(&id.0) {
            Some(e) => Ok(e),
            None => Err(ManagerError::UnknownId(id)),
        }
    }

    /// The locator registered under `id`.
    pub fn locator(&self, id: Id) -> (r: Result<&Locator, ManagerError>)
        requires
            self.wf(),
        ensures
            self@.entries.contains_key(id) ==> (r matches Ok(l) && l@ == self@.entries[id].0),
            !self@.entries.contains_key(id) ==> (r matches Err(ManagerError::UnknownId(x)) && x
                == id),
    {
        match self.mem_entry(id) {
            Ok(e) => Ok(&e.locator),
            Err(e) => Err(e),
        }
    }

    /// The segment of the slab registered under `id`.
    pub fn segment_id_for(&self, id: Id) -> (r: Result<SegmentId, ManagerError>)
        requires
            self.wf(),
        ensures
            self@.entries.contains_key(id) ==> r == Ok::<SegmentId, ManagerError>(
                self@.entries[id].1,
            ),
            !self@.entries.contains_key(id) ==> (r matches Err(ManagerError::UnknownId(x)) && x
                == id),
    {
        match self.mem_entry(id) {
            Ok(e) => Ok(e.segment_id),
            Err(e) => Err(e),
        }
    }

    /// Every registration: id, locator and segment, in registration order.
    #[verifier::spinoff_prover]
    pub fn entries(&self) -> (r: Vec<(Id, Locator, SegmentId)>)
        requires
            self.wf(),
        ensures
            forall|i: int| 0 <= i < r@.len() ==> #[trigger] self@.entries.contains_key(r@[i].0)
                && self@.entries[r@[i].0] == (r@[i].1@, r@[i].2),
            forall|id: Id| #[trigger] self@.entries.contains_key(id) ==> exists|i: int|
                0 <= i < r@.len() && r@[i].0 == id,
            forall|i: int, j: int|
                0 <= i < r@.len() && 0 <= j < r@.len() && #[trigger] r@[i].0 == #[trigger] r@[j].0
                    ==> i == j,
            r@.len() == self@.entries.dom().len(),
    {
        let mut out: Vec<(Id, Locator, SegmentId)> = Vec::new();
        let n = self.by_locator.len();
        let mut i: usize = 0;
        while i < n
            invariant
                n == self.by_locator@.len(),
                i <= n,
                self.wf(),
                out@.len() == i,
                forall|j: int| 0 <= j < i ==> (#[trigger] out@[j]).0 == self.by_locator@[j].1
                    && self@.entries[out@[j].0] == (out@[j].1@, out@[j].2),
            decreases n - i,
        {
            let id = self.by_locator[i].1;
            proof {
                self.lemma_entry_at(i as int);
            }
            match self.by_mem.get(&id.0) {
                Some(e) => {
                    out.push((id, e.locator.clone(), e.segment_id));
                },
                None => {
                    proof {
                        assert(false);
                    }
                },
            }
            i = i + 1;
        }
        proof {
            let s = located(self.by_locator@);
            assert forall|i: int| 0 <= i < out@.len() implies #[trigger] self@.entries.contains_key(
                out@[i].0,
            ) && self@.entries[out@[i].0] == (out@[i].1@, out@[i].2) by {
                self.lemma_entry_at(i);
            }
            assert forall|id: Id| #[trigger] self@.entries.contains_key(id) implies exists|i: int|
                0 <= i < out@.len() && out@[i].0 == id by {
                assert(self.by_mem@.contains_key(id.0));
                let j = choose|j: int| 0 <= j < self.by_locator@.len() && self.by_locator@[j].1.0 == id.0;
                assert(out@[j].0 == id);
            }
            assert forall|i: int, j: int|
                0 <= i < out@.len() && 0 <= j < out@.len() && #[trigger] out@[i].0
                    == #[trigger] out@[j].0 implies i == j by {
                assert(s[i].1 == out@[i].0 && s[j].1 == out@[j].0);
            }
            assert(out@.len() == self@.entries.dom().len()) by {
                let ids = out@.map_values(|e: (Id, Locator, SegmentId)| e.0);
                assert(ids.no_duplicates()) by {
                    assert forall|i: int, j: int|
                        0 <= i < ids.len() && 0 <= j < ids.len() && i != j implies ids[i] != ids[j] by {
                        assert(ids[i] == out@[i].0 && ids[j] == out@[j].0);
                        assert(s[i].1 == out@[i].0 && s[j].1 == out@[j].0);
                    }
                }
                ids.unique_seq_to_set();
                assert forall|id: Id| #[trigger] ids.to_set().contains(id) == self@.entries.dom().contains(id) by {
                    if ids.to_set().contains(id) {
                        let i = choose|i: int| 0 <= i < ids.len() && ids[i] == id;
                        assert(out@[i].0 == id);
                    }
                    if self@.entries.dom().contains(id) {
                        assert(self.by_mem@.contains_key(id.0));
                        let j = choose|j: int| 0 <= j < self.by_locator@.len() && self.by_locator@[j].1.0 == id.0;
                        assert(ids[j] == id);
                        assert(ids.contains(id));
                    }
                }
                assert(ids.to_set() =~= self@.entries.dom());
            }
        }
        out
    }

    /// Forget the registration under `id` (its slab was closed or unlinked).
    pub fn remove(&mut self, id: Id) -> (r: Result<(), ManagerError>)
        requires
            old(self).wf(),
        ensures
            final(self).wf(),
            old(self)@.entries.contains_key(id) ==> r is Ok && final(self)@ == (RegistryView {
                ids: old(self)@.ids.remove(old(self)@.entries[id].0),
                entries: old(self)@.entries.remove(id),
                ..old(self)@
            }),
            !old(self)@.entries.contains_key(id) ==> (r matches Err(ManagerError::UnknownId(x)) && x
                == id && final(self)@ == old(self)@),
    {
        let key = match self.by_mem.get(&id.0) {
            Some(e) => e.locator.as_str().to_owned(),
            None => {
                return Err(ManagerError::UnknownId(id));
            },
        };
        proof {
            let j = choose|j: int| 0 <= j < self.by_locator@.len() && self.by_locator@[j].1.0 == id.0;
            self.lemma_entry_at(j);
            assert(self.by_locator@[j].1 == id);
        }
        let i = match self.find_locator(key.as_str()) {
            Some(i) => i,
            None => {
                proof {
                    assert(false);
                }
                return Err(ManagerError::UnknownId(id));
            },
        };
        proof {
            let j = choose|j: int| 0 <= j < self.by_locator@.len() && self.by_locator@[j].1.0 == id.0;
            self.lemma_entry_at(j);
            self.lemma_entry_at(i as int);
            assert(located(self.by_locator@)[i as int].1 == self.by_locator@[i as int].1);
            assert(located(self.by_locator@)[j].1 == self.by_locator@[j].1);
            assert(self.by_locator@[i as int].0@ == self.by_locator@[j].0@);
            assert(located(self.by_locator@)[i as int].0 == located(self.by_locator@)[j].0);
            assert(i == j);
        }
        let ghost s = located(self.by_locator@);
        let _ = self.by_locator.remove(i);
        let _ = self.by_mem.remove(&id.0);
        proof {
            assert(located(self.by_locator@) =~= s.remove(i as int));
            lemma_loc_remove(s, i as int);
            assert(entry_view(self.by_mem@) =~= entry_view(old(self).by_mem@).remove(id));
            assert forall|j: int| 0 <= j < self.by_locator@.len() implies self.by_mem@.contains_key(
                (#[trigger] self.by_locator@[j]).1.0,
            ) && self.by_mem@[self.by_locator@[j].1.0].locator@ == self.by_locator@[j].0@ by {
                let o = if j < i { j } else { j + 1 };
                assert(self.by_locator@[j] == old(self).by_locator@[o]);
                assert(s[o].1 == old(self).by_locator@[o].1 && s[i as int].1 == id);
                assert(o != i);
                assert(old(self).by_locator@[o].1 != id);
            }
            assert forall|k: u64| #[trigger] self.by_mem@.contains_key(k) implies k < self.next_mem_id
                && exists|j: int| 0 <= j < self.by_locator@.len() && self.by_locator@[j].1.0 == k by {
                assert(old(self).by_mem@.contains_key(k) && k != id.0);
                let o = choose|o: int| 0 <= o < old(self).by_locator@.len() && old(self).by_locator@[o].1.0 == k;
                assert(o != i);
                let j = if o < i { o } else { o - 1 };
                assert(self.by_locator@[j] == old(self).by_locator@[o]);
            }
        }
        Ok(())
    }

    /// Forget every registration (all slabs were closed or unlinked).
    pub fn clear(&mut self)
        requires
            old(self).wf(),
        ensures
            final(self).wf(),
            final(self)@ == (RegistryView {
                ids: Map::empty(),
                entries: Map::empty(),
                ..old(self)@
            }),
    {
        self.by_locator.clear();
        self.by_mem.clear();
        assert(self@.ids =~= Map::<Seq<char>, Id>::empty());
        assert(self@.entries =~= Map::<Id, EntryView>::empty());
    }
}

/// A slab registered under a locator is found again by that locator and by its id, and a
/// second registration of the same locator is refused.
pub proof fn lemma_register_then_lookup(
    before: RegistryView,
    after: RegistryView,
    url: Seq<char>,
    segment_id: SegmentId,
    id: Id,
)
    requires
        after.ids == before.ids.insert(url, id),
        after.entries == before.entries.insert(id, (url, segment_id)),
    ensures
        after.ids.contains_key(url) && after.ids[url] == id,
        after.entries.contains_key(id) && after.entries[id] == (url, segment_id),
        forall|k: Seq<char>| k != url ==> #[trigger] after.ids.contains_key(k)
            == before.ids.contains_key(k),
{
}

/// After a registration is removed, neither its locator nor its id is found.
pub proof fn lemma_remove_then_lookup(before: RegistryView, after: RegistryView, id: Id)
    requires
        before.entries.contains_key(id),
        after.ids == before.ids.remove(before.entries[id].0),
        after.entries == before.entries.remove(id),
    ensures
        !after.ids.contains_key(before.entries[id].0),
        !after.entries.contains_key(id),
{
}

} // verus!
