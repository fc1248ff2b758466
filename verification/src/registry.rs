//! Zone registry: the last known rectangle and content of every layout zone, and
//! the set of zones that changed since the last render.
use vstd::hash_map::StringHashMap;
use vstd::prelude::*;

use crate::error::LayoutError;
use crate::geometry::Rect;

verus! {

/// Identifier of a layout zone.
pub type ZoneId = String;

/// Content shown in a zone.
pub type ZoneContent = String;

/// The BLAKE3 digest of the UTF-8 bytes of a text.
pub uninterp spec fn blake3_digest(text: Seq<char>) -> Seq<u8>;

/// BLAKE3 digest of the UTF-8 bytes of `content`: a call of `blake3::hash`. The
/// digest is named, not stated: it is a function of the content alone.
#[verifier::external_body]
fn content_digest(content: &String) -> (r: [u8; 32])
    ensures
        r@ == blake3_digest(content@),
{
    *blake3::hash(content.as_bytes()).as_bytes()
}

/// Digest of the content last applied to a zone, if any.
#[derive(Debug, Clone, Copy)]
pub struct ContentDigest {
    hash: Option<[u8; 32]>,
}

impl ContentDigest {
    /// The digest bytes, `None` before any content.
    pub closed spec fn view(self) -> Option<Seq<u8>> {
        match self.hash {
            Some(d) => Some(d@),
            None => None,
        }
    }
}

/// Last known state of one zone.
#[derive(Debug)]
pub struct ZoneState {
    pub rect: Rect,
    pub content: ZoneContent,
    pub hash: ContentDigest,
    pub is_dirty: bool,
    pub is_pre_rendered: bool,
}

impl Clone for ZoneState {
    fn clone(&self) -> (r: Self)
        ensures
            r == *self,
    {
        ZoneState {
            rect: self.rect,
            content: self.content.clone(),
            hash: self.hash,
            is_dirty: self.is_dirty,
            is_pre_rendered: self.is_pre_rendered,
        }
    }
}

impl ZoneState {
    /// Digest of the content last applied, `None` before any content.
    pub open spec fn digest(&self) -> Option<Seq<u8>> {
        self.hash.view()
    }

    /// A recorded digest is the digest of the zone's content.
    pub open spec fn digest_matches(self) -> bool {
        self.digest() is Some ==> self.digest() == Some(blake3_digest(self.content@))
    }

    /// A zone that has just appeared: empty content, no digest, dirty.
    pub open spec fn fresh(self, rect: Rect) -> bool {
        &&& self.rect == rect
        &&& self.content@ == Seq::<char>::empty()
        &&& self.digest() is None
        &&& self.is_dirty
        &&& !self.is_pre_rendered
    }

    /// `self` after applying `content` to `before`: unchanged when the digest of the
    /// content equals the recorded one, else the content and digest replaced and the
    /// zone dirty. Either way the pre-rendered flag becomes `pre_rendered`.
    pub open spec fn applied(self, before: ZoneState, content: Seq<char>, pre_rendered: bool) -> bool {
        &&& self.rect == before.rect
        &&& self.is_pre_rendered == pre_rendered
        &&& if before.digest() == Some(blake3_digest(content)) {
            &&& self.content == before.content
            &&& self.digest() == before.digest()
            &&& self.is_dirty == before.is_dirty
        } else {
            &&& self.content@ == content
            &&& self.digest() == Some(blake3_digest(content))
            &&& self.is_dirty
        }
    }

    fn new(rect: Rect) -> (r: Self)
        ensures
            r.fresh(rect),
    {
        ZoneState {
            rect,
            content: String::new(),
            hash: ContentDigest { hash: None },
            is_dirty: true,
            is_pre_rendered: false,
        }
    }

    fn update_content(&mut self, content: ZoneContent, pre_rendered: bool)
        ensures
            final(self).applied(*old(self), content@, pre_rendered),
    {
        let new_hash = content_digest(&content);
        let same = match self.hash.hash {
            Some(h) => digests_equal(&h, &new_hash),
            None => false,
        };
        if !same {
            self.content = content;
            self.hash = ContentDigest { hash: Some(new_hash) };
            self.is_dirty = true;
        }
        self.is_pre_rendered = pre_rendered;
    }
}

fn digests_equal(a: &[u8; 32], b: &[u8; 32]) -> (r: bool)
    ensures
        r == (a@ == b@),
{
    let mut i: usize = 0;
    while i < 32
        invariant
            i <= 32,
            a@.len() == 32,
            b@.len() == 32,
            forall|j: int| 0 <= j < i ==> a@[j] == b@[j],
        decreases 32 - i,
    {
        if a[i] != b[i] {
            return false;
        }
        i += 1;
    }
    assert(a@ =~= b@);
    true
}

/// String ids read as plain sequences.
/// A zone's state as plain values.
pub struct ZoneView {
    pub rect: Rect,
    pub content: Seq<char>,
    pub digest: Option<Seq<u8>>,
    pub is_dirty: bool,
    pub is_pre_rendered: bool,
}

impl ZoneState {
    /// The state as plain values.
    pub open spec fn view_of(self) -> ZoneView {
        ZoneView {
            rect: self.rect,
            content: self.content@,
            digest: self.digest(),
            is_dirty: self.is_dirty,
            is_pre_rendered: self.is_pre_rendered,
        }
    }
}

/// A zone after `content` is applied to it: unchanged but for the pre-rendered flag
/// when the content's digest equals the recorded one, else the content and digest
/// replaced and the zone dirty.
pub open spec fn apply_view(before: ZoneView, content: Seq<char>, pre_rendered: bool) -> ZoneView {
    if before.digest == Some(blake3_digest(content)) {
        ZoneView { is_pre_rendered: pre_rendered, ..before }
    } else {
        ZoneView {
            rect: before.rect,
            content,
            digest: Some(blake3_digest(content)),
            is_dirty: true,
            is_pre_rendered: pre_rendered,
        }
    }
}

/// Every zone's state as plain values.
pub open spec fn zone_views(zones: Map<Seq<char>, ZoneState>) -> Map<Seq<char>, ZoneView> {
    zones.map_values(|s: ZoneState| s.view_of())
}

/// `ZoneState::applied` read on plain values is `apply_view`.
pub proof fn lemma_applied_view(s: ZoneState, before: ZoneState, content: Seq<char>, pre_rendered: bool)
    requires
        s.applied(before, content, pre_rendered),
    ensures
        s.view_of() == apply_view(before.view_of(), content, pre_rendered),
{
}

/// Applying the same content twice changes nothing the second time.
pub proof fn lemma_reapply_is_noop(v: ZoneView, content: Seq<char>, pre_rendered: bool)
    ensures
        apply_view(apply_view(v, content, pre_rendered), content, pre_rendered) == apply_view(
            v,
            content,
            pre_rendered,
        ),
{
}

/// A zone whose content was drawn (marked clean) stays clean when the same content is
/// applied again.
pub proof fn lemma_same_content_stays_clean(v: ZoneView, content: Seq<char>, pre_rendered: bool)
    requires
        v.digest == Some(blake3_digest(content)),
        !v.is_dirty,
    ensures
        !apply_view(v, content, pre_rendered).is_dirty,
        apply_view(v, content, pre_rendered).content == v.content,
{
}

pub open spec fn id_views(v: Seq<String>) -> Seq<Seq<char>> {
    v.map_values(|s: String| s@)
}

/// The ids of solved rectangles.
pub open spec fn solved_ids(solved: Seq<(String, Rect)>) -> Seq<Seq<char>> {
    solved.map_values(|p: (String, Rect)| p.0@)
}

/// State of zone `id` after a layout sync that gives it `rect`: kept when the
/// rectangle is unchanged, moved and marked dirty when it changed, fresh when new.
pub open spec fn synced(old_zones: Map<Seq<char>, ZoneState>, id: Seq<char>, rect: Rect, s: ZoneState) -> bool {
    if old_zones.contains_key(id) {
        let before = old_zones[id];
        if before.rect == rect {
            s == before
        } else {
            s == ZoneState { rect, is_dirty: true, ..before }
        }
    } else {
        s.fresh(rect)
    }
}

/// Syncing a zone to the rectangle it already has leaves its state (content, digest
/// and dirty flag) as it was: a layout that did not change marks nothing dirty.
pub proof fn lemma_sync_same_rect_keeps_state(
    zones: Map<Seq<char>, ZoneState>,
    id: Seq<char>,
    rect: Rect,
    s: ZoneState,
)
    requires
        zones.contains_key(id),
        zones[id].rect == rect,
        synced(zones, id, rect, s),
    ensures
        s == zones[id],
{
}

/// A zone synced to a new rectangle is dirty, whatever it was before.
pub proof fn lemma_sync_new_rect_marks_dirty(
    zones: Map<Seq<char>, ZoneState>,
    id: Seq<char>,
    rect: Rect,
    s: ZoneState,
)
    requires
        !zones.contains_key(id) || zones[id].rect != rect,
        synced(zones, id, rect, s),
    ensures
        s.is_dirty,
        s.rect == rect,
{
}

/// Registry mapping layout zones to their last known states.
pub struct ZoneRegistry {
    entries: StringHashMap<ZoneState>,
    order: Vec<String>,
    dirty: Vec<String>,
}

impl ZoneRegistry {
    /// Known zones and their states.
    pub closed spec fn zones(&self) -> Map<Seq<char>, ZoneState> {
        self.entries@
    }

    /// Dirty zones, in the order they became dirty.
    pub closed spec fn dirty_ids(&self) -> Seq<Seq<char>> {
        id_views(self.dirty@)
    }

    /// The id of the `i`-th dirty zone.
    pub closed spec fn dirty_name(&self, i: int) -> String {
        self.dirty@[i]
    }

    closed spec fn known_ids(&self) -> Seq<Seq<char>> {
        id_views(self.order@)
    }

    /// Registry invariant: the dirty list holds each dirty zone exactly once, a zone is
    /// listed as dirty exactly when its state says so, and every recorded digest is
    /// the digest of its zone's content.
    pub closed spec fn wf(&self) -> bool {
        &&& self.known_ids().no_duplicates()
        &&& forall|k: Seq<char>| self.zones().contains_key(k) <==> self.known_ids().contains(k)
        &&& self.dirty_ids().no_duplicates()
        &&& forall|k: Seq<char>|
            #[trigger] self.dirty_ids().contains(k) <==> (self.zones().contains_key(k)
                && self.zones()[k].is_dirty)
        &&& forall|k: Seq<char>| #[trigger]
            self.zones().contains_key(k) ==> self.zones()[k].digest_matches()
    }

    /// In a well-formed registry the dirty list names each zone whose state is dirty,
    /// exactly once, and no other.
    pub proof fn lemma_dirty_list_matches(&self)
        requires
            self.wf(),
        ensures
            self.dirty_ids().no_duplicates(),
            forall|k: Seq<char>|
                #[trigger] self.dirty_ids().contains(k) <==> (self.zones().contains_key(k)
                    && self.zones()[k].is_dirty),
    {
    }

    /// An empty registry.
    pub fn new() -> (r: Self)
        ensures
            r.wf(),
            r.zones() == Map::<Seq<char>, ZoneState>::empty(),
            r.dirty_ids() == Seq::<Seq<char>>::empty(),
    {
        let r = ZoneRegistry { entries: StringHashMap::new(), order: Vec::new(), dirty: Vec::new() };
        assert(r.known_ids() =~= Seq::<Seq<char>>::empty());
        assert(r.dirty_ids() =~= Seq::<Seq<char>>::empty());
        r
    }

    /// The rectangle of `zone_id`, if known.
    pub fn rect_of(&self, zone_id: &String) -> (r: Option<Rect>)
        ensures
            r == (if self.zones().contains_key(zone_id@) {
                Some(self.zones()[zone_id@].rect)
            } else {
                None::<Rect>
            }),
    {
        match self.entries.get(zone_id.as_str()) {
            Some(state) => Some(state.rect),
            None => None,
        }
    }

    /// Whether any zone changed since the last `take_dirty`.
    pub fn has_dirty(&self) -> (r: bool)
        requires
            self.wf(),
        ensures
            r == (exists|k: Seq<char>| self.zones().contains_key(k) && #[trigger] self.zones()[k].is_dirty),
    {
        if self.dirty.len() > 0 {
            assert(self.dirty_ids().contains(self.dirty_ids()[0]));
            true
        } else {
            assert forall|k: Seq<char>|
                self.zones().contains_key(k) implies !#[trigger] self.zones()[k].is_dirty by {
                if self.zones()[k].is_dirty {
                    assert(self.dirty_ids().contains(k));
                }
            }
            false
        }
    }

    /// Brings the registry in line with freshly solved rectangles: zones missing from
    /// `solved` are dropped, new zones start fresh and dirty, moved zones take their new
    /// rectangle and become dirty, and unmoved zones keep their state.
    #[verifier::rlimit(30)]
    pub fn sync_layout(&mut self, solved: &Vec<(String, Rect)>)
        requires
            old(self).wf(),
            solved_ids(solved@).no_duplicates(),
        ensures
            final(self).wf(),
            forall|k: Seq<char>|
                final(self).zones().contains_key(k) <==> #[trigger] solved_ids(solved@).contains(k),
            forall|i: int|
                0 <= i < solved.len() ==> synced(
                    old(self).zones(),
                    (#[trigger] solved@[i]).0@,
                    solved@[i].1,
                    final(self).zones()[solved@[i].0@],
                ),
    {
        let n = solved.len();
        let ghost sid = solved_ids(solved@);
        let mut entries: StringHashMap<ZoneState> = StringHashMap::new();
        let mut order: Vec<String> = Vec::new();
        let mut dirty: Vec<String> = Vec::new();
        let mut i: usize = 0;
        while i < n
            invariant
                n == solved.len(),
                i <= n,
                *self == *old(self),
                sid == solved_ids(solved@),
                sid.no_duplicates(),
                id_views(order@) == sid.take(i as int),
                forall|k: Seq<char>| entries@.contains_key(k) <==> sid.take(i as int).contains(k),
                forall|j: int|
                    0 <= j < i ==> synced(
                        old(self).zones(),
                        (#[trigger] solved@[j]).0@,
                        solved@[j].1,
                        entries@[solved@[j].0@],
                    ),
                id_views(dirty@).no_duplicates(),
                forall|k: Seq<char>|
                    #[trigger] id_views(dirty@).contains(k) <==> (entries@.contains_key(k)
                        && entries@[k].is_dirty),
            decreases n - i,
        {
            let id = &solved[i].0;
            let rect = solved[i].1;
            let state = match self.entries.get(id.as_str()) {
                Some(before) => {
                    if before.rect == rect {
                        before.clone()
                    } else {
                        let mut moved = before.clone();
                        moved.rect = rect;
                        moved.is_dirty = true;
                        moved
                    }
                },
                None => ZoneState::new(rect),
            };
            let is_dirty = state.is_dirty;
            let ghost prev_entries = entries@;
            let ghost prev_order = id_views(order@);
            let ghost prev_dirty = id_views(dirty@);
            assert(sid[i as int] == id@);
            assert(!sid.take(i as int).contains(id@)) by {
                if sid.take(i as int).contains(id@) {
                    let j = choose|j: int| 0 <= j < i && sid.take(i as int)[j] == id@;
                    assert(sid[j] == sid[i as int]);
                }
            }
            assert(sid.take(i as int + 1) =~= sid.take(i as int).push(id@));
            broadcast use vstd::seq_lib::lemma_seq_contains_after_push;
            entries.insert(id.clone(), state);
            order.push(id.clone());
            assert(id_views(order@) =~= prev_order.push(id@));
            if is_dirty {
                dirty.push(id.clone());
                assert(id_views(dirty@) =~= prev_dirty.push(id@));
                assert(!prev_dirty.contains(id@));
            }
            assert forall|k: Seq<char>|
                #[trigger] id_views(dirty@).contains(k) <==> (entries@.contains_key(k)
                    && entries@[k].is_dirty) by {
                if is_dirty {
                    if id_views(dirty@).contains(k) && k != id@ {
                        let j = choose|j: int|
                            0 <= j < id_views(dirty@).len() && id_views(dirty@)[j] == k;
                        assert(prev_dirty[j] == k);
                    }
                    if k == id@ {
                        assert(id_views(dirty@)[prev_dirty.len() as int] == k);
                    } else if prev_dirty.contains(k) {
                        let j = choose|j: int| 0 <= j < prev_dirty.len() && prev_dirty[j] == k;
                        assert(id_views(dirty@)[j] == k);
                    }
                }
            }
            assert forall|j: int| 0 <= j < i + 1 implies synced(
                old(self).zones(),
                (#[trigger] solved@[j]).0@,
                solved@[j].1,
                entries@[solved@[j].0@],
            ) by {
                if j < i {
                    assert(sid[j] == solved@[j].0@);
                    assert(sid.take(i as int)[j] == sid[j]);
                    assert(solved@[j].0@ != id@);
                }
            }
            i += 1;
        }
        assert(sid.take(n as int) == sid);
        self.entries = entries;
        self.order = order;
        self.dirty = dirty;
    }

    fn apply(&mut self, zone_id: &String, content: ZoneContent, pre_rendered: bool) -> (r: Result<
        (),
        LayoutError,
    >)
        requires
            old(self).wf(),
        ensures
            final(self).wf(),
            !old(self).zones().contains_key(zone_id@) ==> (r matches Err(
                LayoutError::ZoneNotFound(z),
            ) && z@ == zone_id@ && final(self).zones() == old(self).zones() && final(self).dirty_ids()
                == old(self).dirty_ids()),
            old(self).zones().contains_key(zone_id@) ==> (r is Ok && final(self).zones().dom()
                == old(self).zones().dom() && final(self).zones()[zone_id@].applied(
                old(self).zones()[zone_id@],
                content@,
                pre_rendered,
            ) && forall|k: Seq<char>|
                k != zone_id@ && old(self).zones().contains_key(k) ==> #[trigger] final(self).zones()[k] == old(self).zones()[k]),
            old(self).zones().contains_key(zone_id@) && old(self).zones()[zone_id@].digest() is Some
                && old(self).zones()[zone_id@].content@ == content@ ==> ({
                let before = old(self).zones()[zone_id@];
                let after = final(self).zones()[zone_id@];
                &&& after.content == before.content
                &&& after.digest() == before.digest()
                &&& after.is_dirty == before.is_dirty
                &&& after.rect == before.rect
            }),
    {
        let mut state = match self.entries.get(zone_id.as_str()) {
            Some(s) => s.clone(),
            None => {
                return Err(LayoutError::ZoneNotFound(zone_id.clone()));
            },
        };
        state.update_content(content, pre_rendered);
        let is_dirty = state.is_dirty;
        let ghost before = self.zones();
        self.entries.insert(zone_id.clone(), state);
        assert(self.zones().dom() =~= before.dom());
        if is_dirty {
            self.mark_dirty(zone_id);
        } else {
            assert forall|k: Seq<char>|
                #[trigger] self.dirty_ids().contains(k) <==> (self.zones().contains_key(k)
                    && self.zones()[k].is_dirty) by {
                if k == zone_id@ {
                    assert(!before[k].is_dirty);
                }
            }
        }
        Ok(())
    }

    /// Applies `content` to `zone_id`: refused with `ZoneNotFound` for an unknown zone;
    /// otherwise the zone is updated as `ZoneState::applied` says (marked dirty only when
    /// the content digest changed) and listed as dirty when it is.
    pub fn apply_content(&mut self, zone_id: &String, content: ZoneContent) -> (r: Result<
        (),
        LayoutError,
    >)
        requires
            old(self).wf(),
        ensures
            final(self).wf(),
            !old(self).zones().contains_key(zone_id@) ==> (r matches Err(
                LayoutError::ZoneNotFound(z),
            ) && z@ == zone_id@ && final(self).zones() == old(self).zones() && final(self).dirty_ids()
                == old(self).dirty_ids()),
            old(self).zones().contains_key(zone_id@) ==> (r is Ok && final(self).zones().dom()
                == old(self).zones().dom() && final(self).zones()[zone_id@].applied(
                old(self).zones()[zone_id@],
                content@,
                false,
            ) && forall|k: Seq<char>|
                k != zone_id@ && old(self).zones().contains_key(k) ==> #[trigger] final(self).zones()[k] == old(self).zones()[k]),
            old(self).zones().contains_key(zone_id@) && old(self).zones()[zone_id@].digest() is Some
                && old(self).zones()[zone_id@].content@ == content@ ==> ({
                let before = old(self).zones()[zone_id@];
                let after = final(self).zones()[zone_id@];
                &&& after.content == before.content
                &&& after.digest() == before.digest()
                &&& after.is_dirty == before.is_dirty
                &&& after.rect == before.rect
            }),
    {
        self.apply(zone_id, content, false)
    }

    /// Like `apply_content`, for content the renderer shows verbatim (no wrapping).
    pub fn apply_pre_rendered(&mut self, zone_id: &String, content: ZoneContent) -> (r: Result<
        (),
        LayoutError,
    >)
        requires
            old(self).wf(),
        ensures
            final(self).wf(),
            !old(self).zones().contains_key(zone_id@) ==> (r matches Err(
                LayoutError::ZoneNotFound(z),
            ) && z@ == zone_id@ && final(self).zones() == old(self).zones() && final(self).dirty_ids()
                == old(self).dirty_ids()),
            old(self).zones().contains_key(zone_id@) ==> (r is Ok && final(self).zones().dom()
                == old(self).zones().dom() && final(self).zones()[zone_id@].applied(
                old(self).zones()[zone_id@],
                content@,
                true,
            ) && forall|k: Seq<char>|
                k != zone_id@ && old(self).zones().contains_key(k) ==> #[trigger] final(self).zones()[k] == old(self).zones()[k]),
            old(self).zones().contains_key(zone_id@) && old(self).zones()[zone_id@].digest() is Some
                && old(self).zones()[zone_id@].content@ == content@ ==> ({
                let before = old(self).zones()[zone_id@];
                let after = final(self).zones()[zone_id@];
                &&& after.content == before.content
                &&& after.digest() == before.digest()
                &&& after.is_dirty == before.is_dirty
                &&& after.rect == before.rect
            }),
    {
        self.apply(zone_id, content, true)
    }

    /// Hands out every dirty zone (id and state, in the order they became dirty) and
    /// marks all zones clean.
    pub fn take_dirty(&mut self) -> (r: Vec<(String, ZoneState)>)
        requires
            old(self).wf(),
        ensures
            final(self).wf(),
            final(self).dirty_ids() == Seq::<Seq<char>>::empty(),
            final(self).zones().dom() == old(self).zones().dom(),
            forall|k: Seq<char>|
                #[trigger] old(self).zones().contains_key(k) ==> final(self).zones()[k]
                    == (ZoneState { is_dirty: false, ..old(self).zones()[k] }),
            r.len() == old(self).dirty_ids().len(),
            forall|i: int|
                0 <= i < r.len() ==> (#[trigger] r@[i]).0@ == old(self).dirty_ids()[i] && r@[i].1
                    == (ZoneState { is_dirty: false, ..old(self).zones()[old(self).dirty_ids()[i]] }),
            forall|i: int| 0 <= i < r.len() ==> (#[trigger] r@[i]).0 == old(self).dirty_name(i),
            forall|i: int|
                0 <= i < old(self).dirty_ids().len() ==> old(self).zones().contains_key(
                    #[trigger] old(self).dirty_ids()[i],
                ),
    {
        assert forall|i: int|
            0 <= i < old(self).dirty_ids().len() implies old(self).zones().contains_key(
            #[trigger] old(self).dirty_ids()[i],
        ) by {
            assert(old(self).dirty_ids().contains(old(self).dirty_ids()[i]));
        }
        let n = self.dirty.len();
        let ghost ids = self.dirty_ids();
        let ghost z0 = self.zones();
        let mut result: Vec<(String, ZoneState)> = Vec::new();
        let mut i: usize = 0;
        while i < n
            invariant
                n == self.dirty.len(),
                i <= n,
                ids == self.dirty_ids(),
                ids == old(self).dirty_ids(),
                z0 == old(self).zones(),
                old(self).wf(),
                self.known_ids() == old(self).known_ids(),
                self.zones().dom() == z0.dom(),
                forall|k: Seq<char>|
                    #[trigger] z0.contains_key(k) ==> self.zones()[k] == (if ids.take(
                        i as int,
                    ).contains(k) {
                        (ZoneState { is_dirty: false, ..z0[k] })
                    } else {
                        z0[k]
                    }),
                result.len() == i,
                self.dirty == old(self).dirty,
                forall|j: int|
                    0 <= j < i ==> (#[trigger] result@[j]).0@ == ids[j] && result@[j].1
                        == (ZoneState { is_dirty: false, ..z0[ids[j]] }),
                forall|j: int| 0 <= j < i ==> (#[trigger] result@[j]).0 == old(self).dirty@[j],
            decreases n - i,
        {
            let id = self.dirty[i].clone();
            assert(ids[i as int] == id@);
            assert(ids.contains(id@));
            assert(!ids.take(i as int).contains(id@)) by {
                if ids.take(i as int).contains(id@) {
                    let j = choose|j: int| 0 <= j < i && ids.take(i as int)[j] == id@;
                    assert(ids[j] == ids[i as int]);
                }
            }
            assert(ids.take(i as int + 1) =~= ids.take(i as int).push(id@));
            broadcast use vstd::seq_lib::lemma_seq_contains_after_push;
            let mut state = self.entries.get(id.as_str()).unwrap().clone();
            state.is_dirty = false;
            let ghost before = self.zones();
            self.entries.insert(id.clone(), state.clone());
            assert(self.zones().dom() =~= before.dom());
            result.push((id, state));
            i += 1;
        }
        assert(ids.take(n as int) == ids);
        self.dirty = Vec::new();
        assert(self.dirty_ids() =~= Seq::<Seq<char>>::empty());
        assert forall|k: Seq<char>|
            #[trigger] self.dirty_ids().contains(k) <==> (self.zones().contains_key(k)
                && self.zones()[k].is_dirty) by {
            if self.zones().contains_key(k) && z0[k].is_dirty {
                assert(ids.contains(k));
            }
        }
        result
    }

    fn mark_dirty(&mut self, id: &String)
        requires
            old(self).known_ids().no_duplicates(),
            forall|k: Seq<char>|
                old(self).zones().contains_key(k) <==> old(self).known_ids().contains(k),
            old(self).dirty_ids().no_duplicates(),
            forall|k: Seq<char>|
                #[trigger] old(self).dirty_ids().contains(k) ==> (old(self).zones().contains_key(k)
                    && old(self).zones()[k].is_dirty),
            old(self).zones().contains_key(id@),
            old(self).zones()[id@].is_dirty,
        ensures
            final(self).zones() == old(self).zones(),
            final(self).known_ids() == old(self).known_ids(),
            final(self).dirty_ids().no_duplicates(),
            forall|k: Seq<char>|
                #[trigger] final(self).dirty_ids().contains(k) <==> (old(self).dirty_ids().contains(k)
                    || k == id@),
    {
        let n = self.dirty.len();
        let mut i: usize = 0;
        while i < n
            invariant
                n == self.dirty.len(),
                i <= n,
                *self == *old(self),
                old(self).dirty_ids().no_duplicates(),
                self.dirty_ids().len() == n,
                forall|j: int| 0 <= j < i ==> self.dirty_ids()[j] != id@,
            decreases n - i,
        {
            if self.dirty[i] == *id {
                assert(self.dirty_ids()[i as int] == id@);
                assert(self.dirty_ids().contains(id@));
                return;
            }
            i += 1;
        }
        let ghost before = self.dirty_ids();
        self.dirty.push(id.clone());
        assert(self.dirty_ids() =~= before.push(id@));
        assert(!before.contains(id@));
        assert forall|k: Seq<char>|
            #[trigger] self.dirty_ids().contains(k) <==> (before.contains(k) || k == id@) by {
            if self.dirty_ids().contains(k) {
                let j = choose|j: int| 0 <= j < self.dirty_ids().len() && self.dirty_ids()[j] == k;
                if j < before.len() {
                    assert(before[j] == k);
                }
            }
            if before.contains(k) {
                let j = choose|j: int| 0 <= j < before.len() && before[j] == k;
                assert(self.dirty_ids()[j] == k);
            }
            if k == id@ {
                assert(self.dirty_ids()[before.len() as int] == k);
            }
        }
    }
}

} // verus!
