//! Focus tracking: which zone holds input focus, and on whose behalf.
use vstd::prelude::*;

verus! {

/// A focused zone and the owner that focused it.
#[derive(Debug, PartialEq, Eq)]
pub struct FocusEntry {
    pub owner: String,
    pub zone_id: String,
}

impl Clone for FocusEntry {
    fn clone(&self) -> (r: Self)
        ensures
            r == *self,
    {
        FocusEntry { owner: self.owner.clone(), zone_id: self.zone_id.clone() }
    }
}

/// A focus entry read as plain values: (owner, zone).
pub open spec fn entry_view(e: Option<FocusEntry>) -> Option<(Seq<char>, Seq<char>)> {
    match e {
        Some(f) => Some((f.owner@, f.zone_id@)),
        None => None,
    }
}

/// Focus after `owner` focuses `zone`: that entry, whatever was focused before.
pub open spec fn focus_set(owner: Seq<char>, zone: Seq<char>) -> Option<(Seq<char>, Seq<char>)> {
    Some((owner, zone))
}

/// Focus after `owner` releases: cleared when `owner` holds it, else unchanged.
pub open spec fn focus_cleared(current: Option<(Seq<char>, Seq<char>)>, owner: Seq<char>) -> Option<
    (Seq<char>, Seq<char>),
> {
    match current {
        Some((o, z)) => if o == owner {
            None
        } else {
            current
        },
        None => None,
    }
}

/// The single focus slot shared by the runtime and its plugins.
pub struct FocusRegistry {
    inner: Option<FocusEntry>,
}

impl FocusRegistry {
    /// The current focus, as (owner, zone).
    pub closed spec fn focus(&self) -> Option<(Seq<char>, Seq<char>)> {
        entry_view(self.inner)
    }

    /// Nothing focused.
    pub fn new() -> (r: Self)
        ensures
            r.focus() is None,
    {
        FocusRegistry { inner: None }
    }

    /// `owner` focuses `zone_id`, replacing any previous focus.
    pub fn set_focus(&mut self, owner: &str, zone_id: &str)
        ensures
            final(self).focus() == focus_set(owner@, zone_id@),
    {
        self.inner = Some(
            FocusEntry { owner: String::from_str(owner), zone_id: String::from_str(zone_id) },
        );
    }

    /// Clears the focus if `owner` holds it; otherwise nothing changes.
    pub fn clear_focus(&mut self, owner: &str)
        ensures
            final(self).focus() == focus_cleared(old(self).focus(), owner@),
    {
        let held = match &self.inner {
            Some(e) => e.owner == String::from_str(owner),
            None => false,
        };
        if held {
            self.inner = None;
        }
    }

    /// The current focus entry.
    pub fn current(&self) -> (r: Option<FocusEntry>)
        ensures
            entry_view(r) == self.focus(),
    {
        match &self.inner {
            Some(e) => Some(e.clone()),
            None => None,
        }
    }
}

impl Default for FocusRegistry {
    fn default() -> (r: Self)
        ensures
            r.focus() is None,
    {
        FocusRegistry::new()
    }
}

/// Focuses zones on behalf of one owner and remembers the last zone it focused.
pub struct FocusController {
    owner: String,
    last_zone: Option<String>,
}

impl FocusController {
    /// The owner this controller acts for.
    pub closed spec fn owner(&self) -> Seq<char> {
        self.owner@
    }

    /// The last zone this controller focused.
    pub closed spec fn last(&self) -> Option<Seq<char>> {
        match self.last_zone {
            Some(z) => Some(z@),
            None => None,
        }
    }

    pub fn new(owner: &str) -> (r: Self)
        ensures
            r.owner() == owner@,
            r.last() is None,
    {
        FocusController { owner: String::from_str(owner), last_zone: None }
    }

    /// Focuses `zone_id` in `registry` for this owner.
    pub fn focus(&mut self, registry: &mut FocusRegistry, zone_id: &str)
        ensures
            final(registry).focus() == focus_set(old(self).owner(), zone_id@),
            final(self).owner() == old(self).owner(),
            final(self).last() == Some(zone_id@),
    {
        registry.set_focus(self.owner.as_str(), zone_id);
        self.last_zone = Some(String::from_str(zone_id));
    }

    /// Releases this owner's focus in `registry`.
    pub fn release(&self, registry: &mut FocusRegistry)
        ensures
            final(registry).focus() == focus_cleared(old(registry).focus(), self.owner()),
    {
        registry.clear_focus(self.owner.as_str());
    }

    /// The focus currently held in `registry`, by anyone.
    pub fn current(&self, registry: &FocusRegistry) -> (r: Option<FocusEntry>)
        ensures
            entry_view(r) == registry.focus(),
    {
        registry.current()
    }

    /// The last zone this controller focused.
    pub fn last_zone(&self) -> (r: Option<&str>)
        ensures
            match r {
                Some(z) => self.last() == Some(z@),
                None => self.last() is None,
            },
    {
        match &self.last_zone {
            Some(z) => Some(z.as_str()),
            None => None,
        }
    }
}

/// Releasing undoes focusing: after `owner` focuses a zone and then releases, nothing
/// is focused; a release by any other owner leaves the focus in place.
pub proof fn lemma_release_undoes_focus(owner: Seq<char>, zone: Seq<char>, other: Seq<char>)
    ensures
        focus_cleared(focus_set(owner, zone), owner) is None,
        other != owner ==> focus_cleared(focus_set(owner, zone), other) == focus_set(owner, zone),
{
}

} // verus!
