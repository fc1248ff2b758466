//! Screen bookkeeping: the order in which screens were registered, the navigation
//! hotkeys, and cycling between screens.
use vstd::prelude::*;

use super::events::{KeyCodeInput, KeyInput};

verus! {

/// Lifecycle events emitted around screen activation/deactivation.
#[derive(Debug, Clone, Copy, PartialEq, Eq, Structural)]
pub enum ScreenLifecycleEvent {
    WillAppear,
    DidAppear,
    WillDisappear,
    DidDisappear,
}

/// Optional metadata carried alongside a screen definition.
#[derive(Clone, Debug)]
pub struct ScreenMetadata {
    pub description: Option<String>,
    pub shortcuts: Vec<String>,
}

impl Default for ScreenMetadata {
    fn default() -> (r: Self)
        ensures
            r.description is None,
            r.shortcuts@.len() == 0,
    {
        ScreenMetadata { description: None, shortcuts: Vec::new() }
    }
}

/// Direction in which the navigation hotkeys cycle through screens.
#[derive(Debug, Clone, Copy, PartialEq, Eq, Structural)]
pub enum CycleDirection {
    Forward,
    Backward,
}

/// The navigation hotkey `key` stands for, if any: Ctrl+Tab cycles forward,
/// Ctrl+Shift+Tab and Ctrl+BackTab backward. Hotkeys only count with at least two
/// screens and an active one.
pub open spec fn hotkey_direction(key: KeyInput, screens: nat, has_active: bool) -> Option<
    CycleDirection,
> {
    if screens < 2 || !has_active || !key.ctrl {
        None
    } else {
        match key.code {
            KeyCodeInput::Tab => if key.shift {
                Some(CycleDirection::Backward)
            } else {
                Some(CycleDirection::Forward)
            },
            KeyCodeInput::BackTab => Some(CycleDirection::Backward),
            _ => None,
        }
    }
}

/// The navigation hotkey `key` stands for, if any.
pub fn navigation_direction(key: &KeyInput, screens: usize, has_active: bool) -> (r: Option<
    CycleDirection,
>)
    ensures
        r == hotkey_direction(*key, screens as nat, has_active),
{
    if screens < 2 || !has_active || !key.ctrl {
        return None;
    }
    match key.code {
        KeyCodeInput::Tab => if key.shift {
            Some(CycleDirection::Backward)
        } else {
            Some(CycleDirection::Forward)
        },
        KeyCodeInput::BackTab => Some(CycleDirection::Backward),
        _ => None,
    }
}

/// The index after `pos` among `total` screens, cycling: `(pos + 1) % total` forward
/// and `(pos + total - 1) % total` backward.
pub open spec fn cycle_index(pos: int, total: int, direction: CycleDirection) -> int {
    match direction {
        CycleDirection::Forward => if pos + 1 < total {
            pos + 1
        } else {
            0
        },
        CycleDirection::Backward => if pos == 0 {
            total - 1
        } else {
            pos - 1
        },
    }
}

/// The screen that follows `current` in `ordered`, cycling in `direction`; `None`
/// when `current` is not registered or is the only screen.
pub open spec fn next_screen(ordered: Seq<Seq<char>>, current: Seq<char>, direction: CycleDirection) -> Option<
    Seq<char>,
> {
    if !ordered.contains(current) {
        None
    } else {
        let pos = ordered.index_of(current);
        let next = cycle_index(pos, ordered.len() as int, direction);
        if next == pos {
            None
        } else {
            Some(ordered[next])
        }
    }
}

/// Registered screen ids, in registration order, each once.
pub struct ScreenOrder {
    ordered: Vec<String>,
}

impl ScreenOrder {
    pub closed spec fn ids(&self) -> Seq<Seq<char>> {
        self.ordered@.map_values(|s: String| s@)
    }

    /// No screen is registered.
    pub fn new() -> (r: Self)
        ensures
            r.ids() == Seq::<Seq<char>>::empty(),
            r.ids().no_duplicates(),
    {
        let r = ScreenOrder { ordered: Vec::new() };
        assert(r.ids() =~= Seq::<Seq<char>>::empty());
        r
    }

    /// The number of registered screens.
    pub fn len(&self) -> (r: usize)
        ensures
            r == self.ids().len(),
    {
        self.ordered.len()
    }

    /// The position of `id`, if registered.
    pub fn position(&self, id: &str) -> (r: Option<usize>)
        requires
            self.ids().no_duplicates(),
        ensures
            r is None <==> !self.ids().contains(id@),
            r matches Some(i) ==> i < self.ids().len() && self.ids()[i as int] == id@
                && self.ids().index_of(id@) == i,
    {
        let key = String::from_str(id);
        let n = self.ordered.len();
        let mut i: usize = 0;
        while i < n
            invariant
                key@ == id@,
                self.ids().no_duplicates(),
                n == self.ordered.len(),
                i <= n,
                self.ids().len() == n,
                forall|j: int| 0 <= j < i ==> self.ids()[j] != id@,
            decreases n - i,
        {
            assert(self.ids()[i as int] == self.ordered@[i as int]@);
            if self.ordered[i] == key {
                assert(self.ids()[i as int] == id@);
                assert(self.ids().contains(id@));
                proof {
                    let k = self.ids().index_of(id@);
                    assert(0 <= k < n && self.ids()[k] == id@);
                    if k != i {
                        assert(self.ids()[k] == self.ids()[i as int]);
                    }
                }
                return Some(i);
            }
            i += 1;
        }
        None
    }

    /// Registers `id` at the end unless it is already registered; `true` when it was new.
    pub fn register(&mut self, id: &str) -> (added: bool)
        requires
            old(self).ids().no_duplicates(),
        ensures
            final(self).ids().no_duplicates(),
            added == !old(self).ids().contains(id@),
            final(self).ids() == if added {
                old(self).ids().push(id@)
            } else {
                old(self).ids()
            },
    {
        if self.position(id).is_some() {
            return false;
        }
        let ghost before = self.ids();
        self.ordered.push(String::from_str(id));
        assert(self.ids() =~= before.push(id@));
        true
    }

    /// The screen that follows `current`, cycling in `direction`.
    pub fn next_screen_id(&self, current: &str, direction: CycleDirection) -> (r: Option<String>)
        requires
            self.ids().no_duplicates(),
        ensures
            match r {
                Some(s) => next_screen(self.ids(), current@, direction) == Some(s@),
                None => next_screen(self.ids(), current@, direction) is None,
            },
    {
        let position = match self.position(current) {
            Some(p) => p,
            None => return None,
        };
        let total = self.ordered.len();
        let next_index = match direction {
            CycleDirection::Forward => if position + 1 < total {
                position + 1
            } else {
                0
            },
            CycleDirection::Backward => if position == 0 {
                total - 1
            } else {
                position - 1
            },
        };
        if next_index == position {
            None
        } else {
            let s = self.ordered[next_index].clone();
            assert(self.ids()[next_index as int] == s@);
            Some(s)
        }
    }
}

/// Cycling forward and then backward comes back to the same screen.
pub proof fn lemma_cycle_round_trip(ordered: Seq<Seq<char>>, current: Seq<char>)
    requires
        ordered.no_duplicates(),
        ordered.contains(current),
        ordered.len() >= 2,
    ensures
        next_screen(ordered, current, CycleDirection::Forward) matches Some(n) && next_screen(
            ordered,
            n,
            CycleDirection::Backward,
        ) == Some(current),
{
    let total = ordered.len() as int;
    let pos = ordered.index_of(current);
    let next = cycle_index(pos, total, CycleDirection::Forward);
    let n = ordered[next];
    assert(ordered.contains(n));
    assert(ordered.index_of(n) == next) by {
        let k = ordered.index_of(n);
        if k != next {
            assert(ordered[k] == ordered[next]);
        }
    }
}

/// With `n` screens, Ctrl+Tab from screen `i` goes to screen `i + 1`, and from the last
/// one back to the first.
pub proof fn lemma_cycle_forward_visits_next(ordered: Seq<Seq<char>>, i: int)
    requires
        ordered.no_duplicates(),
        ordered.len() >= 2,
        0 <= i < ordered.len(),
    ensures
        next_screen(ordered, ordered[i], CycleDirection::Forward) == Some(
            ordered[if i + 1 < ordered.len() {
                i + 1
            } else {
                0
            }],
        ),
{
    let c = ordered[i];
    assert(ordered.contains(c));
    let k = ordered.index_of(c);
    if k != i {
        assert(ordered[k] == ordered[i]);
    }
}

/// Which screen a lifecycle event goes to during a switch.
#[derive(Debug, Clone, Copy, PartialEq, Eq, Structural)]
pub enum ScreenSide {
    /// The screen being left.
    Outgoing,
    /// The screen being activated.
    Incoming,
}

/// One step of switching screens.
#[derive(Debug, Clone, Copy, PartialEq, Eq, Structural)]
pub enum SwitchStep {
    /// Tell one of the two screens about a lifecycle event.
    Notify(ScreenSide, ScreenLifecycleEvent),
    /// Ask the incoming screen for its layout.
    BuildLayout,
    /// Install the incoming screen's layout in the runtime.
    ApplyLayout,
    /// Let the incoming screen register its panels.
    RegisterPanels,
    /// Apply the configured focus.
    ApplyFocus,
}

/// The steps of activating a screen: the outgoing screen, if any, will disappear,
/// then the incoming one will appear and gives its layout.
pub open spec fn activate_plan(has_outgoing: bool) -> Seq<SwitchStep> {
    let tail = seq![
        SwitchStep::Notify(ScreenSide::Incoming, ScreenLifecycleEvent::WillAppear),
        SwitchStep::BuildLayout,
    ];
    if has_outgoing {
        seq![SwitchStep::Notify(ScreenSide::Outgoing, ScreenLifecycleEvent::WillDisappear)] + tail
    } else {
        tail
    }
}

/// The steps of finishing an activation: the layout goes in, the incoming screen
/// registers its panels and did appear, focus is applied, and then the outgoing
/// screen, if any, did disappear.
pub open spec fn finish_plan(has_outgoing: bool) -> Seq<SwitchStep> {
    let head = seq![
        SwitchStep::ApplyLayout,
        SwitchStep::RegisterPanels,
        SwitchStep::Notify(ScreenSide::Incoming, ScreenLifecycleEvent::DidAppear),
        SwitchStep::ApplyFocus,
    ];
    if has_outgoing {
        head.push(SwitchStep::Notify(ScreenSide::Outgoing, ScreenLifecycleEvent::DidDisappear))
    } else {
        head
    }
}

/// The steps of activating a screen, in order.
pub fn activate_steps(has_outgoing: bool) -> (r: Vec<SwitchStep>)
    ensures
        r@ == activate_plan(has_outgoing),
{
    let mut r: Vec<SwitchStep> = Vec::new();
    if has_outgoing {
        r.push(SwitchStep::Notify(ScreenSide::Outgoing, ScreenLifecycleEvent::WillDisappear));
    }
    r.push(SwitchStep::Notify(ScreenSide::Incoming, ScreenLifecycleEvent::WillAppear));
    r.push(SwitchStep::BuildLayout);
    r
}

/// The steps of finishing an activation, in order.
pub fn finish_steps(has_outgoing: bool) -> (r: Vec<SwitchStep>)
    ensures
        r@ == finish_plan(has_outgoing),
{
    let mut r: Vec<SwitchStep> = Vec::new();
    r.push(SwitchStep::ApplyLayout);
    r.push(SwitchStep::RegisterPanels);
    r.push(SwitchStep::Notify(ScreenSide::Incoming, ScreenLifecycleEvent::DidAppear));
    r.push(SwitchStep::ApplyFocus);
    if has_outgoing {
        r.push(SwitchStep::Notify(ScreenSide::Outgoing, ScreenLifecycleEvent::DidDisappear));
    }
    r
}

} // verus!
