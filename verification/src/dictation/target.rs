//! The application that the user works in.

use vstd::prelude::*;

verus! {

/// The application that the user worked in.
#[derive(Debug, Clone)]
pub struct TargetSnapshot {
    pub pid: i32,
    pub app_name: Option<String>,
}

/// What is told where the focus cannot be given back.
pub const RESTORE_UNSUPPORTED: &'static str =
    "Restoring input focus is only supported on macOS and Windows.";

/// The application that the user works in, on a system on which it cannot be found.
pub fn capture() -> (target: Option<TargetSnapshot>)
    ensures
        target is None,
{
    None
}

/// The application that the user works in and its name, on a system on which it cannot be found.
pub fn capture_app_identity() -> (identity: Option<(i32, Option<String>)>)
    ensures
        identity is None,
{
    None
}

/// Gives the focus back, on a system on which it cannot be done.
pub fn restore_focus(target: &TargetSnapshot) -> (restored: Result<(), String>)
    ensures
        restored matches Err(message) && message@ == RESTORE_UNSUPPORTED@,
{
    Err(RESTORE_UNSUPPORTED.to_owned())
}

/// How many windows are looked at before the search is given up.
pub const MAX_HOPS: u32 = 16;

/// What comes of a window that is looked at.
#[derive(Debug, Clone, Copy, PartialEq, Eq, Structural)]
pub enum WindowStep {
    /// It is the one.
    Found,
    /// It is one of ours, and the one below it is next.
    Below,
    /// There is none.
    GiveUp,
}

/// The search for the window that the user works in, from the top down. Our own windows, which may
/// be on top when the search starts, are passed over.
#[derive(Debug, Clone, Copy, PartialEq, Eq, Structural)]
pub struct WindowSearch {
    /// How many windows have been passed over.
    pub hops: u32,
}

/// What comes of the next window, given whose it is, if there is one.
pub open spec fn looked_at(hops: int, owner: Option<i32>, ours: i32) -> WindowStep {
    match owner {
        Some(owner) => if hops >= MAX_HOPS {
            WindowStep::GiveUp
        } else if owner == ours {
            WindowStep::Below
        } else {
            WindowStep::Found
        },
        None => WindowStep::GiveUp,
    }
}

/// The place of the window that a search from the top finds: the first that is not ours, if it is
/// among those that are looked at.
pub open spec fn found_window(owners: Seq<i32>, ours: i32, hops: int) -> Option<int>
    decreases owners.len(),
{
    if owners.len() == 0 || hops >= MAX_HOPS {
        None
    } else if owners[0] != ours {
        Some(hops)
    } else {
        found_window(owners.skip(1), ours, hops + 1)
    }
}

impl WindowSearch {
    /// A search that starts at the top.
    pub fn new() -> (search: WindowSearch)
        ensures
            search.hops == 0,
    {
        WindowSearch { hops: 0 }
    }

    /// Looks at a window.
    pub fn look(&mut self, owner: Option<i32>, ours: i32) -> (step: WindowStep)
        requires
            old(self).hops <= MAX_HOPS,
        ensures
            step == looked_at(old(self).hops as int, owner, ours),
            final(self).hops == old(self).hops + (if step is Below {
                1int
            } else {
                0
            }),
            final(self).hops <= MAX_HOPS,
    {
        match owner {
            Some(owner) => if self.hops >= MAX_HOPS {
                WindowStep::GiveUp
            } else if owner == ours {
                self.hops = self.hops + 1;
                WindowStep::Below
            } else {
                WindowStep::Found
            },
            None => WindowStep::GiveUp,
        }
    }
}

/// The place of the window that the user works in, given whose the windows are from the top down.
pub fn foreground_window(owners: &Vec<i32>, ours: i32) -> (place: Option<usize>)
    ensures
        match place {
            Some(place) => found_window(owners@, ours, 0) == Some(place as int),
            None => found_window(owners@, ours, 0) is None,
        },
{
    let mut search: WindowSearch = WindowSearch::new();
    let mut at: usize = 0;
    assert(owners@.skip(0) =~= owners@);
    loop
        invariant
            at <= owners@.len(),
            at == search.hops,
            search.hops <= MAX_HOPS,
            found_window(owners@, ours, 0) == found_window(owners@.skip(at as int), ours, at as int),
        decreases owners@.len() - at,
    {
        let owner: Option<i32> = if at < owners.len() {
            Some(owners[at])
        } else {
            None
        };
        proof {
            if at < owners@.len() {
                assert(owners@.skip(at as int)[0] == owners@[at as int]);
                assert(owners@.skip(at as int).skip(1) =~= owners@.skip(at + 1));
            }
        }
        match search.look(owner, ours) {
            WindowStep::Found => return Some(at),
            WindowStep::Below => {
                at = at + 1;
            },
            WindowStep::GiveUp => return None,
        }
    }
}

/// The window that is found is not ours, and all above it are.
pub proof fn law_found_window_is_not_ours(owners: Seq<i32>, ours: i32, hops: int)
    requires
        0 <= hops,
    ensures
        found_window(owners, ours, hops) matches Some(place) ==> {
            &&& hops <= place < MAX_HOPS
            &&& place - hops < owners.len()
            &&& owners[place - hops] != ours
            &&& forall|i: int| 0 <= i < place - hops ==> owners[i] == ours
        },
    decreases owners.len(),
{
    if owners.len() > 0 && hops < MAX_HOPS && owners[0] == ours {
        law_found_window_is_not_ours(owners.skip(1), ours, hops + 1);
        if let Some(place) = found_window(owners.skip(1), ours, hops + 1) {
            assert forall|i: int| 0 <= i < place - hops implies owners[i] == ours by {
                if i > 0 {
                    assert(owners.skip(1)[i - 1] == owners[i]);
                }
            }
        }
    }
}

/// Where no window is found, the windows that were looked at are all ours: all that there are, or the
/// first sixteen.
pub proof fn law_no_window_is_missed(owners: Seq<i32>, ours: i32, hops: int)
    requires
        0 <= hops <= 16,
    ensures
        found_window(owners, ours, hops) is None ==> forall|i: int|
            0 <= i < owners.len() && hops + i < 16 ==> #[trigger] owners[i] == ours,
    decreases owners.len(),
{
    if owners.len() > 0 && hops < 16 && owners[0] == ours {
        law_no_window_is_missed(owners.skip(1), ours, hops + 1);
        if found_window(owners, ours, hops) is None {
            assert forall|i: int| 0 <= i < owners.len() && hops + i < 16 implies #[trigger] owners[i]
                == ours by {
                if i > 0 {
                    assert(owners.skip(1)[i - 1] == owners[i]);
                }
            }
        }
    }
}

/// A window of another program is the one that is looked for, one of ours is passed over, and the
/// search ends where there is no window or after sixteen of ours.
pub proof fn law_what_comes_of_a_window(hops: int, owner: i32, ours: i32)
    ensures
        hops < 16 && owner != ours ==> looked_at(hops, Some(owner), ours) == WindowStep::Found,
        hops < 16 && owner == ours ==> looked_at(hops, Some(owner), ours) == WindowStep::Below,
        hops >= 16 ==> looked_at(hops, Some(owner), ours) == WindowStep::GiveUp,
        looked_at(hops, None, ours) == WindowStep::GiveUp,
{
}

} // verus!
