//! The client's stack of screens. Screens are pushed and popped at any time;
//! at the next frame the shown stack is brought in line with the requested
//! one, touching only the screens above the lowest position that changed.
//!
//! The screens themselves belong to the interface; here a screen is a
//! handle `S`, and what is to be done to the screens is returned as a list
//! of actions.
use vstd::prelude::*;

verus! {

/// A shown screen.
#[derive(Clone, Copy)]
pub struct ScreenInfo<S> {
    pub screen: S,
    /// Whether the screen was told it is the active one.
    pub active: bool,
    /// The window size the screen last laid itself out for; -1 before the
    /// first time.
    pub last_width: i32,
    pub last_height: i32,
}

/// What is to be done to a screen when the shown stack changes.
#[derive(Clone, Copy, Debug, PartialEq, Eq)]
pub enum ScreenAction<S> {
    /// A removed screen stops being active.
    Deactivate(S),
    /// A removed screen is torn down.
    Deinit(S),
    /// A screen stops being active because another was pushed above it.
    DeactivateCovered(S),
    /// A new screen is set up.
    Init(S),
    /// A new screen becomes the active one.
    Activate(S),
}

/// The requested and the shown stacks of screens.
pub struct ScreenSystem<S> {
    screens: Vec<ScreenInfo<S>>,
    pre_computed_screens: Vec<S>,
    lowest_offset: Option<usize>,
}

/// The handles of shown screens.
pub open spec fn handles<S>(shown: Seq<ScreenInfo<S>>) -> Seq<S> {
    shown.map_values(|i: ScreenInfo<S>| i.screen)
}

/// The actions that remove the shown screens above position `l`, the top
/// first: an active one is deactivated, then each is torn down.
pub open spec fn pop_actions<S>(shown: Seq<ScreenInfo<S>>, l: int) -> Seq<ScreenAction<S>>
    decreases shown.len(),
{
    if shown.len() <= l || shown.len() == 0 {
        Seq::empty()
    } else {
        let top = shown.last();
        let first = if top.active {
            seq![ScreenAction::Deactivate(top.screen), ScreenAction::Deinit(top.screen)]
        } else {
            seq![ScreenAction::Deinit(top.screen)]
        };
        first + pop_actions(shown.drop_last(), l)
    }
}

/// Shows one more screen: the screen below it (the old top) stops being
/// active if it was, and the new screen is set up and made active.
pub open spec fn push_one<S>(stack: Seq<ScreenInfo<S>>, acts: Seq<ScreenAction<S>>, s: S) -> (
    Seq<ScreenInfo<S>>,
    Seq<ScreenAction<S>>,
) {
    let fresh = ScreenInfo { screen: s, active: false, last_width: -1i32, last_height: -1i32 };
    let (below, acts1) = if stack.len() > 0 && stack.last().active {
        (
            stack.update(stack.len() - 1, ScreenInfo { active: false, ..stack.last() }),
            acts.push(ScreenAction::DeactivateCovered(stack.last().screen)),
        )
    } else {
        (stack, acts)
    };
    (
        below.push(ScreenInfo { active: true, ..fresh }),
        acts1.push(ScreenAction::Init(s)).push(ScreenAction::Activate(s)),
    )
}

/// Shows the screens `new` one after the other.
pub open spec fn push_all<S>(stack: Seq<ScreenInfo<S>>, acts: Seq<ScreenAction<S>>, new: Seq<S>) -> (
    Seq<ScreenInfo<S>>,
    Seq<ScreenAction<S>>,
)
    decreases new.len(),
{
    if new.len() == 0 {
        (stack, acts)
    } else {
        let prev = push_all(stack, acts, new.drop_last());
        push_one(prev.0, prev.1, new.last())
    }
}

/// What one frame does to the shown screens, and whether the mouse cursor
/// is to be put back in the middle of the window.
pub struct TickPlan<S> {
    pub actions: Vec<ScreenAction<S>>,
    pub center_cursor: bool,
}

/// Which screens to tell about a frame.
pub struct FramePlan {
    /// The top screen is to be made active.
    pub activate_top: bool,
    /// The positions of the screens to lay out again.
    pub resize: Vec<usize>,
    /// The positions of the screens to tick and draw.
    pub tick: Vec<usize>,
}

/// The screens that are laid out again when the window size changed: those
/// that always tick, the top one, and the one below a transparent top.
pub open spec fn resized(i: int, len: int, tick_always: bool, top_transparent: bool) -> bool {
    tick_always || i == len - 1 || (top_transparent && i == len - 2)
}

/// The screens that tick: those that always do, and the top one.
pub open spec fn ticked(i: int, len: int, tick_always: bool) -> bool {
    tick_always || i == len - 1
}

/// At most the top shown screen is active.
pub open spec fn only_top_active<S>(shown: Seq<ScreenInfo<S>>) -> bool {
    forall|i: int| 0 <= i < shown.len() - 1 ==> !(#[trigger] shown[i]).active
}

/// Showing screens one after the other adds their handles on top, keeps at
/// most the top active, and makes the last one shown active.
pub proof fn lemma_push_all<S>(stack: Seq<ScreenInfo<S>>, acts: Seq<ScreenAction<S>>, new: Seq<S>)
    requires
        only_top_active(stack),
    ensures
        handles(push_all(stack, acts, new).0) == handles(stack) + new,
        only_top_active(push_all(stack, acts, new).0),
        new.len() > 0 ==> push_all(stack, acts, new).0.last().active,
        push_all(stack, acts, new).0.len() == stack.len() + new.len(),
    decreases new.len(),
{
    if new.len() > 0 {
        lemma_push_all(stack, acts, new.drop_last());
        let prev = push_all(stack, acts, new.drop_last());
        let st = prev.0;
        let below = if st.len() > 0 && st.last().active {
            st.update(st.len() - 1, ScreenInfo { active: false, ..st.last() })
        } else {
            st
        };
        let fresh = ScreenInfo { screen: new.last(), active: true, last_width: -1i32, last_height: -1i32 };
        assert(push_all(stack, acts, new).0 == below.push(fresh));
        assert(handles(below) =~= handles(st));
        assert(handles(below.push(fresh)) =~= handles(below).push(new.last()));
        assert(handles(stack) + new =~= (handles(stack) + new.drop_last()).push(new.last()));
        assert forall|i: int| 0 <= i < below.len() implies !(#[trigger] below[i]).active by {
            if i < st.len() - 1 {
                assert(below[i] == st[i]);
            }
        }
        assert(only_top_active(below.push(fresh)));
    }
}

/// Every removed screen is torn down, right after being deactivated when it
/// was active.
pub proof fn lemma_pop_actions_hooks<S>(shown: Seq<ScreenInfo<S>>, l: int, p: int)
    requires
        0 <= l <= p < shown.len(),
    ensures
        exists|k: int|
            0 <= k < pop_actions(shown, l).len() && #[trigger] pop_actions(shown, l)[k] == ScreenAction::Deinit(
                shown[p].screen,
            ) && (shown[p].active ==> k >= 1 && pop_actions(shown, l)[k - 1] == ScreenAction::Deactivate(
                shown[p].screen,
            )),
    decreases shown.len(),
{
    let top = shown.last();
    let first = if top.active {
        seq![ScreenAction::Deactivate(top.screen), ScreenAction::Deinit(top.screen)]
    } else {
        seq![ScreenAction::Deinit(top.screen)]
    };
    let acts = pop_actions(shown, l);
    assert(acts == first + pop_actions(shown.drop_last(), l));
    if p == shown.len() - 1 {
        let k = first.len() - 1;
        assert(acts[k] == ScreenAction::Deinit(shown[p].screen));
    } else {
        lemma_pop_actions_hooks(shown.drop_last(), l, p);
        let rest = pop_actions(shown.drop_last(), l);
        let k0 = choose|k: int|
            0 <= k < rest.len() && #[trigger] rest[k] == ScreenAction::Deinit(shown.drop_last()[p].screen) && (
            shown.drop_last()[p].active ==> k >= 1 && rest[k - 1] == ScreenAction::Deactivate(
                shown.drop_last()[p].screen,
            ));
        let k = k0 + first.len();
        assert(acts[k] == rest[k0]);
        if shown[p].active {
            assert(acts[k - 1] == rest[k0 - 1]);
        }
    }
}

/// Every screen newly shown is set up and, right after, made active.
pub proof fn lemma_push_all_hooks<S>(stack: Seq<ScreenInfo<S>>, acts: Seq<ScreenAction<S>>, new: Seq<S>, j: int)
    requires
        0 <= j < new.len(),
    ensures
        push_all(stack, acts, new).1.len() >= acts.len() + 2 * new.len(),
        push_all(stack, acts, new).1.take(acts.len() as int) == acts,
        exists|k: int|
            acts.len() <= k && k + 1 < push_all(stack, acts, new).1.len() && #[trigger] push_all(stack, acts, new).1[k]
                == ScreenAction::Init(new[j]) && push_all(stack, acts, new).1[k + 1] == ScreenAction::Activate(new[j]),
    decreases new.len(),
{
    let prev = push_all(stack, acts, new.drop_last());
    let res = push_all(stack, acts, new);
    let st = prev.0;
    let acts1 = if st.len() > 0 && st.last().active {
        prev.1.push(ScreenAction::DeactivateCovered(st.last().screen))
    } else {
        prev.1
    };
    assert(res.1 == acts1.push(ScreenAction::Init(new.last())).push(ScreenAction::Activate(new.last())));
    if new.len() > 1 {
        lemma_push_all_hooks(stack, acts, new.drop_last(), if j < new.len() - 1 { j } else { 0 });
    } else {
        assert(prev.1 == acts);
    }
    assert(res.1.take(acts.len() as int) =~= acts) by {
        assert(prev.1.take(acts.len() as int) =~= acts);
        assert forall|i: int| 0 <= i < acts.len() implies res.1[i] == acts[i] by {
            assert(acts1[i] == prev.1[i]);
            assert(prev.1.take(acts.len() as int)[i] == prev.1[i]);
        }
    }
    if j == new.len() - 1 {
        let k = acts1.len() as int;
        assert(res.1[k] == ScreenAction::Init(new[j]));
    } else {
        let k0 = choose|k: int|
            acts.len() <= k && k + 1 < prev.1.len() && #[trigger] prev.1[k] == ScreenAction::Init(new.drop_last()[j])
                && prev.1[k + 1] == ScreenAction::Activate(new.drop_last()[j]);
        assert(res.1[k0] == acts1[k0]);
        assert(acts1[k0] == prev.1[k0]);
        assert(res.1[k0 + 1] == prev.1[k0 + 1]);
    }
}

/// The screens told about a frame are those that always tick and the top
/// one, in stack order; with no screens, none.
pub proof fn lemma_tick_positions(n: int, len: int, tick_always: Seq<bool>)
    requires
        0 <= n <= len <= usize::MAX,
        tick_always.len() == len,
    ensures
        forall|i: int| 0 <= i < n ==> (tick_positions(n, len, tick_always).contains(i as usize) <==> ticked(
            i,
            len,
            tick_always[i],
        )),
        forall|a: int, b: int|
            0 <= a < b < tick_positions(n, len, tick_always).len() ==> tick_positions(n, len, tick_always)[a]
                < tick_positions(n, len, tick_always)[b],
        forall|a: int| 0 <= a < tick_positions(n, len, tick_always).len() ==> #[trigger] tick_positions(n, len, tick_always)[a] < n,
        n == 0 ==> tick_positions(n, len, tick_always).len() == 0,
    decreases n,
{
    if n > 0 {
        lemma_tick_positions(n - 1, len, tick_always);
        let prev = tick_positions(n - 1, len, tick_always);
        let cur = tick_positions(n, len, tick_always);
        assert forall|a: int| 0 <= a < prev.len() implies cur[a] == prev[a] by {}
        assert forall|a: int, b: int| 0 <= a < b < cur.len() implies cur[a] < cur[b] by {
            if b < prev.len() {
                assert(prev[a] < prev[b]);
            } else {
                assert(prev[a] < n - 1);
            }
        }
        assert forall|i: int| 0 <= i < n implies (cur.contains(i as usize) <==> ticked(i, len, tick_always[i])) by {
            if i < n - 1 {
                if cur.contains(i as usize) {
                    let p = choose|p: int| 0 <= p < cur.len() && cur[p] == i as usize;
                    if p < prev.len() {
                        assert(prev[p] == i as usize);
                    }
                }
                if prev.contains(i as usize) {
                    let p = choose|p: int| 0 <= p < prev.len() && prev[p] == i as usize;
                    assert(cur[p] == i as usize);
                }
            } else {
                if ticked(i, len, tick_always[i]) {
                    assert(cur[prev.len() as int] == i as usize);
                }
                if cur.contains(i as usize) {
                    let p = choose|p: int| 0 <= p < cur.len() && cur[p] == i as usize;
                    if p < prev.len() {
                        assert(prev[p] < n - 1);
                    }
                }
            }
        }
    }
}

/// What a whole frame does: the shown screens above the lowest changed
/// position are removed (deactivated if active, then torn down, the top
/// first), the requested screens from there on are shown in order (each set
/// up and made active, the one below deactivated), and the top one is made
/// active and laid out. Afterwards the shown screens are exactly the
/// requested ones and only the top one is active.
pub proof fn lemma_frame_shows_requested<S>(
    shown: Seq<ScreenInfo<S>>,
    requested: Seq<S>,
    l: int,
    tick_always: Seq<bool>,
    top_transparent: bool,
    w: i32,
    h: i32,
)
    requires
        0 <= l <= shown.len(),
        l <= requested.len(),
        handles(shown).take(l) == requested.take(l),
        only_top_active(shown),
    ensures
        ({
            let pushed = push_all(shown.take(l), pop_actions(shown, l), requested.skip(l)).0;
            let after = laid_out(pushed, tick_always, top_transparent, w, h);
            &&& handles(pushed) == requested
            &&& handles(after) == requested
            &&& only_top_active(after)
            &&& requested.len() > 0 ==> after.last().active
        }),
{
    let base = shown.take(l);
    assert(only_top_active(base)) by {
        assert forall|i: int| 0 <= i < base.len() - 1 implies !(#[trigger] base[i]).active by {
            assert(base[i] == shown[i]);
        }
    }
    lemma_push_all(base, pop_actions(shown, l), requested.skip(l));
    assert(handles(base) =~= handles(shown).take(l));
    assert(requested.take(l) + requested.skip(l) =~= requested);
    let pushed = push_all(base, pop_actions(shown, l), requested.skip(l)).0;
    let after = laid_out(pushed, tick_always, top_transparent, w, h);
    assert(handles(after) =~= handles(pushed));
    assert forall|i: int| 0 <= i < after.len() - 1 implies !(#[trigger] after[i]).active by {
        assert(!pushed[i].active);
    }
}

/// Whether the window size differs from the one a screen last laid itself
/// out for.
pub open spec fn size_changed<S>(info: ScreenInfo<S>, w: i32, h: i32) -> bool {
    info.last_width != w || info.last_height != h
}

/// Whether a screen has not laid itself out yet.
pub open spec fn first_layout<S>(info: ScreenInfo<S>) -> bool {
    info.last_width == -1 || info.last_height == -1
}

/// The positions below `n` of the screens laid out again.
pub open spec fn resize_positions(n: int, len: int, tick_always: Seq<bool>, top_transparent: bool) -> Seq<usize>
    decreases n,
{
    if n <= 0 {
        Seq::empty()
    } else {
        let prev = resize_positions(n - 1, len, tick_always, top_transparent);
        if resized(n - 1, len, tick_always[n - 1], top_transparent) {
            prev.push((n - 1) as usize)
        } else {
            prev
        }
    }
}

/// The positions below `n` of the screens that tick.
pub open spec fn tick_positions(n: int, len: int, tick_always: Seq<bool>) -> Seq<usize>
    decreases n,
{
    if n <= 0 {
        Seq::empty()
    } else {
        let prev = tick_positions(n - 1, len, tick_always);
        if ticked(n - 1, len, tick_always[n - 1]) {
            prev.push((n - 1) as usize)
        } else {
            prev
        }
    }
}

/// The shown screens after a frame at window size `w` by `h`: the top one
/// is active, and the screens laid out again (the top one alone the first
/// time) record the size.
pub open spec fn laid_out<S>(
    shown: Seq<ScreenInfo<S>>,
    tick_always: Seq<bool>,
    top_transparent: bool,
    w: i32,
    h: i32,
) -> Seq<ScreenInfo<S>> {
    let len = shown.len() as int;
    let top = shown.last();
    let changed = size_changed(top, w, h);
    let first = first_layout(top);
    Seq::new(
        shown.len(),
        |i: int|
            {
                let s = if i == len - 1 {
                    ScreenInfo { active: true, ..shown[i] }
                } else {
                    shown[i]
                };
                if changed && ((!first && resized(i, len, tick_always[i], top_transparent)) || (first && i == len
                    - 1)) {
                    ScreenInfo { last_width: w, last_height: h, ..s }
                } else {
                    s
                }
            },
    )
}

/// How many requested screens stay when closable screens are closed from
/// the top down: closing stops at the first screen that cannot be closed.
pub open spec fn kept_after_closing(closable: Seq<bool>, n: int) -> int
    decreases n,
{
    if n > 0 && closable[n - 1] {
        kept_after_closing(closable, n - 1)
    } else {
        n
    }
}

/// The lowest changed position once the requested stack was cut down to
/// `n` screens.
pub open spec fn lowered(lowest: Option<usize>, n: usize) -> Option<usize> {
    match lowest {
        None => Some(n),
        Some(l) => if n < l {
            Some(n)
        } else {
            Some(l)
        },
    }
}

/// What one tick of the screen system does, as one law over the shown
/// screens `shown`, the requested ones `requested` and the lowest changed
/// position `l` (what `tick_structure` and then `frame_plan` do):
/// - afterwards the shown screens are exactly the requested ones, in order,
///   and only the top one is active;
/// - every shown screen above `l` is torn down, right after being
///   deactivated if it was active, and these come first, the top first;
/// - every requested screen from `l` on is set up and right after made
///   active;
/// - the screens ticked are those that always tick and the top one, in
///   stack order, and none when nothing is requested.
pub proof fn lemma_tick_law<S>(
    shown: Seq<ScreenInfo<S>>,
    requested: Seq<S>,
    l: int,
    tick_always: Seq<bool>,
    top_transparent: bool,
    w: i32,
    h: i32,
)
    requires
        0 <= l <= shown.len(),
        l <= requested.len() <= usize::MAX,
        handles(shown).take(l) == requested.take(l),
        only_top_active(shown),
        tick_always.len() == requested.len(),
    ensures
        ({
            let pops = pop_actions(shown, l);
            let (pushed, actions) = push_all(shown.take(l), pops, requested.skip(l));
            let after = laid_out(pushed, tick_always, top_transparent, w, h);
            let len = requested.len() as int;
            let ticks = tick_positions(len, len, tick_always);
            &&& handles(after) == requested
            &&& only_top_active(after)
            &&& len > 0 ==> after.last().active
            &&& actions.take(pops.len() as int) == pops
            &&& forall|p: int|
                #![trigger shown[p]]
                l <= p < shown.len() ==> exists|k: int|
                    0 <= k < pops.len() && #[trigger] pops[k] == ScreenAction::Deinit(shown[p].screen) && (
                    shown[p].active ==> k >= 1 && pops[k - 1] == ScreenAction::Deactivate(shown[p].screen))
            &&& forall|j: int|
                #![trigger requested[j]]
                l <= j < len ==> exists|k: int|
                    pops.len() <= k && k + 1 < actions.len() && #[trigger] actions[k] == ScreenAction::Init(requested[j])
                        && actions[k + 1] == ScreenAction::Activate(requested[j])
            &&& forall|i: int| 0 <= i < len ==> (ticks.contains(i as usize) <==> ticked(i, len, tick_always[i]))
            &&& forall|a: int, b: int| 0 <= a < b < ticks.len() ==> ticks[a] < ticks[b]
            &&& len == 0 ==> ticks.len() == 0
        }),
{
    lemma_frame_shows_requested(shown, requested, l, tick_always, top_transparent, w, h);
    let pops = pop_actions(shown, l);
    let new = requested.skip(l);
    let actions = push_all(shown.take(l), pops, new).1;
    let len = requested.len() as int;
    if new.len() > 0 {
        lemma_push_all_hooks(shown.take(l), pops, new, 0);
    } else {
        assert(actions == pops);
        assert(actions.take(pops.len() as int) =~= pops);
    }
    assert forall|p: int| #![trigger shown[p]] l <= p < shown.len() implies exists|k: int|
        0 <= k < pops.len() && #[trigger] pops[k] == ScreenAction::Deinit(shown[p].screen) && (shown[p].active
            ==> k >= 1 && pops[k - 1] == ScreenAction::Deactivate(shown[p].screen)) by {
        lemma_pop_actions_hooks(shown, l, p);
    }
    assert forall|j: int| #![trigger requested[j]] l <= j < len implies exists|k: int|
        pops.len() <= k && k + 1 < actions.len() && #[trigger] actions[k] == ScreenAction::Init(requested[j])
            && actions[k + 1] == ScreenAction::Activate(requested[j]) by {
        lemma_push_all_hooks(shown.take(l), pops, new, j - l);
        assert(new[j - l] == requested[j]);
    }
    lemma_tick_positions(len, len, tick_always);
}

impl<S: Copy> ScreenSystem<S> {
    /// The screens requested.
    pub closed spec fn requested(&self) -> Seq<S> {
        self.pre_computed_screens@
    }

    /// The screens shown.
    pub closed spec fn shown(&self) -> Seq<ScreenInfo<S>> {
        self.screens@
    }

    /// The lowest position that changed since the last frame, if any.
    pub closed spec fn lowest(&self) -> Option<usize> {
        self.lowest_offset
    }

    /// Below the lowest changed position, the shown screens are the
    /// requested ones; with no change, all of them are.
    pub closed spec fn wf(&self) -> bool {
        &&& only_top_active(self.screens@)
        &&& match self.lowest_offset {
            None => handles(self.screens@) == self.pre_computed_screens@,
            Some(l) => {
                &&& l <= self.pre_computed_screens@.len()
                &&& l <= self.screens@.len()
                &&& handles(self.screens@).take(l as int) == self.pre_computed_screens@.take(l as int)
            },
        }
    }

    /// No screens.
    pub fn new() -> (r: Self)
        ensures
            r.wf(),
            r.requested() == Seq::<S>::empty(),
            r.shown() == Seq::<ScreenInfo<S>>::empty(),
            r.lowest() == Some(0usize),
    {
        let r = ScreenSystem { screens: Vec::new(), pre_computed_screens: Vec::new(), lowest_offset: Some(0) };
        proof {
            assert(handles(r.screens@).take(0) =~= r.pre_computed_screens@.take(0));
        }
        r
    }

    /// Requests a screen on top of the others.
    pub fn push_screen(&mut self, screen: S)
        requires
            old(self).wf(),
        ensures
            final(self).wf(),
            final(self).requested() == old(self).requested().push(screen),
            final(self).shown() == old(self).shown(),
            final(self).lowest() == match old(self).lowest() {
                None => Some(old(self).requested().len() as usize),
                Some(l) => Some(l),
            },
    {
        let new_offset = self.pre_computed_screens.len();
        let ghost before = self.pre_computed_screens@;
        self.pre_computed_screens.push(screen);
        if self.lowest_offset.is_none() {
            self.lowest_offset = Some(new_offset);
        }
        proof {
            if let Some(l) = self.lowest_offset {
                assert(self.pre_computed_screens@.take(l as int) =~= before.take(l as int));
                assert(handles(self.screens@).take(l as int) =~= before.take(l as int));
            }
        }
    }

    /// Removes the top requested screen, if there is one.
    pub fn pop_screen(&mut self)
        requires
            old(self).wf(),
        ensures
            final(self).wf(),
            final(self).shown() == old(self).shown(),
            old(self).requested().len() == 0 ==> final(self).requested() == old(self).requested() && final(self).lowest()
                == old(self).lowest(),
            old(self).requested().len() > 0 ==> {
                let n = (old(self).requested().len() - 1) as usize;
                &&& final(self).requested() == old(self).requested().drop_last()
                &&& final(self).lowest() == match old(self).lowest() {
                    None => Some(n),
                    Some(l) => if n < l {
                        Some(n)
                    } else {
                        Some(l)
                    },
                }
            },
    {
        if self.pre_computed_screens.len() > 0 {
            let ghost before = self.pre_computed_screens@;
            let ghost old_lowest = self.lowest_offset;
            self.pre_computed_screens.pop();
            let new_offset = self.pre_computed_screens.len();
            match self.lowest_offset {
                None => {
                    self.lowest_offset = Some(new_offset);
                },
                Some(l) => {
                    if new_offset < l {
                        self.lowest_offset = Some(new_offset);
                    }
                },
            }
            proof {
                assert(self.pre_computed_screens@ =~= before.drop_last());
                let hs = handles(self.screens@);
                let l = self.lowest_offset->Some_0;
                assert(self.pre_computed_screens@.take(l as int) =~= before.take(l as int));
                match old_lowest {
                    None => {
                        assert(hs.take(l as int) =~= before.take(l as int));
                    },
                    Some(l0) => {
                        assert(hs.take(l as int) =~= hs.take(l0 as int).take(l as int));
                        assert(before.take(l as int) =~= before.take(l0 as int).take(l as int));
                    },
                }
            }
        }
    }

    /// Closes requested screens from the top down while the top one is
    /// closable. `closable` tells for each requested screen whether it is.
    pub fn close_closable_screens(&mut self, closable: &[bool])
        requires
            old(self).wf(),
            closable@.len() == old(self).requested().len(),
        ensures
            final(self).wf(),
            final(self).shown() == old(self).shown(),
            final(self).requested() == old(self).requested().take(
                kept_after_closing(closable@, closable@.len() as int),
            ),
            final(self).lowest() == (if kept_after_closing(closable@, closable@.len() as int) == closable@.len() {
                old(self).lowest()
            } else {
                lowered(old(self).lowest(), kept_after_closing(closable@, closable@.len() as int) as usize)
            }),
    {
        let ghost req0 = self.requested();
        let ghost low0 = self.lowest();
        let ghost n0 = closable@.len() as int;
        proof {
            assert(req0.take(n0) =~= req0);
        }
        while self.pre_computed_screens.len() > 0 && closable[self.pre_computed_screens.len() - 1]
            invariant
                self.wf(),
                self.shown() == old(self).shown(),
                closable@.len() == req0.len(),
                n0 == req0.len(),
                self.requested().len() <= n0,
                self.requested() == req0.take(self.requested().len() as int),
                kept_after_closing(closable@, self.requested().len() as int) == kept_after_closing(closable@, n0),
                self.lowest() == (if self.requested().len() == n0 {
                    low0
                } else {
                    lowered(low0, self.requested().len() as usize)
                }),
            decreases self.requested().len(),
        {
            let ghost before = self.requested();
            self.pop_screen();
            proof {
                assert(self.requested() =~= req0.take(self.requested().len() as int));
            }
        }
        proof {
            let n = self.requested().len() as int;
            assert(kept_after_closing(closable@, n) == n);
        }
    }

    /// Replaces the top requested screen.
    pub fn replace_screen(&mut self, screen: S)
        requires
            old(self).wf(),
        ensures
            final(self).wf(),
            final(self).requested() == (if old(self).requested().len() > 0 {
                old(self).requested().drop_last()
            } else {
                old(self).requested()
            }).push(screen),
    {
        self.pop_screen();
        self.push_screen(screen);
    }

    /// The top requested screen, if any.
    pub fn current(&self) -> (r: Option<S>)
        ensures
            match r {
                Some(s) => self.requested().len() > 0 && s == self.requested().last(),
                None => self.requested().len() == 0,
            },
    {
        if self.pre_computed_screens.len() > 0 {
            Some(self.pre_computed_screens[self.pre_computed_screens.len() - 1])
        } else {
            None
        }
    }

    /// Brings the shown screens in line with the requested ones: the shown
    /// screens above the lowest changed position are removed, the top
    /// first, and the requested screens from that position on are shown, in
    /// order. `top_closable` tells whether the top shown screen (if any) can be
    /// closed; when it cannot and something changed, the cursor is to be
    /// centred.
    pub fn tick_structure(&mut self, top_closable: bool) -> (r: TickPlan<S>)
        requires
            old(self).wf(),
        ensures
            final(self).wf(),
            final(self).lowest() is None,
            only_top_active(final(self).shown()),
            handles(final(self).shown()) == final(self).requested(),
            final(self).requested() == old(self).requested(),
            match old(self).lowest() {
                None => final(self).shown() == old(self).shown() && r.actions@.len() == 0 && !r.center_cursor,
                Some(l) => {
                    let base = old(self).shown().take(l as int);
                    let pushed = push_all(
                        base,
                        pop_actions(old(self).shown(), l as int),
                        old(self).requested().skip(l as int),
                    );
                    &&& final(self).shown() == pushed.0
                    &&& r.actions@ == pushed.1
                    &&& r.center_cursor == !top_closable
                },
            },
    {
        let l = match self.lowest_offset {
            None => {
                return TickPlan { actions: Vec::new(), center_cursor: false };
            },
            Some(l) => l,
        };
        let ghost shown0 = self.screens@;
        let ghost pre = self.pre_computed_screens@;
        let mut actions: Vec<ScreenAction<S>> = Vec::new();
        // remove the shown screens above position l, the top first
        while self.screens.len() > l
            invariant
                l <= self.screens@.len() <= shown0.len(),
                self.screens@ == shown0.take(self.screens@.len() as int),
                actions@ + pop_actions(self.screens@, l as int) == pop_actions(shown0, l as int),
                self.pre_computed_screens@ == pre,
                self.lowest_offset == Some(l),
            decreases self.screens.len(),
        {
            let ghost cur = self.screens@;
            let ghost acts_before = actions@;
            let top = self.screens.pop().unwrap();
            proof {
                assert(self.screens@ =~= cur.drop_last());
                assert(self.screens@ =~= shown0.take(self.screens@.len() as int));
            }
            if top.active {
                actions.push(ScreenAction::Deactivate(top.screen));
            }
            actions.push(ScreenAction::Deinit(top.screen));
            proof {
                let first = if top.active {
                    seq![ScreenAction::Deactivate(top.screen), ScreenAction::Deinit(top.screen)]
                } else {
                    seq![ScreenAction::Deinit(top.screen)]
                };
                assert(pop_actions(cur, l as int) == first + pop_actions(cur.drop_last(), l as int));
                assert(actions@ =~= acts_before + first);
                assert((acts_before + first) + pop_actions(self.screens@, l as int) =~= acts_before + (first
                    + pop_actions(self.screens@, l as int)));
            }
        }
        proof {
            assert(pop_actions(self.screens@, l as int) =~= Seq::<ScreenAction<S>>::empty());
            assert(actions@ =~= pop_actions(shown0, l as int));
        }
        let ghost base = self.screens@;
        let ghost acts0 = actions@;
        proof {
            assert(handles(base) =~= handles(shown0).take(l as int));
        }
        let ghost news = pre.skip(l as int);
        // show the requested screens from position l on
        let mut j: usize = l;
        proof {
            assert(news.take(0) =~= Seq::<S>::empty());
        }
        while j < self.pre_computed_screens.len()
            invariant
                l <= j <= pre.len(),
                self.pre_computed_screens@ == pre,
                news == pre.skip(l as int),
                (self.screens@, actions@) == push_all(base, acts0, news.take(j - l)),
                handles(self.screens@) == pre.take(j as int),
            decreases pre.len() - j,
        {
            let s = self.pre_computed_screens[j];
            let ghost st = self.screens@;
            let ghost ac = actions@;
            proof {
                assert(news.take(j - l + 1).drop_last() =~= news.take(j - l));
                assert(news.take(j - l + 1).last() == s);
            }
            let n = self.screens.len();
            if n > 0 && self.screens[n - 1].active {
                let mut below = self.screens.pop().unwrap();
                below.active = false;
                actions.push(ScreenAction::DeactivateCovered(below.screen));
                self.screens.push(below);
                proof {
                    assert(self.screens@ =~= st.update(st.len() - 1, ScreenInfo { active: false, ..st.last() }));
                }
            }
            let ghost mid = self.screens@;
            proof {
                assert(handles(mid) =~= handles(st));
            }
            self.screens.push(ScreenInfo { screen: s, active: true, last_width: -1, last_height: -1 });
            actions.push(ScreenAction::Init(s));
            actions.push(ScreenAction::Activate(s));
            proof {
                assert(self.screens@ =~= mid.push(ScreenInfo { screen: s, active: true, last_width: -1i32, last_height: -1i32 }));
                assert(handles(self.screens@) =~= handles(mid).push(s));
                assert(pre.take(j as int + 1) =~= pre.take(j as int).push(s));
            }
            j = j + 1;
        }
        proof {
            assert(news.take(pre.len() - l) =~= news);
            assert(pre.take(pre.len() as int) =~= pre);
            assert(only_top_active(base)) by {
                assert forall|i: int| 0 <= i < base.len() - 1 implies !(#[trigger] base[i]).active by {
                    assert(base[i] == shown0[i]);
                }
            }
            lemma_push_all(base, acts0, news);
        }
        self.lowest_offset = None;
        TickPlan { actions, center_cursor: !top_closable }
    }

    /// Plans a frame once the shown screens are in line with the requested
    /// ones: the top screen is made active if it is not; when the window
    /// size differs from the one the top screen last laid itself out for,
    /// the screens that always tick, the top one and the one below a
    /// transparent top are laid out again (or, the first time, the top
    /// screen only records the size); the screens that always tick and the
    /// top one tick. `tick_always` tells for each shown screen whether it
    /// always ticks.
    pub fn frame_plan(&mut self, tick_always: &[bool], top_transparent: bool, width: u32, height: u32) -> (r:
        FramePlan)
        requires
            old(self).wf(),
            tick_always@.len() == old(self).shown().len(),
        ensures
            final(self).wf(),
            final(self).requested() == old(self).requested(),
            final(self).lowest() == old(self).lowest(),
            only_top_active(final(self).shown()),
            old(self).shown().len() == 0 ==> final(self).shown() == old(self).shown() && !r.activate_top
                && r.resize@.len() == 0 && r.tick@.len() == 0,
            old(self).shown().len() > 0 ==> {
                let len = old(self).shown().len() as int;
                let top = old(self).shown().last();
                let w = width as i32;
                let h = height as i32;
                &&& r.activate_top == !top.active
                &&& final(self).shown() == laid_out(old(self).shown(), tick_always@, top_transparent, w, h)
                &&& r.resize@ == (if size_changed(top, w, h) && !first_layout(top) {
                    resize_positions(len, len, tick_always@, top_transparent)
                } else {
                    Seq::empty()
                })
                &&& r.tick@ == tick_positions(len, len, tick_always@)
            },
    {
        let len = self.screens.len();
        let mut plan = FramePlan { activate_top: false, resize: Vec::new(), tick: Vec::new() };
        if len == 0 {
            return plan;
        }
        let ghost shown0 = self.screens@;
        let ghost target = laid_out(shown0, tick_always@, top_transparent, width as i32, height as i32);
        let w = width as i32;
        let h = height as i32;
        let mut top = self.screens[len - 1];
        if !top.active {
            top.active = true;
            plan.activate_top = true;
        }
        let changed = top.last_width != w || top.last_height != h;
        let first = top.last_width == -1 || top.last_height == -1;
        if changed && first {
            top.last_width = w;
            top.last_height = h;
        }
        self.screens.set(len - 1, top);
        let ghost start = self.screens@;
        proof {
            assert(handles(start) =~= handles(shown0));
        }
        let mut i: usize = 0;
        while i < len
            invariant
                len == self.screens@.len(),
                len == shown0.len(),
                len == tick_always@.len(),
                0 < len,
                i <= len,
                target == laid_out(shown0, tick_always@, top_transparent, w, h),
                start == shown0.update(len - 1, top),
                top.screen == shown0.last().screen,
                top.active,
                plan.activate_top == !shown0.last().active,
                w == width as i32,
                h == height as i32,
                changed == size_changed(shown0.last(), w, h),
                first == first_layout(shown0.last()),
                top.last_width == (if changed && first { w } else { shown0.last().last_width }),
                top.last_height == (if changed && first { h } else { shown0.last().last_height }),
                forall|k: int| 0 <= k < i ==> self.screens@[k] == target[k],
                forall|k: int| i <= k < len ==> self.screens@[k] == start[k],
                handles(self.screens@) == handles(shown0),
                self.pre_computed_screens@ == old(self).pre_computed_screens@,
                self.lowest_offset == old(self).lowest_offset,
                plan.resize@ == (if changed && !first {
                    resize_positions(i as int, len as int, tick_always@, top_transparent)
                } else {
                    Seq::empty()
                }),
                plan.tick@ == tick_positions(i as int, len as int, tick_always@),
            decreases len - i,
        {
            let ghost before = self.screens@;
            if changed && !first && (tick_always[i] || i == len - 1 || (top_transparent && i + 2 == len)) {
                plan.resize.push(i);
                let mut s = self.screens[i];
                s.last_width = w;
                s.last_height = h;
                self.screens.set(i, s);
            }
            if tick_always[i] || i == len - 1 {
                plan.tick.push(i);
            }
            proof {
                let k = i as int;
                let s0 = if k == len - 1 {
                    ScreenInfo { active: true, ..shown0[k] }
                } else {
                    shown0[k]
                };
                assert(target[k] == (if changed && ((!first && resized(k, len as int, tick_always@[k], top_transparent))
                    || (first && k == len - 1)) {
                    ScreenInfo { last_width: w, last_height: h, ..s0 }
                } else {
                    s0
                }));
                assert(before[k] == start[k]);
                if k == len - 1 {
                    assert(start[k] == top);
                } else {
                    assert(start[k] == shown0[k]);
                }
                assert(self.screens@[k] == target[k]);
                assert(handles(self.screens@) =~= handles(before));
            }
            i = i + 1;
        }
        proof {
            assert(self.screens@ =~= target);
        }
        plan
    }
}

} // verus!
