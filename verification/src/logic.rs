use vstd::prelude::*;

use crate::game::{LevelPhase, Scoreable};
use crate::span::Span;
use crate::text::{eq_ignore_ascii_case, eq_ignoring_ascii_case};

verus! {

/// One entity on a walk up the parent chain: whether it is what the walk
/// looks for, and whether it is the root of a scene (where walks stop).
#[derive(Debug, Clone, Copy, PartialEq, Eq, Structural)]
pub struct Link {
    pub is_target: bool,
    pub is_scene_root: bool,
}

/// Index `i` is where a walk up `chain` finds its target: the link is a
/// target, and no earlier link was a target or a scene root.
pub open spec fn owner_at(chain: Seq<Link>, i: int) -> bool {
    &&& 0 <= i < chain.len()
    &&& chain[i].is_target
    &&& forall|j: int| 0 <= j < i ==> !(#[trigger] chain[j]).is_target && !chain[j].is_scene_root
}

/// Walk `chain` (an entity, then its parents) until a target is found,
/// stopping without one at a scene root or at the top.
pub fn find_owner(chain: &Vec<Link>) -> (r: Option<usize>)
    ensures
        match r {
            Some(i) => owner_at(chain@, i as int),
            None => forall|i: int| !owner_at(chain@, i),
        },
{
    let mut i: usize = 0;
    while i < chain.len()
        invariant
            i <= chain@.len(),
            forall|j: int| 0 <= j < i ==> !(#[trigger] chain@[j]).is_target && !chain@[j].is_scene_root,
        decreases chain@.len() - i,
    {
        if chain[i].is_target {
            return Some(i);
        }
        if chain[i].is_scene_root {
            assert forall|k: int| !owner_at(chain@, k) by {
                if owner_at(chain@, k) && k > i {
                    let c = chain@[i as int];
                    assert(c.is_scene_root);
                }
            }
            return None;
        }
        i = i + 1;
    }
    None
}

/// A walk finds at most one owner: the first target, provided no scene
/// root comes before it.
pub proof fn lemma_owner_is_first_target(chain: Seq<Link>, i: int, j: int)
    ensures
        owner_at(chain, i) && owner_at(chain, j) ==> i == j,
{
    if owner_at(chain, i) && owner_at(chain, j) && i != j {
        if i < j {
            assert(!chain[i].is_target);
        } else {
            assert(!chain[j].is_target);
        }
    }
}

/// The other collider of a contact between `c1` and `c2`, if one of them
/// is `this`.
pub fn other_collider(this: u64, c1: u64, c2: u64) -> (r: Option<u64>)
    ensures
        r == if c1 == this {
            Some(c2)
        } else if c2 == this {
            Some(c1)
        } else {
            None::<u64>
        },
{
    if c1 == this {
        Some(c2)
    } else if c2 == this {
        Some(c1)
    } else {
        None
    }
}

pub open spec fn spec_other(this: u64, c: (u64, u64)) -> Option<u64> {
    if c.0 == this {
        Some(c.1)
    } else if c.1 == this {
        Some(c.0)
    } else {
        None
    }
}

/// Contact `i` has the switch touched by a player.
pub open spec fn player_touches(switch: u64, contacts: Seq<(u64, u64)>, players: Seq<u64>, i: int) -> bool {
    &&& 0 <= i < contacts.len()
    &&& spec_other(switch, contacts[i]) is Some
    &&& players.contains(spec_other(switch, contacts[i])->0)
}

/// Contact `i` is the first one in which a player touches the switch.
pub open spec fn first_touch(switch: u64, contacts: Seq<(u64, u64)>, players: Seq<u64>, i: int) -> bool {
    &&& player_touches(switch, contacts, players, i)
    &&& forall|j: int| 0 <= j < i ==> !player_touches(switch, contacts, players, j)
}

/// Toggle spawning when a player touches the switch: the first such contact
/// flips the state (and plays the "on" or "off" sound), and reading stops
/// there, leaving later contacts for the next frame. Returns the new state
/// and the position of the toggling contact, if any.
pub fn check_spawn_toggle(spawning: bool, switch: u64, contacts: &Vec<(u64, u64)>, players: &Vec<u64>) -> (r: (
    bool,
    Option<usize>,
))
    ensures
        match r.1 {
            Some(i) => first_touch(switch, contacts@, players@, i as int) && r.0 == !spawning,
            None => (forall|i: int| !player_touches(switch, contacts@, players@, i)) && r.0 == spawning,
        },
{
    let mut i: usize = 0;
    while i < contacts.len()
        invariant
            i <= contacts@.len(),
            forall|j: int| 0 <= j < i ==> !player_touches(switch, contacts@, players@, j),
        decreases contacts@.len() - i,
    {
        let (c1, c2) = contacts[i];
        assert(contacts@[i as int] == (c1, c2));
        if let Some(o) = other_collider(switch, c1, c2) {
            let mut k: usize = 0;
            while k < players.len()
                invariant
                    k <= players@.len(),
                    i < contacts@.len(),
                    contacts@[i as int] == (c1, c2),
                    spec_other(switch, (c1, c2)) == Some(o),
                    forall|m: int| 0 <= m < k ==> players@[m] != o,
                    forall|j: int| 0 <= j < i ==> !player_touches(switch, contacts@, players@, j),
                decreases players@.len() - k,
            {
                if players[k] == o {
                    assert(contacts@[i as int] == (c1, c2));
                    assert(players@[k as int] == o);
                    assert(player_touches(switch, contacts@, players@, i as int));
                    return (!spawning, Some(i));
                }
                k = k + 1;
            }
            assert(!players@.contains(o));
            assert(contacts@[i as int] == (c1, c2));
        } else {
            assert(contacts@[i as int] == (c1, c2));
        }
        i = i + 1;
    }
    (spawning, None)
}

/// A contact involves `this` when either collider is `this`, and the other
/// collider is then the one given back; the order in which a contact names
/// its two colliders does not matter.
pub proof fn lemma_contact_either_side(this: u64, a: u64, b: u64)
    ensures
        spec_other(this, (a, b)) is Some <==> (a == this || b == this),
        spec_other(this, (a, b)) matches Some(o) ==> (a == this && o == b) || (b == this && o == a),
        a != b ==> spec_other(this, (a, b)) == spec_other(this, (b, a)),
        spec_other(this, (this, b)) == Some(b),
        spec_other(this, (a, this)) == Some(a),
{
}

/// A player touches the switch in contact `i` exactly when that contact
/// pairs the switch with a player, whichever side each is on; swapping the
/// two colliders of the contact changes nothing.
pub proof fn lemma_touch_either_side(switch: u64, contacts: Seq<(u64, u64)>, players: Seq<u64>, i: int)
    ensures
        player_touches(switch, contacts, players, i) <==> (0 <= i < contacts.len() && exists|q: u64|
            #[trigger] players.contains(q) && (contacts[i] == (switch, q) || contacts[i] == (q, switch))),
        0 <= i < contacts.len() ==> (player_touches(switch, contacts, players, i) <==> player_touches(
            switch,
            contacts.update(i, (contacts[i].1, contacts[i].0)),
            players,
            i,
        )),
{
    if 0 <= i < contacts.len() {
        let c = contacts[i];
        let sw = contacts.update(i, (c.1, c.0));
        assert(sw[i] == (c.1, c.0));
        if player_touches(switch, contacts, players, i) {
            let q = spec_other(switch, c)->0;
            assert(players.contains(q));
            assert(c == (switch, q) || c == (q, switch));
        }
        if exists|q: u64| #[trigger] players.contains(q) && (c == (switch, q) || c == (q, switch)) {
            let q = choose|q: u64| #[trigger] players.contains(q) && (c == (switch, q) || c == (q, switch));
            if c == (switch, q) {
                assert(spec_other(switch, c) == Some(q));
            } else {
                assert(spec_other(switch, c) == Some(q));
            }
        }
    }
}

/// The score after catching something worth `scoreable.gain`.
pub fn score_gain(score: i32, scoreable: Scoreable) -> (r: i32)
    requires
        score + scoreable.gain <= i32::MAX,
    ensures
        r == score + scoreable.gain,
{
    score + scoreable.gain as i32
}

/// The score after losing something worth `scoreable.lose`.
pub fn score_loss(score: i32, scoreable: Scoreable) -> (r: i32)
    requires
        score - scoreable.lose >= i32::MIN,
    ensures
        r == score - scoreable.lose,
{
    score - scoreable.lose as i32
}

/// Losing what was caught returns the score to where it was, when the two
/// amounts agree.
pub proof fn lemma_gain_then_loss(score: i32, s: Scoreable)
    requires
        s.gain == s.lose,
        score + s.gain <= i32::MAX,
    ensures
        (score + s.gain) - s.lose == score,
{
}

/// One catch seen this frame: the spawned ball a contact with the net led
/// to, and what it is worth when it is scoreable.
#[derive(Debug, Clone, Copy, PartialEq, Eq, Structural)]
pub struct Catch {
    pub ball: u64,
    pub gain: Option<u8>,
}

pub open spec fn gain_of(c: Catch) -> int {
    match c.gain {
        Some(g) => g as int,
        None => 0,
    }
}

/// The balls caught by `catches`, each once, in the order first met.
pub open spec fn caught(catches: Seq<Catch>) -> Seq<u64>
    decreases catches.len(),
{
    if catches.len() == 0 {
        Seq::empty()
    } else {
        let before = caught(catches.drop_last());
        if before.contains(catches.last().ball) {
            before
        } else {
            before.push(catches.last().ball)
        }
    }
}

/// What `catches` add to the score: each ball's gain, counted once.
pub open spec fn gained(catches: Seq<Catch>) -> int
    decreases catches.len(),
{
    if catches.len() == 0 {
        0
    } else {
        let before = gained(catches.drop_last());
        if caught(catches.drop_last()).contains(catches.last().ball) {
            before
        } else {
            before + gain_of(catches.last())
        }
    }
}

/// Catching never lowers the score, and no ball is counted twice: the
/// balls caught are distinct and are exactly the balls of the catches.
pub proof fn lemma_catches_counted_once(catches: Seq<Catch>)
    ensures
        gained(catches) >= 0,
        caught(catches).no_duplicates(),
        forall|b: u64| caught(catches).contains(b) <==> exists|i: int| 0 <= i < catches.len() && (#[trigger] catches[i]).ball == b,
    decreases catches.len(),
{
    if catches.len() > 0 {
        let pre = catches.drop_last();
        lemma_catches_counted_once(pre);
        let last = catches.last();
        assert forall|b: u64| caught(catches).contains(b) <==> exists|i: int| 0 <= i < catches.len() && (#[trigger] catches[i]).ball == b by {
            if caught(catches).contains(b) {
                if caught(pre).contains(b) {
                    let i = choose|i: int| 0 <= i < pre.len() && (#[trigger] pre[i]).ball == b;
                    assert(catches[i] == pre[i]);
                } else {
                    assert(catches[catches.len() - 1].ball == b);
                }
            }
            if exists|i: int| 0 <= i < catches.len() && (#[trigger] catches[i]).ball == b {
                let i = choose|i: int| 0 <= i < catches.len() && (#[trigger] catches[i]).ball == b;
                if i < catches.len() - 1 {
                    assert(pre[i] == catches[i]);
                    assert(caught(pre).contains(b));
                    if !caught(pre).contains(last.ball) {
                        assert(caught(catches) == caught(pre).push(last.ball));
                        let j = choose|j: int| 0 <= j < caught(pre).len() && caught(pre)[j] == b;
                        assert(caught(catches)[j] == b);
                    }
                } else {
                    if !caught(pre).contains(last.ball) {
                        assert(caught(catches)[caught(pre).len() as int] == b);
                    }
                }
            }
        }
    }
}

/// Catches of balls already caught add nothing: a frame whose catches are
/// followed by any of them again scores and catches as the first part alone.
pub proof fn lemma_repeated_catches_add_nothing(catches: Seq<Catch>, k: int)
    requires
        0 <= k <= catches.len(),
    ensures
        gained(catches + catches.take(k)) == gained(catches),
        caught(catches + catches.take(k)) == caught(catches),
    decreases k,
{
    if k == 0 {
        assert(catches + catches.take(0) =~= catches);
    } else {
        lemma_repeated_catches_add_nothing(catches, k - 1);
        let s = catches + catches.take(k);
        assert(s.drop_last() =~= catches + catches.take(k - 1));
        assert(s.last() == catches[k - 1]);
        lemma_catches_counted_once(catches);
        assert(caught(catches).contains(catches[k - 1].ball));
    }
}

/// One catch scores its ball's gain, and the catches of two groups of
/// different balls score the sum of what each group scores.
pub proof fn lemma_catches_add_up(a: Seq<Catch>, b: Seq<Catch>, c: Catch)
    ensures
        gained(seq![c]) == gain_of(c),
        (forall|i: int, j: int| 0 <= i < a.len() && 0 <= j < b.len() ==> #[trigger] a[i].ball != #[trigger] b[j].ball)
            ==> gained(a + b) == gained(a) + gained(b),
    decreases b.len(),
{
    assert(seq![c].drop_last() =~= Seq::<Catch>::empty());
    assert(seq![c].last() == c);
    assert(caught(Seq::<Catch>::empty()) =~= Seq::<u64>::empty());
    assert(!caught(Seq::<Catch>::empty()).contains(c.ball));
    let one = seq![c];
    let none = Seq::<Catch>::empty();
    assert(one.drop_last() == none);
    assert(gained(none) == 0);
    assert(gained(one) == gained(one.drop_last()) + gain_of(one.last()));
    if b.len() == 0 {
        assert(a + b =~= a);
    } else if forall|i: int, j: int| 0 <= i < a.len() && 0 <= j < b.len() ==> #[trigger] a[i].ball != #[trigger] b[j].ball {
        let b1 = b.drop_last();
        assert forall|i: int, j: int| 0 <= i < a.len() && 0 <= j < b1.len() implies #[trigger] a[i].ball != #[trigger] b1[j].ball by {
            assert(b1[j] == b[j]);
        }
        lemma_catches_add_up(a, b1, c);
        let s = a + b;
        assert(s.drop_last() =~= a + b1);
        assert(s.last() == b.last());
        let x = b.last().ball;
        lemma_catches_counted_once(a + b1);
        lemma_catches_counted_once(b1);
        lemma_catches_counted_once(a);
        if caught(a + b1).contains(x) {
            let i = choose|i: int| 0 <= i < (a + b1).len() && (#[trigger] (a + b1)[i]).ball == x;
            if i < a.len() {
                assert((a + b1)[i] == a[i]);
                assert(b[b.len() - 1] == b.last());
                assert(a[i].ball != b[b.len() - 1].ball);
            } else {
                assert((a + b1)[i] == b1[i - a.len()]);
                assert(caught(b1).contains(x));
            }
        } else {
            if caught(b1).contains(x) {
                let j = choose|j: int| 0 <= j < b1.len() && (#[trigger] b1[j]).ball == x;
                assert((a + b1)[a.len() + j] == b1[j]);
            }
        }
    }
}

/// The first `n` catches add no more than all of them.
proof fn lemma_gained_prefix(catches: Seq<Catch>, n: int)
    requires
        0 <= n <= catches.len(),
    ensures
        gained(catches.take(n)) <= gained(catches),
    decreases catches.len(),
{
    if n < catches.len() {
        let pre = catches.drop_last();
        assert(pre.take(n) =~= catches.take(n));
        lemma_gained_prefix(pre, n);
    } else {
        assert(catches.take(n) =~= catches);
    }
}

/// Score a frame's catches: each ball counts once however many contacts led
/// to it (the first one is kept, later ones ignored). Returns the new score
/// and the balls caught, in the order first met; `None` when the new score
/// does not fit an `i32` (where adding to the score overflows).
pub fn score_catches(score: i32, catches: &Vec<Catch>) -> (r: Option<(i32, Vec<u64>)>)
    ensures
        r is None <==> score + gained(catches@) > i32::MAX,
        r matches Some(v) ==> {
            &&& v.0 == score + gained(catches@)
            &&& v.1@ == caught(catches@)
            &&& v.0 >= score
            &&& v.1@.no_duplicates()
            &&& forall|b: u64| v.1@.contains(b) <==> exists|i: int| 0 <= i < catches@.len() && (#[trigger] catches@[i]).ball == b
        },
{
    proof {
        lemma_catches_counted_once(catches@);
    }
    let mut total = score;
    let mut balls: Vec<u64> = Vec::new();
    let mut i: usize = 0;
    assert(catches@.take(0) =~= Seq::<Catch>::empty());
    while i < catches.len()
        invariant
            i <= catches@.len(),
            total == score + gained(catches@.take(i as int)),
            balls@ == caught(catches@.take(i as int)),
        decreases catches@.len() - i,
    {
        let c = catches[i];
        let ghost pre = catches@.take(i as int);
        let ghost next = catches@.take(i + 1);
        assert(next.drop_last() =~= pre);
        assert(next.last() == c);
        let mut k: usize = 0;
        while k < balls.len() && balls[k] != c.ball
            invariant
                k <= balls@.len(),
                forall|j: int| 0 <= j < k ==> balls@[j] != c.ball,
            decreases balls@.len() - k,
        {
            k = k + 1;
        }
        if k < balls.len() {
            assert(balls@[k as int] == c.ball);
            assert(balls@.contains(c.ball));
        } else {
            assert(!balls@.contains(c.ball));
            let g: i32 = match c.gain {
                Some(v) => v as i32,
                None => 0,
            };
            match total.checked_add(g) {
                Some(t) => {
                    total = t;
                },
                None => {
                    proof {
                        lemma_gained_prefix(catches@, i + 1);
                    }
                    return None;
                },
            }
            balls.push(c.ball);
        }
        i = i + 1;
    }
    assert(catches@.take(i as int) =~= catches@);
    Some((total, balls))
}

/// Fire presses and releases held back while the in-hand item was animating.
#[derive(Debug, Clone, Copy, PartialEq, Eq, Structural)]
pub struct FireLatch {
    pub pressed: bool,
    pub released: bool,
}

/// The fire button this frame.
#[derive(Debug, Clone, Copy, PartialEq, Eq, Structural)]
pub struct FireInput {
    pub just_pressed: bool,
    pub just_released: bool,
    pub released: bool,
}

/// What to do with the in-hand item (and the player's catching mark).
#[derive(Debug, Clone, Copy, PartialEq, Eq, Structural)]
pub enum HandAction {
    Keep,
    /// Bring the item up and start catching.
    Show,
    /// Put the item away and stop catching.
    Hide,
}

/// The fire button decision, stated directly:
/// - the item shows on a press while nothing animates, or in the frame after
///   a press was held back;
/// - it hides on a release while nothing animates, or, with the button still
///   up, in a frame after a release was held back;
/// - showing wins over hiding;
/// - a press or release made while the item animates is held back (kept
///   latched), and a latch is cleared once it has been acted on.
pub open spec fn spec_fire(latch: FireLatch, input: FireInput, animating: bool) -> (FireLatch, HandAction) {
    let show = (input.just_pressed && !animating) || (!input.just_pressed && latch.pressed);
    let hide = (input.just_released && !animating) || (!input.just_released && input.released
        && latch.released);
    let pressed = if input.just_pressed {
        latch.pressed || animating
    } else {
        false
    };
    let released = if input.just_released {
        latch.released || animating
    } else if input.released {
        false
    } else {
        latch.released
    };
    let action = if show {
        HandAction::Show
    } else if hide {
        HandAction::Hide
    } else {
        HandAction::Keep
    };
    (FireLatch { pressed, released }, action)
}

/// Decide whether the in-hand item appears or goes away: a press or release
/// while the item still animates is held back and acted on in the next
/// frame; showing wins over hiding.
pub fn check_fire(latch: &mut FireLatch, input: FireInput, animating: bool) -> (a: HandAction)
    ensures
        (*final(latch), a) == spec_fire(*old(latch), input, animating),
{
    let show = if input.just_pressed {
        if !animating {
            true
        } else {
            latch.pressed = true;
            false
        }
    } else {
        if latch.pressed {
            latch.pressed = false;
            true
        } else {
            false
        }
    };
    let hide = if input.just_released {
        if !animating {
            true
        } else {
            latch.released = true;
            false
        }
    } else if input.released {
        if latch.released {
            latch.released = false;
            true
        } else {
            false
        }
    } else {
        false
    };
    if show {
        HandAction::Show
    } else if hide {
        HandAction::Hide
    } else {
        HandAction::Keep
    }
}

/// A press made while the item animates is not lost: it shows the item in
/// the next frame without a new press, whether or not it still animates.
pub proof fn lemma_held_press_shows_next(latch: FireLatch, input: FireInput, next: FireInput, anim_next: bool)
    requires
        input.just_pressed,
        !next.just_pressed,
    ensures
        spec_fire(spec_fire(latch, input, true).0, next, anim_next).1 == HandAction::Show,
        !spec_fire(spec_fire(latch, input, true).0, next, anim_next).0.pressed,
{
}

/// A release made while the item animates hides it in the next frame in
/// which the button is still up (unless a press comes first).
pub proof fn lemma_held_release_hides_next(latch: FireLatch, input: FireInput, next: FireInput, anim_next: bool)
    requires
        input.just_released,
        !input.just_pressed,
        !latch.pressed,
        !next.just_pressed,
        !next.just_released,
        next.released,
    ensures
        spec_fire(spec_fire(latch, input, true).0, next, anim_next).1 == HandAction::Hide,
{
}

/// The item moves only on a press, a release, or one held back: with no
/// latch set and neither a press nor a release this frame nothing happens
/// and no latch gets set. It shows only on a press made while nothing
/// animates or on a held-back press; it hides only on a release made while
/// nothing animates, or on a held-back release with the button still up and
/// no press this frame.
pub proof fn lemma_fire_needs_a_press_or_release(latch: FireLatch, input: FireInput, animating: bool)
    ensures
        !latch.pressed && !latch.released && !input.just_pressed && !input.just_released ==> spec_fire(
            latch,
            input,
            animating,
        ) == (FireLatch { pressed: false, released: false }, HandAction::Keep),
        spec_fire(latch, input, animating).1 == HandAction::Show ==> (input.just_pressed && !animating)
            || (!input.just_pressed && latch.pressed),
        spec_fire(latch, input, animating).1 == HandAction::Hide ==> !((input.just_pressed && !animating)
            || (!input.just_pressed && latch.pressed)) && ((input.just_released && !animating) || (
        !input.just_released && input.released && latch.released)),
        input.just_pressed && !animating ==> spec_fire(latch, input, animating).1 == HandAction::Show,
        input.just_pressed && animating ==> spec_fire(latch, input, animating).0.pressed,
        input.just_released && animating ==> spec_fire(latch, input, animating).0.released,
        !input.just_pressed ==> !spec_fire(latch, input, animating).0.pressed,
{
}

/// The debug keys that end a level at once: a forced win beats a forced
/// loss (it is set last).
pub fn forced_outcome(force_lose: bool, force_win: bool) -> (p: Option<LevelPhase>)
    ensures
        p == if force_win {
            Some(LevelPhase::Won)
        } else if force_lose {
            Some(LevelPhase::Lost)
        } else {
            None::<LevelPhase>
        },
{
    if force_win {
        Some(LevelPhase::Won)
    } else if force_lose {
        Some(LevelPhase::Lost)
    } else {
        None
    }
}

/// What to do with the sloshing sound.
#[derive(Debug, Clone, Copy, PartialEq, Eq, Structural)]
pub enum ShakeSound {
    Keep,
    Start,
    Stop,
}

/// Track how long shaking went on: while the base shakes the clock grows by
/// the frame time (starting the sound if it is not playing); afterwards it
/// runs down, and the sound stops once it reaches zero.
pub fn shake_clock_step(clock: &mut Span, shaking: bool, delta: Span, sound_playing: bool) -> (s: ShakeSound)
    requires
        old(clock).valid(),
        delta.valid(),
        shaking ==> old(clock).total() + delta.total() <= Span::max_total(),
    ensures
        final(clock).valid(),
        shaking ==> final(clock).total() == old(clock).total() + delta.total(),
        !shaking && old(clock).total() == 0 ==> final(clock).total() == 0,
        !shaking && old(clock).total() != 0 ==> final(clock).total() == if old(clock).total()
            >= delta.total() {
            old(clock).total() - delta.total()
        } else {
            0
        },
        s == if shaking {
            if sound_playing {
                ShakeSound::Keep
            } else {
                ShakeSound::Start
            }
        } else if old(clock).total() != 0 && final(clock).total() == 0 && sound_playing {
            ShakeSound::Stop
        } else {
            ShakeSound::Keep
        },
{
    if shaking {
        let start = !sound_playing;
        *clock = clock.add(&delta);
        if start {
            ShakeSound::Start
        } else {
            ShakeSound::Keep
        }
    } else {
        if !clock.is_zero() {
            *clock = clock.saturating_sub(&delta);
            if clock.is_zero() && sound_playing {
                return ShakeSound::Stop;
            }
        }
        ShakeSound::Keep
    }
}

/// At most this many spawned things exist at once.
pub const MAX_SPAWNED: usize = 100;

/// Whether the generators may spawn this frame.
pub fn may_spawn_ball(spawning: bool, spawned_count: usize) -> (b: bool)
    ensures
        b == (spawning && spawned_count < MAX_SPAWNED),
{
    spawning && spawned_count < MAX_SPAWNED
}

/// When the in-hand item's animation completes it is shown, unless its
/// collider is disabled (it was put away).
pub fn in_hand_visible(collider_disabled: bool) -> (visible: bool)
    ensures
        visible == !collider_disabled,
{
    !collider_disabled
}

/// Number of targets a walk up `chain` passes: targets up to and including
/// the first scene root.
pub open spec fn targets_before_stop(chain: Seq<Link>) -> nat
    decreases chain.len(),
{
    if chain.len() == 0 {
        0
    } else {
        let here: nat = if chain[0].is_target {
            1
        } else {
            0
        };
        if chain[0].is_scene_root {
            here
        } else {
            here + targets_before_stop(chain.drop_first())
        }
    }
}

pub open spec fn is_target_link(l: Link) -> bool {
    l.is_target
}

/// The targets among the first `n` links.
pub open spec fn targets_in(chain: Seq<Link>, n: int) -> nat {
    chain.take(n).filter(|l: Link| is_target_link(l)).len()
}

proof fn lemma_targets_in_step(chain: Seq<Link>, n: int)
    requires
        0 < n <= chain.len(),
    ensures
        targets_in(chain, n) == (if chain[0].is_target { 1nat } else { 0nat }) + targets_in(chain.drop_first(), n - 1),
{
    let f = |l: Link| is_target_link(l);
    let head = seq![chain[0]];
    let tail = chain.drop_first().take(n - 1);
    assert(chain.take(n) =~= head + tail);
    Seq::filter_distributes_over_add(head, tail, f);
    reveal_with_fuel(Seq::filter, 2);
    assert(head.drop_last() =~= Seq::<Link>::empty());
    if chain[0].is_target {
        assert(head.filter(f) =~= head);
    } else {
        assert(head.filter(f) =~= Seq::<Link>::empty());
    }
}

/// A walk up `chain` counts every target it passes, up to and including the
/// first scene root (a scene root that is itself a target counts): when the
/// first scene root is link `n - 1`, the count is the number of targets
/// among the first `n` links; with no scene root, among all links.
pub proof fn lemma_targets_before_stop_counts(chain: Seq<Link>, n: int)
    ensures
        0 < n <= chain.len() && chain[n - 1].is_scene_root && (forall|j: int| 0 <= j < n - 1 ==> !(#[trigger] chain[j]).is_scene_root)
            ==> targets_before_stop(chain) == targets_in(chain, n),
        n == chain.len() && (forall|j: int| 0 <= j < chain.len() ==> !(#[trigger] chain[j]).is_scene_root)
            ==> targets_before_stop(chain) == targets_in(chain, n),
        chain.len() > 0 && chain[0].is_target && chain[0].is_scene_root ==> targets_before_stop(chain) == 1,
    decreases chain.len(),
{
    if chain.len() > 0 {
        let rest = chain.drop_first();
        if chain[0].is_scene_root {
            lemma_targets_in_step(chain, 1);
            assert(rest.take(0) =~= Seq::<Link>::empty());
            assert(targets_in(rest, 0) == 0) by {
                reveal(Seq::filter);
            }
        }
        if 0 < n <= chain.len() && chain[n - 1].is_scene_root && (forall|j: int| 0 <= j < n - 1 ==> !(#[trigger] chain[j]).is_scene_root) {
            lemma_targets_in_step(chain, n);
            if n > 1 {
                assert(!chain[0].is_scene_root);
                assert forall|j: int| 0 <= j < n - 2 implies !(#[trigger] rest[j]).is_scene_root by {
                    assert(rest[j] == chain[j + 1]);
                }
                assert(rest[n - 2] == chain[n - 1]);
                lemma_targets_before_stop_counts(rest, n - 1);
            } else {
                assert(rest.take(0) =~= Seq::<Link>::empty());
                assert(targets_in(rest, 0) == 0) by {
                    reveal(Seq::filter);
                }
            }
        }
        if n == chain.len() && (forall|j: int| 0 <= j < chain.len() ==> !(#[trigger] chain[j]).is_scene_root) {
            lemma_targets_in_step(chain, n);
            assert forall|j: int| 0 <= j < rest.len() implies !(#[trigger] rest[j]).is_scene_root by {
                assert(rest[j] == chain[j + 1]);
            }
            lemma_targets_before_stop_counts(rest, n - 1);
        }
    } else {
        if n == 0 {
            assert(chain.take(0) =~= Seq::<Link>::empty());
            reveal(Seq::filter);
        }
    }
}

pub open spec fn min_nat(a: nat, b: nat) -> nat {
    if a <= b {
        a
    } else {
        b
    }
}

/// Collision sounds queued after a walk up `chain`: each spawned ancestor
/// adds one, the walk stops at a scene root, and it also stops once three
/// are queued (checked after each addition).
pub fn collision_sounds(chain: &Vec<Link>, queued: usize) -> (r: usize)
    requires
        queued + chain@.len() <= usize::MAX,
    ensures
        r == queued + min_nat(
            targets_before_stop(chain@),
            if queued >= 3 {
                1
            } else {
                (3 - queued) as nat
            },
        ),
{
    let ghost cap: int = if queued >= 3 {
        1
    } else {
        3 - queued
    };
    let mut count = queued;
    let mut i: usize = 0;
    assert(chain@.skip(0) =~= chain@);
    while i < chain.len()
        invariant
            i <= chain@.len(),
            queued <= count <= queued + i,
            queued + chain@.len() <= usize::MAX,
            cap == (if queued >= 3 {
                1
            } else {
                3 - queued
            }),
            count - queued < cap,
            (count - queued) + targets_before_stop(chain@.skip(i as int)) == targets_before_stop(
                chain@,
            ),
        decreases chain@.len() - i,
    {
        let ghost rest = chain@.skip(i as int);
        assert(rest.drop_first() =~= chain@.skip(i + 1));
        assert(rest[0] == chain@[i as int]);
        if chain[i].is_target {
            count = count + 1;
            if count >= 3 {
                return count;
            }
        }
        if chain[i].is_scene_root {
            return count;
        }
        i = i + 1;
    }
    assert(chain@.skip(i as int).len() == 0);
    count
}

/// Whether catching is possible: exactly one player is catching and there
/// is a net.
pub fn may_catch(catching_players: usize, net_present: bool) -> (b: bool)
    ensures
        b == (catching_players == 1 && net_present),
{
    catching_players == 1 && net_present
}

pub open spec fn opt_name_view(o: Option<String>) -> Option<Seq<char>> {
    match o {
        Some(s) => Some(s@),
        None => None,
    }
}

/// Some entity on the walk up (the mesh, then its parents) is named `name`,
/// ignoring ASCII case.
pub open spec fn spec_owner_name_is(names: Seq<Option<Seq<char>>>, name: Seq<char>) -> bool {
    exists|i: int| 0 <= i < names.len() && name_matches(#[trigger] names[i], name)
}

/// A name that is there and equals `name` ignoring ASCII case.
pub open spec fn name_matches(o: Option<Seq<char>>, name: Seq<char>) -> bool {
    match o {
        Some(n) => eq_ignoring_ascii_case(n, name),
        None => false,
    }
}

/// Whether a mesh or one of its parents (their names listed from the mesh
/// upward, `None` for unnamed ones) is named `name`, ignoring ASCII case.
pub fn owner_name_is(names: &Vec<Option<String>>, name: &str) -> (b: bool)
    ensures
        b == spec_owner_name_is(names@.map_values(|o: Option<String>| opt_name_view(o)), name@),
{
    let ghost v = names@.map_values(|o: Option<String>| opt_name_view(o));
    let mut i: usize = 0;
    while i < names.len()
        invariant
            i <= names@.len(),
            v == names@.map_values(|o: Option<String>| opt_name_view(o)),
            forall|j: int| 0 <= j < i ==> !name_matches(#[trigger] v[j], name@),
        decreases names@.len() - i,
    {
        assert(v[i as int] == opt_name_view(names@[i as int]));
        match &names[i] {
            Some(n) => {
                if eq_ignore_ascii_case(n.as_str(), name) {
                    return true;
                }
            },
            None => {},
        }
        i = i + 1;
    }
    false
}

/// Meshes of the "Base" or "Tube" models collide by their triangle mesh.
pub fn wants_trimesh_collider(names: &Vec<Option<String>>) -> (b: bool)
    ensures
        b == (spec_owner_name_is(names@.map_values(|o: Option<String>| opt_name_view(o)), "Base"@)
            || spec_owner_name_is(names@.map_values(|o: Option<String>| opt_name_view(o)), "Tube"@)),
{
    owner_name_is(names, "Base") || owner_name_is(names, "Tube")
}

/// The mesh named "BaseX" (any ASCII case) is the base to shake.
pub fn is_base_mesh(gltf_name: &str) -> (b: bool)
    ensures
        b == eq_ignoring_ascii_case(gltf_name@, "BaseX"@),
{
    eq_ignore_ascii_case(gltf_name, "BaseX")
}

} // verus!

