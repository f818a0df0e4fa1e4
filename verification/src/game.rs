use vstd::prelude::*;
use vstd::multiset::Multiset;
use vstd::seq_lib::*;

use crate::states::{GameplayState, OverlayState, PauseState, ProgramState};
use crate::text::{lex_lt, lemma_lex_lt_irreflexive, lemma_lex_lt_transitive, lemma_lex_lt_trichotomy, str_eq, str_lt};

verus! {

/// Progress of the level in play.
#[derive(Debug, Clone, Copy, PartialEq, Eq, Structural)]
pub enum LevelPhase {
    /// A level is being spawned.
    Initializing,
    /// The level's scene is in the world.
    LevelLoaded,
    /// Waiting for the level's skybox and reflections.
    LoadingSkybox,
    /// The level is being played.
    Playing,
    /// The score goal was reached.
    Won,
    /// The score fell to the losing mark.
    Lost,
    /// Switching levels (or restarting this one).
    Advance,
}

/// A playable level: its id, its label, and the scene it is built from.
pub struct GameLevel<S> {
    pub id: String,
    pub label: String,
    pub scene: S,
}

/// The list of levels, played in order.
pub struct LevelList<S>(pub Vec<GameLevel<S>>);

/// The ids of `levels` never decrease.
pub open spec fn sorted_by_id<S>(levels: Seq<GameLevel<S>>) -> bool {
    forall|i: int, j: int| 0 <= i < j < levels.len() ==> !lex_lt(levels[j].id@, levels[i].id@)
}

/// The levels of `levels` whose id is `id`, in their order.
pub open spec fn with_id<S>(levels: Seq<GameLevel<S>>, id: Seq<char>) -> Seq<GameLevel<S>> {
    levels.filter(|l: GameLevel<S>| l.id@ == id)
}

proof fn lemma_with_id_add<S>(a: Seq<GameLevel<S>>, b: Seq<GameLevel<S>>, id: Seq<char>)
    ensures
        with_id(a + b, id) == with_id(a, id) + with_id(b, id),
{
    Seq::filter_distributes_over_add(a, b, |l: GameLevel<S>| l.id@ == id);
}

proof fn lemma_with_id_single<S>(e: GameLevel<S>, id: Seq<char>)
    ensures
        with_id(seq![e], id) == if e.id@ == id {
            seq![e]
        } else {
            Seq::<GameLevel<S>>::empty()
        },
{
    reveal_with_fuel(Seq::filter, 2);
    assert(seq![e].drop_last() =~= Seq::<GameLevel<S>>::empty());
    assert(with_id(seq![e], id) =~= if e.id@ == id {
        seq![e]
    } else {
        Seq::<GameLevel<S>>::empty()
    });
}

proof fn lemma_with_id_none<S>(levels: Seq<GameLevel<S>>, id: Seq<char>)
    requires
        forall|i: int| 0 <= i < levels.len() ==> (#[trigger] levels[i]).id@ != id,
    ensures
        with_id(levels, id) =~= Seq::<GameLevel<S>>::empty(),
    decreases levels.len(),
{
    reveal(Seq::filter);
    if levels.len() > 0 {
        lemma_with_id_none(levels.drop_last(), id);
        assert(levels.last() == levels[levels.len() - 1]);
    }
}

/// Sort the level list by id, stably: the ids never decrease, and the
/// levels sharing an id keep their order (so the result is determined by
/// the input).
pub fn ensure_levels<S>(level_list: &mut LevelList<S>)
    ensures
        sorted_by_id(final(level_list).0@),
        forall|id: Seq<char>| #[trigger] with_id(final(level_list).0@, id) == with_id(old(level_list).0@, id),
        final(level_list).0@.to_multiset() == old(level_list).0@.to_multiset(),
{
    broadcast use group_to_multiset_ensures;

    let mut rest: Vec<GameLevel<S>> = Vec::new();
    std::mem::swap(&mut rest, &mut level_list.0);
    let ghost orig = rest@;
    let mut sorted: Vec<GameLevel<S>> = Vec::new();
    assert(orig.skip(orig.len() as int) =~= Seq::<GameLevel<S>>::empty());
    assert forall|id: Seq<char>| #[trigger] with_id(sorted@, id) == with_id(orig.skip(rest@.len() as int), id) by {
        lemma_with_id_none(sorted@, id);
        lemma_with_id_none(orig.skip(rest@.len() as int), id);
    }
    while rest.len() > 0
        invariant
            rest@.len() <= orig.len(),
            rest@ == orig.take(rest@.len() as int),
            sorted_by_id(sorted@),
            forall|id: Seq<char>| #[trigger] with_id(sorted@, id) == with_id(orig.skip(rest@.len() as int), id),
            sorted@.to_multiset().add(rest@.to_multiset()) == orig.to_multiset(),
        decreases rest@.len(),
    {
        let ghost before = rest@;
        let ghost n = before.len() as int;
        let e = rest.pop().unwrap();
        assert(before =~= rest@.push(e));
        assert(rest@ =~= orig.take(n - 1));
        assert(orig.skip(n - 1) =~= seq![e] + orig.skip(n));
        let mut p: usize = 0;
        while p < sorted.len() && str_lt(sorted[p].id.as_str(), e.id.as_str())
            invariant
                p <= sorted@.len(),
                forall|j: int| 0 <= j < p ==> lex_lt(#[trigger] sorted@[j].id@, e.id@),
            decreases sorted@.len() - p,
        {
            p = p + 1;
        }
        let ghost s0 = sorted@;
        assert(p < s0.len() ==> !lex_lt(s0[p as int].id@, e.id@));
        sorted.insert(p, e);
        assert(sorted@ =~= s0.insert(p as int, e));
        assert forall|i: int, j: int| 0 <= i < j < sorted@.len() implies !lex_lt(
            sorted@[j].id@,
            sorted@[i].id@,
        ) by {
            if i < p && j == p {
                lemma_lex_lt_trichotomy(s0[i].id@, e.id@);
            } else if i == p {
                let k = j - 1;
                assert(sorted@[j] == s0[k]);
                if lex_lt(s0[k].id@, e.id@) {
                    lemma_lex_lt_trichotomy(s0[p as int].id@, e.id@);
                    if s0[p as int].id@ == e.id@ {
                        assert(lex_lt(s0[k].id@, s0[p as int].id@));
                    } else {
                        lemma_lex_lt_transitive(s0[k].id@, e.id@, s0[p as int].id@);
                    }
                    if k == p {
                        lemma_lex_lt_irreflexive(s0[k].id@);
                    }
                }
            } else if i < p && j > p {
                assert(sorted@[i] == s0[i]);
                assert(sorted@[j] == s0[j - 1]);
            } else if i > p {
                assert(sorted@[i] == s0[i - 1]);
                assert(sorted@[j] == s0[j - 1]);
            } else {
                assert(sorted@[i] == s0[i]);
                assert(sorted@[j] == s0[j]);
            }
        }
        assert forall|id: Seq<char>| #[trigger] with_id(sorted@, id) == with_id(orig.skip(rest@.len() as int), id) by {
            let front = s0.take(p as int);
            let back = s0.skip(p as int);
            assert(s0 =~= front + back);
            assert(sorted@ =~= front + (seq![e] + back));
            lemma_with_id_add(front, back, id);
            lemma_with_id_add(front, seq![e] + back, id);
            lemma_with_id_add(seq![e], back, id);
            lemma_with_id_add(seq![e], orig.skip(n), id);
            lemma_with_id_single(e, id);
            if e.id@ == id {
                assert forall|i: int| 0 <= i < front.len() implies (#[trigger] front[i]).id@ != id by {
                    assert(front[i] == s0[i]);
                    lemma_lex_lt_irreflexive(e.id@);
                }
                lemma_with_id_none(front, id);
            }
        }
        proof {
            to_multiset_insert(s0, p as int, e);
            to_multiset_build(rest@, e);
            assert(sorted@.to_multiset().add(rest@.to_multiset()) =~= orig.to_multiset());
        }
    }
    assert(orig.skip(0) =~= orig);
    assert(rest@.to_multiset() =~= Multiset::empty());
    assert(sorted@.to_multiset() =~= orig.to_multiset());
    level_list.0 = sorted;
}

/// Seconds between winning or losing and moving on.
pub const END_LEVEL_DELAY_SECS: u64 = 3;

/// The level index into [`LevelList`].
#[derive(Debug, Clone, Copy, PartialEq, Eq, Structural)]
pub struct LevelIndex(pub usize);

/// The current score.
#[derive(Debug, Clone, Copy, PartialEq, Eq, Structural)]
pub struct CurrentScore {
    pub score: i32,
}

/// Score marks of a level (placed on its root).
#[derive(Debug, Clone, Copy, PartialEq, Eq, Structural)]
pub struct ScoreGoal {
    /// Score to win.
    pub goal: u32,
    /// Score to lose.
    pub lose: i32,
}

/// What a spawned thing is worth.
#[derive(Debug, Clone, Copy, PartialEq, Eq, Structural)]
pub struct Scoreable {
    /// How many to add if the entity is gained.
    pub gain: u8,
    /// How many to take if the entity is lost.
    pub lose: u8,
}

/// Run condition: the current level (if any) has the given id.
pub fn is_in_level<S>(level: Option<&GameLevel<S>>, id: &str) -> (b: bool)
    ensures
        b == (match level {
            Some(l) => l.id@ == id@,
            None => false,
        }),
{
    match level {
        Some(l) => str_eq(l.id.as_str(), id),
        None => false,
    }
}

/// The level to spawn: the one at the current index, or none (an error)
/// when the index is past the list.
pub fn spawn_level<'a, S>(level_list: &'a LevelList<S>, level_index: LevelIndex) -> (r: Option<
    &'a GameLevel<S>,
>)
    ensures
        r is Some <==> level_index.0 < level_list.0@.len(),
        r matches Some(l) ==> *l == level_list.0@[level_index.0 as int],
{
    if level_index.0 >= level_list.0.len() {
        return None;
    }
    Some(&level_list.0[level_index.0])
}

/// Entering level setup: hold the menu pause while the loading overlay is
/// up; the level starts initializing.
pub fn level_spawn_started(pause: &mut PauseState) -> (r: (LevelPhase, OverlayState))
    ensures
        final(pause).menu_paused,
        final(pause).user_paused == old(pause).user_paused,
        r == (LevelPhase::Initializing, OverlayState::Loading),
{
    pause.set_menu_paused(true);
    (LevelPhase::Initializing, OverlayState::Loading)
}

/// Leaving level setup: hide the overlay, release the menu pause (the
/// user's own pause stays), and mark the level loaded.
pub fn level_spawn_finished(pause: &mut PauseState) -> (r: (OverlayState, LevelPhase))
    ensures
        !final(pause).menu_paused,
        final(pause).user_paused == old(pause).user_paused,
        r == (OverlayState::Hidden, LevelPhase::LevelLoaded),
{
    pause.set_menu_paused(false);
    (OverlayState::Hidden, LevelPhase::LevelLoaded)
}

/// Once the level is loaded: wait for its skybox if the level selects one,
/// else start playing.
pub fn start_skybox_setup(has_skybox_selection: bool) -> (p: LevelPhase)
    ensures
        p == if has_skybox_selection {
            LevelPhase::LoadingSkybox
        } else {
            LevelPhase::Playing
        },
{
    if has_skybox_selection {
        LevelPhase::LoadingSkybox
    } else {
        LevelPhase::Playing
    }
}

/// Standing of a score against a level's marks.
#[derive(Debug, Clone, Copy, PartialEq, Eq, Structural)]
pub enum ScoreVerdict {
    Won,
    Lost,
    Ongoing,
}

/// The goal as the score's type (the cast of `goal as i32`).
pub open spec fn goal_as_score(goal: u32) -> i32 {
    goal as i32
}

pub open spec fn spec_verdict(score: i32, goal: ScoreGoal) -> ScoreVerdict {
    if score >= goal_as_score(goal.goal) {
        ScoreVerdict::Won
    } else if score <= goal.lose {
        ScoreVerdict::Lost
    } else {
        ScoreVerdict::Ongoing
    }
}

/// Winning is checked first: a score at or above the goal wins, else one at
/// or below the losing mark loses.
pub fn score_verdict(score: i32, goal: ScoreGoal) -> (v: ScoreVerdict)
    ensures
        v == spec_verdict(score, goal),
{
    let won = score >= goal.goal as i32;
    let lost = score <= goal.lose;
    if won {
        ScoreVerdict::Won
    } else if lost {
        ScoreVerdict::Lost
    } else {
        ScoreVerdict::Ongoing
    }
}

/// Moving on to the next level: clear what was spawned, show the loading
/// overlay and set up the level again.
pub fn advance_level() -> (r: (OverlayState, GameplayState))
    ensures
        r == (OverlayState::Loading, GameplayState::Setup),
{
    (OverlayState::Loading, GameplayState::Setup)
}

/// What the score display should do this frame.
#[derive(Debug, Clone, Copy, PartialEq, Eq, Structural)]
pub enum ScoreDisplay {
    /// Nothing to do (no single goal, or not playing).
    Keep,
    /// No score: clear the text.
    Clear,
    /// Show "Score: {score} / {goal}", colored by the verdict; a won or lost
    /// verdict also moves the level to that phase.
    Show { score: i32, goal: u32, verdict: ScoreVerdict },
}

/// Update the score text and check for a win or loss.
pub fn update_current_score(phase: LevelPhase, score: Option<CurrentScore>, goal: Option<ScoreGoal>) -> (r: ScoreDisplay)
    ensures
        goal is None ==> r == ScoreDisplay::Keep,
        goal is Some && score is None ==> r == ScoreDisplay::Clear,
        goal is Some && score is Some && !(phase is Playing) ==> r == ScoreDisplay::Keep,
        goal is Some && score is Some && phase is Playing ==> r == (ScoreDisplay::Show {
            score: score->0.score,
            goal: goal->0.goal,
            verdict: spec_verdict(score->0.score, goal->0),
        }),
{
    let goal = match goal {
        Some(g) => g,
        None => return ScoreDisplay::Keep,
    };
    match score {
        Some(s) => {
            if phase == LevelPhase::Playing {
                ScoreDisplay::Show { score: s.score, goal: goal.goal, verdict: score_verdict(s.score, goal) }
            } else {
                ScoreDisplay::Keep
            }
        },
        None => ScoreDisplay::Clear,
    }
}

/// The phase a verdict moves the level to, if any.
pub fn verdict_phase(verdict: ScoreVerdict) -> (p: Option<LevelPhase>)
    ensures
        verdict is Won ==> p == Some(LevelPhase::Won),
        verdict is Lost ==> p == Some(LevelPhase::Lost),
        verdict is Ongoing ==> p is None,
{
    match verdict {
        ScoreVerdict::Won => Some(LevelPhase::Won),
        ScoreVerdict::Lost => Some(LevelPhase::Lost),
        ScoreVerdict::Ongoing => None,
    }
}

/// Status text shown on winning a level.
pub fn won_level() -> (t: String)
    ensures
        t@ == "Passed!"@,
{
    "Passed!".to_owned()
}

/// Status text shown on losing a level.
pub fn lost_level() -> (t: String)
    ensures
        t@ == "Failed...\nTry again!"@,
{
    "Failed...\nTry again!".to_owned()
}

/// What follows a won level once its end timer ran out.
#[derive(Debug, Clone, Copy, PartialEq, Eq, Structural)]
pub enum AfterWin {
    /// The timer is still running.
    Wait,
    /// That was the last level: the game is complete.
    Completed,
    /// Advance to the level at this index.
    Next(usize),
}

pub open spec fn spec_after_win(timer_finished: bool, index: int, count: int) -> AfterWin {
    if !timer_finished {
        AfterWin::Wait
    } else if index + 1 >= count {
        AfterWin::Completed
    } else {
        AfterWin::Next((index + 1) as usize)
    }
}

/// After a win: on the last level the game is completed
/// (`ProgramState::Completed`, `LevelPhase::Initializing`,
/// `GameplayState::Done`, `OverlayState::GameOverScreen`), else the next
/// index is stored and the level advances.
pub fn check_won_level<S>(timer_finished: bool, level_index: LevelIndex, level_list: &LevelList<S>) -> (r: AfterWin)
    requires
        timer_finished ==> level_index.0 < usize::MAX,
    ensures
        r == spec_after_win(timer_finished, level_index.0 as int, level_list.0@.len() as int),
{
    if !timer_finished {
        return AfterWin::Wait;
    }
    let next_index = level_index.0 + 1;
    if next_index >= level_list.0.len() {
        AfterWin::Completed
    } else {
        AfterWin::Next(next_index)
    }
}

/// The states entered when every level is won.
pub fn game_completed() -> (r: (ProgramState, LevelPhase, GameplayState, OverlayState))
    ensures
        r == (ProgramState::Completed, LevelPhase::Initializing, GameplayState::Done, OverlayState::GameOverScreen),
{
    (ProgramState::Completed, LevelPhase::Initializing, GameplayState::Done, OverlayState::GameOverScreen)
}

/// After a loss, once the end timer ran out, the level restarts.
pub fn check_lost_level(timer_finished: bool) -> (p: Option<LevelPhase>)
    ensures
        p == if timer_finished {
            Some(LevelPhase::Advance)
        } else {
            None::<LevelPhase>
        },
{
    if timer_finished {
        Some(LevelPhase::Advance)
    } else {
        None
    }
}

/// Winning a level never leaves the index outside the list: from a level
/// in the list, the game either completes (exactly on the last level) or
/// moves to the very next level, which is in the list too.
pub proof fn lemma_after_win_stays_in_list(index: int, count: int)
    requires
        0 <= index < count,
        index < usize::MAX,
    ensures
        spec_after_win(true, index, count) is Completed <==> index == count - 1,
        spec_after_win(true, index, count) matches AfterWin::Next(n) ==> n == index + 1 && n < count,
{
}

/// The verdicts split the scores: reaching the goal wins (even when the
/// losing mark is as high), falling to the losing mark below the goal loses,
/// anything between is still in play.
pub proof fn lemma_verdict_partition(score: i32, goal: ScoreGoal)
    ensures
        spec_verdict(score, goal) is Won <==> score >= goal_as_score(goal.goal),
        spec_verdict(score, goal) is Lost <==> score < goal_as_score(goal.goal) && score <= goal.lose,
        spec_verdict(score, goal) is Ongoing <==> goal.lose < score < goal_as_score(goal.goal),
{
}

} // verus!

