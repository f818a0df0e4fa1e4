use vstd::prelude::*;
use vstd::string::*;

use crate::text::str_eq;

verus! {

/// State of a level (there is only one level in play at a time).
#[derive(Debug, Clone, Copy, PartialEq, Eq, Structural)]
pub enum LevelState {
    /// Outside the play area.
    Outside,
    /// User entered level, not solving it, and can futz about.
    Exploring,
    /// User is preparing to solve.
    PreSolve,
    /// User is testing a puzzle solution.
    Solving,
    /// User reached a puzzle solution.
    Passed,
    /// User did not reach a puzzle solution.
    Failed,
    /// Puzzle was solved.
    Solved,
    /// Switching levels; will trigger Outside again.
    Advance,
}

impl LevelState {
    /// Only an attempt at a solution is active play.
    pub fn is_active(&self) -> (b: bool)
        ensures
            b == (*self is Solving),
    {
        match self {
            LevelState::Solving => true,
            LevelState::Outside | LevelState::Exploring | LevelState::PreSolve
            | LevelState::Passed | LevelState::Failed | LevelState::Solved
            | LevelState::Advance => false,
        }
    }
}

/// Current level.
#[derive(Debug)]
pub struct LevelId(pub String);

/// The plain content of a [`LevelInfo`].
pub struct LevelInfoView {
    pub id: Seq<char>,
    pub name: Seq<char>,
    pub bsp_path: Option<Seq<char>>,
    pub is_test: bool,
}

/// A known level.
#[derive(Debug)]
pub struct LevelInfo {
    pub id: String,
    pub name: String,
    pub bsp_path: Option<String>,
    /// If set, this is a level meant for testing.
    pub is_test: bool,
}

pub open spec fn opt_string_view(o: Option<String>) -> Option<Seq<char>> {
    match o {
        Some(s) => Some(s@),
        None => None,
    }
}

fn clone_opt_string(o: &Option<String>) -> (r: Option<String>)
    ensures
        opt_string_view(r) == opt_string_view(*o),
{
    match o {
        Some(s) => Some(s.clone()),
        None => None,
    }
}

impl View for LevelInfo {
    type V = LevelInfoView;

    open spec fn view(&self) -> LevelInfoView {
        LevelInfoView {
            id: self.id@,
            name: self.name@,
            bsp_path: opt_string_view(self.bsp_path),
            is_test: self.is_test,
        }
    }
}

impl Clone for LevelInfo {
    fn clone(&self) -> (r: Self)
        ensures
            r@ == self@,
    {
        LevelInfo {
            id: self.id.clone(),
            name: self.name.clone(),
            bsp_path: clone_opt_string(&self.bsp_path),
            is_test: self.is_test,
        }
    }
}

impl LevelInfo {
    pub fn get_bsp_path(&self) -> (r: Option<String>)
        ensures
            opt_string_view(r) == self@.bsp_path,
    {
        clone_opt_string(&self.bsp_path)
    }

    pub fn get_level_id(&self) -> (r: String)
        ensures
            r@ == self@.id,
    {
        self.id.clone()
    }

    /// The text a level is shown by: its name.
    pub fn display_name(&self) -> (r: String)
        ensures
            r@ == self@.name,
    {
        self.name.clone()
    }

    /// A level that is not meant for testing.
    pub fn new(id: String, name: String, bsp_path: Option<String>) -> (r: Self)
        ensures
            r@ == (LevelInfoView {
                id: id@,
                name: name@,
                bsp_path: opt_string_view(bsp_path),
                is_test: false,
            }),
    {
        LevelInfo { id, name, bsp_path, is_test: false }
    }

    pub fn with_test(self, is_test: bool) -> (r: Self)
        ensures
            r@ == (LevelInfoView { is_test, ..self@ }),
    {
        LevelInfo { is_test, ..self }
    }
}

/// The plain content of a [`LevelRegistry`]: the start level and the known
/// levels in definition order.
pub struct LevelRegistryView {
    pub start_id: Seq<char>,
    pub levels: Seq<LevelInfoView>,
}

impl LevelRegistryView {
    pub open spec fn ids(self) -> Seq<Seq<char>> {
        self.levels.map_values(|l: LevelInfoView| l.id)
    }

    /// No id is registered twice.
    pub open spec fn ids_distinct(self) -> bool {
        forall|i: int, j: int|
            0 <= i < j < self.levels.len() ==> #[trigger] self.levels[i].id
                != #[trigger] self.levels[j].id
    }

    pub open spec fn has(self, id: Seq<char>) -> bool {
        exists|i: int| 0 <= i < self.levels.len() && #[trigger] self.levels[i].id == id
    }

    /// Definition index of a level, if it is known.
    pub open spec fn index_of(self, id: Seq<char>) -> Option<int> {
        if self.has(id) {
            Some(choose|i: int| 0 <= i < self.levels.len() && #[trigger] self.levels[i].id == id)
        } else {
            None
        }
    }

    pub open spec fn find(self, id: Seq<char>) -> Option<LevelInfoView> {
        match self.index_of(id) {
            Some(i) => Some(self.levels[i]),
            None => None,
        }
    }

    /// The registry after `register_level(level)`.
    pub open spec fn registered(self, level: LevelInfoView) -> LevelRegistryView {
        match self.index_of(level.id) {
            Some(i) => LevelRegistryView { levels: self.levels.update(i, level), ..self },
            None => LevelRegistryView { levels: self.levels.push(level), ..self },
        }
    }

    /// The level after `id` in definition order, or else the start level.
    pub open spec fn next_defined(self, id: Seq<char>) -> Seq<char> {
        match self.index_of(id) {
            Some(i) => if i + 1 < self.levels.len() {
                self.levels[i + 1].id
            } else {
                self.start_id
            },
            None => self.start_id,
        }
    }

    /// The name of a known level, or the id itself.
    pub open spec fn name_of(self, id: Seq<char>) -> Seq<char> {
        match self.find(id) {
            Some(l) => l.name,
            None => id,
        }
    }
}

/// Known levels.
pub struct LevelRegistry {
    /// id of the first level to run in a new game.
    start_id: String,
    /// Levels in definition order; no id occurs twice.
    levels: Vec<LevelInfo>,
}

impl View for LevelRegistry {
    type V = LevelRegistryView;

    closed spec fn view(&self) -> LevelRegistryView {
        LevelRegistryView {
            start_id: self.start_id@,
            levels: self.levels@.map_values(|l: LevelInfo| l@),
        }
    }
}

impl LevelRegistry {
    #[verifier::type_invariant]
    closed spec fn inv(self) -> bool {
        self@.ids_distinct()
    }

    /// An empty registry with an empty start id.
    pub fn new() -> (r: Self)
        ensures
            r@.start_id == Seq::<char>::empty(),
            r@.levels == Seq::<LevelInfoView>::empty(),
            r@.ids_distinct(),
    {
        let r = LevelRegistry { start_id: String::new(), levels: Vec::new() };
        assert(r@.levels =~= Seq::<LevelInfoView>::empty());
        r
    }

    /// Position of `id` among the levels.
    fn position(&self, id: &str) -> (r: Option<usize>)
        ensures
            r is Some <==> self@.has(id@),
            r is None ==> self@.index_of(id@) is None,
            r matches Some(i) ==> i < self@.levels.len() && i < self.levels@.len()
                && self@.index_of(id@) == Some(i as int) && self@.levels[i as int].id == id@,
    {
        proof {
            use_type_invariant(self);
        }
        let mut i: usize = 0;
        while i < self.levels.len()
            invariant
                i <= self.levels@.len(),
                self@.levels.len() == self.levels@.len(),
                self@.ids_distinct(),
                forall|j: int| 0 <= j < i ==> self@.levels[j].id != id@,
            decreases self.levels@.len() - i,
        {
            assert(self@.levels[i as int] == self.levels@[i as int]@);
            if str_eq(self.levels[i].id.as_str(), id) {
                assert(self@.levels[i as int].id == id@);
                assert(self@.has(id@));
                let ghost k = choose|k: int|
                    0 <= k < self@.levels.len() && #[trigger] self@.levels[k].id == id@;
                assert(k == i);
                return Some(i);
            }
            i = i + 1;
        }
        assert(!self@.has(id@));
        None
    }

    pub fn set_start_level(&mut self, id: &str)
        ensures
            final(self)@ == (LevelRegistryView { start_id: id@, ..old(self)@ }),
    {
        proof {
            use_type_invariant(&*self);
        }
        let new_id = id.to_owned();
        assert((LevelRegistry { start_id: new_id, levels: self.levels })@.levels == self@.levels);
        self.start_id = new_id;
    }

    /// Register a level (replacing a known level with the same id) and
    /// return its definition index.
    pub fn register_level(&mut self, level: LevelInfo) -> (index: usize)
        ensures
            final(self)@ == old(self)@.registered(level@),
            final(self)@.ids_distinct(),
            index < final(self)@.levels.len(),
            final(self)@.levels[index as int] == level@,
            index == (match old(self)@.index_of(level@.id) {
                Some(i) => i,
                None => old(self)@.levels.len() as int,
            }),
    {
        proof {
            use_type_invariant(&*self);
        }
        let found = self.position(level.id.as_str());
        let mut levels: Vec<LevelInfo> = Vec::new();
        std::mem::swap(&mut levels, &mut self.levels);
        match found {
            Some(i) => {
                levels.set(i, level);
                let ghost nv = levels@.map_values(|l: LevelInfo| l@);
                assert(nv =~= old(self)@.levels.update(i as int, level@));
                assert forall|a: int, b: int| 0 <= a < b < nv.len() implies #[trigger] nv[a].id
                    != #[trigger] nv[b].id by {
                    if a != i && b != i {
                        assert(nv[a] == old(self)@.levels[a]);
                        assert(nv[b] == old(self)@.levels[b]);
                    } else if a == i {
                        assert(nv[b] == old(self)@.levels[b]);
                        assert(old(self)@.levels[i as int].id == level@.id);
                    } else {
                        assert(nv[a] == old(self)@.levels[a]);
                        assert(old(self)@.levels[i as int].id == level@.id);
                    }
                }
                self.levels = levels;
                assert(self@.levels == nv);
                i
            },
            None => {
                let n = levels.len();
                levels.push(level);
                let ghost nv = levels@.map_values(|l: LevelInfo| l@);
                assert(nv =~= old(self)@.levels.push(level@));
                assert forall|a: int, b: int| 0 <= a < b < nv.len() implies #[trigger] nv[a].id
                    != #[trigger] nv[b].id by {
                    if b == n {
                        assert(nv[a] == old(self)@.levels[a]);
                        if old(self)@.levels[a].id == level@.id {
                            assert(old(self)@.has(level@.id));
                        }
                    } else {
                        assert(nv[a] == old(self)@.levels[a]);
                        assert(nv[b] == old(self)@.levels[b]);
                    }
                }
                self.levels = levels;
                assert(self@.levels == nv);
                n
            },
        }
    }

    /// The ids in definition order.
    pub fn get_level_ids(&self) -> (r: Vec<String>)
        ensures
            r@.map_values(|s: String| s@) == self@.ids(),
            self@.ids_distinct(),
    {
        proof {
            use_type_invariant(self);
        }
        let mut r: Vec<String> = Vec::new();
        let mut i: usize = 0;
        while i < self.levels.len()
            invariant
                i <= self.levels@.len(),
                self@.levels.len() == self.levels@.len(),
                r@.len() == i,
                forall|j: int| 0 <= j < i ==> #[trigger] r@[j]@ == self@.levels[j].id,
            decreases self.levels@.len() - i,
        {
            assert(self@.levels[i as int] == self.levels@[i as int]@);
            r.push(self.levels[i].id.clone());
            i = i + 1;
        }
        assert(r@.map_values(|s: String| s@) =~= self@.ids());
        r
    }

    pub fn contains_level(&self, id: &str) -> (b: bool)
        ensures
            b == self@.has(id@),
    {
        self.position(id).is_some()
    }

    pub fn find_level(&self, id: &str) -> (r: Option<LevelInfo>)
        ensures
            match r {
                Some(l) => self@.find(id@) == Some(l@),
                None => self@.find(id@) is None,
            },
    {
        match self.position(id) {
            Some(i) => {
                assert(self@.levels[i as int] == self.levels@[i as int]@);
                let l = self.levels[i].clone();
                assert(l@ == self@.levels[i as int]);
                assert(self@.find(id@) == Some(self@.levels[i as int]));
                Some(l)
            },
            None => None,
        }
    }

    pub fn start_level(&self) -> (r: String)
        ensures
            r@ == self@.start_id,
    {
        self.start_id.clone()
    }

    /// Get the next level in definition order (e.g. for a combo in the
    /// menu); after the last level, or for an unknown id, the start level.
    pub fn next_defined_level(&self, id: &str) -> (r: String)
        ensures
            r@ == self@.next_defined(id@),
    {
        if let Some(index) = self.position(id) {
            assert(self@.levels.len() == self.levels@.len());
            if index < self.levels.len() - 1 {
                assert(self@.levels[index + 1] == self.levels@[index + 1]@);
                return self.levels[index + 1].id.clone();
            }
        }
        self.start_id.clone()
    }

    pub fn level_name(&self, id: &str) -> (r: String)
        ensures
            r@ == self@.name_of(id@),
    {
        match self.position(id) {
            Some(i) => {
                assert(self@.levels[i as int] == self.levels@[i as int]@);
                assert(self@.find(id@) == Some(self@.levels[i as int]));
                self.levels[i].name.clone()
            },
            None => id.to_owned(),
        }
    }

    pub fn level_index_id(&self, index: usize) -> (r: String)
        requires
            index < self@.levels.len(),
        ensures
            r@ == self@.levels[index as int].id,
            self@.ids_distinct(),
    {
        proof {
            use_type_invariant(self);
        }
        assert(self@.levels[index as int] == self.levels@[index as int]@);
        self.levels[index].id.clone()
    }

    pub fn level_count(&self) -> (n: usize)
        ensures
            n == self@.levels.len(),
            self@.ids_distinct(),
    {
        proof {
            use_type_invariant(self);
        }
        self.levels.len()
    }

    pub fn level_id_index(&self, id: &str) -> (r: Option<usize>)
        ensures
            match r {
                Some(i) => self@.index_of(id@) == Some(i as int),
                None => self@.index_of(id@) is None,
            },
            self@.ids_distinct(),
    {
        proof {
            use_type_invariant(self);
        }
        self.position(id)
    }
}

/// How a level came to be loaded.
#[derive(Debug, Clone, Copy, PartialEq, Eq, Structural)]
pub enum LevelLoadKind {
    /// After level loading or a "Reset" (which despawns the whole puzzle
    /// root before loading).
    New,
    /// After loading a save.
    Reloaded,
}

/// Why the next level cannot be queued.
#[derive(Debug)]
pub enum QueueLevelError {
    /// The current level id is empty.
    NoLevelId,
    /// The current level id is not registered.
    UnknownLevel(String),
}

impl QueueLevelError {
    /// The text the error is reported with.
    pub fn message(&self) -> (m: String)
        ensures
            match self {
                QueueLevelError::NoLevelId => m@ == "No level id defined!"@,
                QueueLevelError::UnknownLevel(id) => m@ == "No level info for level '"@ + id@
                    + "' defined!"@,
            },
    {
        match self {
            QueueLevelError::NoLevelId => "No level id defined!".to_owned(),
            QueueLevelError::UnknownLevel(id) => {
                let mut m = "No level info for level '".to_owned();
                m.append(id.as_str());
                m.append("' defined!");
                m
            },
        }
    }
}

/// On entering `Advance`: check that the current level is known, and if so
/// go back `Outside`.
pub fn queue_next_level(level_id: &LevelId, level_regy: &LevelRegistry) -> (r: Result<
    LevelState,
    QueueLevelError,
>)
    ensures
        level_id.0@.len() == 0 ==> r matches Err(QueueLevelError::NoLevelId),
        level_id.0@.len() != 0 && !level_regy@.has(level_id.0@) ==> (r matches Err(
            QueueLevelError::UnknownLevel(id),
        ) && id@ == level_id.0@),
        level_id.0@.len() != 0 && level_regy@.has(level_id.0@) ==> r == Ok::<
            LevelState,
            QueueLevelError,
        >(LevelState::Outside),
{
    let this_level_id = level_id.0.clone();
    if this_level_id.as_str().is_empty() {
        return Err(QueueLevelError::NoLevelId);
    }
    if !level_regy.contains_level(this_level_id.as_str()) {
        return Err(QueueLevelError::UnknownLevel(this_level_id));
    }
    Ok(LevelState::Outside)
}

/// In a registry without repeated ids, each level's id leads back to its
/// own index.
pub proof fn lemma_index_of_level(r: LevelRegistryView, i: int)
    requires
        r.ids_distinct(),
        0 <= i < r.levels.len(),
    ensures
        r.has(r.levels[i].id),
        r.index_of(r.levels[i].id) == Some(i),
        r.find(r.levels[i].id) == Some(r.levels[i]),
{
    let id = r.levels[i].id;
    assert(r.has(id));
    let k = choose|k: int| 0 <= k < r.levels.len() && #[trigger] r.levels[k].id == id;
    if k != i {
        if k < i {
            assert(r.levels[k].id != r.levels[i].id);
        } else {
            assert(r.levels[i].id != r.levels[k].id);
        }
    }
}

/// An id's index, when there is one, is a position holding that id, and
/// there is none exactly when the id is not among the registry's ids.
pub proof fn lemma_id_index_round_trip(r: LevelRegistryView, id: Seq<char>)
    ensures
        r.index_of(id) matches Some(j) ==> 0 <= j < r.levels.len() && r.levels[j].id == id
            && r.ids()[j] == id,
        r.index_of(id) is None <==> !r.ids().contains(id),
{
    if r.ids().contains(id) {
        let j = choose|j: int| 0 <= j < r.ids().len() && r.ids()[j] == id;
        assert(r.levels[j].id == id);
        assert(r.has(id));
    }
    if r.has(id) {
        let j = choose|j: int| 0 <= j < r.levels.len() && #[trigger] r.levels[j].id == id;
        assert(r.ids()[j] == id);
    }
}

/// Registering a level keeps ids distinct; afterwards the level is found
/// under its id, every other id finds what it found before, and the count
/// grows by one exactly when the id was new.
pub proof fn lemma_register_then_find(r: LevelRegistryView, level: LevelInfoView, other: Seq<char>)
    requires
        r.ids_distinct(),
        other != level.id,
    ensures
        r.registered(level).ids_distinct(),
        r.registered(level).find(level.id) == Some(level),
        r.registered(level).find(other) == r.find(other),
        r.registered(level).levels.len() == r.levels.len() + (if r.has(level.id) {
            0int
        } else {
            1int
        }),
        r.registered(level).start_id == r.start_id,
{
    let n = r.registered(level);
    let pos: int = match r.index_of(level.id) {
        Some(i) => i,
        None => r.levels.len() as int,
    };
    if r.has(level.id) {
        let i = r.index_of(level.id)->0;
        assert(r.levels[i].id == level.id);
        assert forall|a: int, b: int| 0 <= a < b < n.levels.len() implies #[trigger] n.levels[a].id
            != #[trigger] n.levels[b].id by {
            if a != i && b != i {
                assert(n.levels[a] == r.levels[a]);
                assert(n.levels[b] == r.levels[b]);
            } else if a == i {
                assert(n.levels[b] == r.levels[b]);
            } else {
                assert(n.levels[a] == r.levels[a]);
            }
        }
    } else {
        assert forall|a: int, b: int| 0 <= a < b < n.levels.len() implies #[trigger] n.levels[a].id
            != #[trigger] n.levels[b].id by {
            assert(n.levels[a] == r.levels[a]);
            if b < r.levels.len() {
                assert(n.levels[b] == r.levels[b]);
            } else if r.levels[a].id == level.id {
                assert(r.has(level.id));
            }
        }
    }
    assert(n.levels[pos] == level);
    lemma_index_of_level(n, pos);
    if r.has(other) {
        let j = r.index_of(other)->0;
        assert(r.levels[j].id == other);
        lemma_index_of_level(r, j);
        assert(n.levels[j] == r.levels[j]);
        lemma_index_of_level(n, j);
    } else {
        if n.has(other) {
            let j = choose|j: int| 0 <= j < n.levels.len() && #[trigger] n.levels[j].id == other;
            if j != pos {
                assert(n.levels[j] == r.levels[j]);
                assert(r.has(other));
            }
        }
    }
}

/// The level after the `i`-th in definition order is the `i + 1`-th; the
/// last one is followed by the start level.
pub proof fn lemma_next_defined_follows_order(r: LevelRegistryView, i: int)
    requires
        r.ids_distinct(),
        0 <= i < r.levels.len(),
    ensures
        i + 1 < r.levels.len() ==> r.next_defined(r.levels[i].id) == r.levels[i + 1].id,
        i + 1 == r.levels.len() ==> r.next_defined(r.levels[i].id) == r.start_id,
{
    lemma_index_of_level(r, i);
}

} // verus!

