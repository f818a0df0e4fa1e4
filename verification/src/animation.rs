use vstd::prelude::*;

use crate::text::str_eq;

verus! {

/// Name → animation graph node of the clips of a player, later entries
/// taking the place of earlier ones with the same name.
pub open spec fn lookup_clip(pairs: Seq<(Seq<char>, u32)>, name: Seq<char>) -> Option<u32>
    decreases pairs.len(),
{
    if pairs.len() == 0 {
        None
    } else if pairs.last().0 == name {
        Some(pairs.last().1)
    } else {
        lookup_clip(pairs.drop_last(), name)
    }
}

/// Looking a name up finds the node of the last pair with that name, and
/// finds nothing exactly when no pair has it.
pub proof fn lemma_lookup_finds_last_of_name(pairs: Seq<(Seq<char>, u32)>, name: Seq<char>)
    ensures
        lookup_clip(pairs, name) is None <==> forall|i: int| 0 <= i < pairs.len() ==> (#[trigger] pairs[i]).0 != name,
        lookup_clip(pairs, name) matches Some(v) ==> exists|i: int|
            0 <= i < pairs.len() && #[trigger] pairs[i] == (name, v) && forall|j: int|
                i < j < pairs.len() ==> (#[trigger] pairs[j]).0 != name,
    decreases pairs.len(),
{
    if pairs.len() > 0 {
        let pre = pairs.drop_last();
        let last = pairs.len() - 1;
        lemma_lookup_finds_last_of_name(pre, name);
        assert forall|j: int| 0 <= j < pre.len() implies pre[j] == pairs[j] by {}
        if pairs.last().0 == name {
            assert(pairs[last] == (name, pairs.last().1));
        } else {
            assert(pairs[last].0 != name);
            match lookup_clip(pre, name) {
                Some(v) => {
                    let i = choose|i: int| 0 <= i < pre.len() && #[trigger] pre[i] == (name, v) && forall|j: int|
                        i < j < pre.len() ==> (#[trigger] pre[j]).0 != name;
                    assert(pairs[i] == (name, v));
                    assert forall|j: int| i < j < pairs.len() implies (#[trigger] pairs[j]).0 != name by {
                        if j < last {
                            assert(pre[j] == pairs[j]);
                        }
                    }
                },
                None => {
                    assert forall|i: int| 0 <= i < pairs.len() implies (#[trigger] pairs[i]).0 != name by {
                        if i < last {
                            assert(pre[i] == pairs[i]);
                        }
                    }
                },
            }
        }
    }
}

/// Controls animation clips for a unique entity.
pub struct NamedAnimationClips {
    named_clips: Vec<(String, u32)>,
}

impl View for NamedAnimationClips {
    type V = Seq<(Seq<char>, u32)>;

    closed spec fn view(&self) -> Seq<(Seq<char>, u32)> {
        self.named_clips@.map_values(|p: (String, u32)| (p.0@, p.1))
    }
}

impl Default for NamedAnimationClips {
    /// No clips.
    fn default() -> (r: Self)
        ensures
            r@ == Seq::<(Seq<char>, u32)>::empty(),
    {
        let r = NamedAnimationClips { named_clips: Vec::new() };
        assert(r@ =~= Seq::<(Seq<char>, u32)>::empty());
        r
    }
}

impl NamedAnimationClips {
    /// Clips from name/node pairs (a later pair replaces an earlier one of
    /// the same name).
    pub fn new(named_clips: Vec<(String, u32)>) -> (r: Self)
        ensures
            r@ == named_clips@.map_values(|p: (String, u32)| (p.0@, p.1)),
    {
        NamedAnimationClips { named_clips }
    }

    /// The node of the clip with this name.
    pub fn clip_named(&self, clip_name: &str) -> (r: Option<u32>)
        ensures
            r == lookup_clip(self@, clip_name@),
    {
        let mut i: usize = self.named_clips.len();
        assert(self@.take(i as int) =~= self@);
        while i > 0
            invariant
                i <= self.named_clips@.len(),
                self@.len() == self.named_clips@.len(),
                lookup_clip(self@, clip_name@) == lookup_clip(self@.take(i as int), clip_name@),
            decreases i,
        {
            let ghost pre = self@.take(i as int);
            assert(pre.last() == self@[i - 1]);
            assert(pre.drop_last() =~= self@.take(i - 1));
            assert(self@[i - 1] == (self.named_clips@[i - 1].0@, self.named_clips@[i - 1].1));
            if str_eq(self.named_clips[i - 1].0.as_str(), clip_name) {
                return Some(self.named_clips[i - 1].1);
            }
            i = i - 1;
        }
        None
    }
}

/// The nearest animation player met walking up from a target: the first of
/// the players met, nearest first.
pub open spec fn nearest_player(players: Seq<u64>) -> Option<u64> {
    if players.len() > 0 {
        Some(players[0])
    } else {
        None
    }
}

/// A clip belongs to a player when every one of its targets has that
/// player as its nearest ancestor player; with no target, a target without
/// an ancestor player, or two different nearest players, it belongs to none.
pub open spec fn spec_clip_owner(targets: Seq<Seq<u64>>) -> Option<u64> {
    if targets.len() > 0 && nearest_player(targets[0]) is Some && forall|i: int|
        0 <= i < targets.len() ==> nearest_player(#[trigger] targets[i]) == nearest_player(targets[0]) {
        nearest_player(targets[0])
    } else {
        None
    }
}

/// The animation player a clip belongs to, given for each of the clip's
/// targets present in the scene the animation players met walking up from
/// it (nearest first). A clip without an owner is skipped.
pub fn clip_owner(targets: &Vec<Vec<u64>>) -> (r: Option<u64>)
    ensures
        r == spec_clip_owner(targets@.map_values(|t: Vec<u64>| t@)),
{
    let ghost all = targets@.map_values(|t: Vec<u64>| t@);
    if targets.len() == 0 {
        return None;
    }
    if targets[0].len() == 0 {
        assert(all[0] == targets@[0]@);
        return None;
    }
    let p = targets[0][0];
    assert(all[0] == targets@[0]@);
    assert(nearest_player(all[0]) == Some(p));
    let mut t: usize = 0;
    while t < targets.len()
        invariant
            t <= targets@.len(),
            all == targets@.map_values(|t: Vec<u64>| t@),
            nearest_player(all[0]) == Some(p),
            forall|i: int| 0 <= i < t ==> nearest_player(#[trigger] all[i]) == Some(p),
        decreases targets@.len() - t,
    {
        assert(all[t as int] == targets@[t as int]@);
        if targets[t].len() == 0 || targets[t][0] != p {
            assert(nearest_player(all[t as int]) != Some(p));
            return None;
        }
        t = t + 1;
    }
    Some(p)
}

/// A loaded animation clip as seen by clip assignment: its name (the
/// glTF animation's name, or a name made from the clip's id when it has
/// none), for each of its targets present in the scene the animation
/// players met walking up from it (nearest first), and whether the clip's
/// handle could be had.
pub struct ClipSource {
    pub name: String,
    pub targets: Vec<Vec<u64>>,
    pub loaded: bool,
}

/// The clips one animation player gets, by their positions in the clip
/// list, in the order they are added to its graph; and the clip named
/// "RESET", which the player replays, if there is one.
pub struct PlayerClips {
    pub player: u64,
    pub clips: Vec<usize>,
    pub reset: Option<usize>,
}

/// What clip assignment does: the players with their clips, and whether
/// nothing was assigned, so that assignment is tried again later.
pub struct ClipPlan {
    pub players: Vec<PlayerClips>,
    pub retry: bool,
}

/// The player a clip goes to: its owner, when the clip could be had.
pub open spec fn source_owner(c: ClipSource) -> Option<u64> {
    if c.loaded {
        spec_clip_owner(c.targets@.map_values(|t: Vec<u64>| t@))
    } else {
        None
    }
}

pub open spec fn owners_of(clips: Seq<ClipSource>) -> Seq<Option<u64>> {
    clips.map_values(|c: ClipSource| source_owner(c))
}

pub open spec fn resets_of(clips: Seq<ClipSource>) -> Seq<bool> {
    clips.map_values(|c: ClipSource| c.name@ == "RESET"@)
}

/// The players that get a clip, each once, in the order of their first clip.
pub open spec fn players_of(owners: Seq<Option<u64>>) -> Seq<u64>
    decreases owners.len(),
{
    if owners.len() == 0 {
        Seq::empty()
    } else {
        let before = players_of(owners.drop_last());
        match owners.last() {
            Some(p) => if before.contains(p) {
                before
            } else {
                before.push(p)
            },
            None => before,
        }
    }
}

/// The positions of the clips going to `p`, in order.
pub open spec fn clips_of(owners: Seq<Option<u64>>, p: u64) -> Seq<usize>
    decreases owners.len(),
{
    if owners.len() == 0 {
        Seq::empty()
    } else {
        let before = clips_of(owners.drop_last(), p);
        if owners.last() == Some(p) {
            before.push((owners.len() - 1) as usize)
        } else {
            before
        }
    }
}

/// The last clip going to `p` that is named "RESET" (a later clip of the
/// same name takes the earlier one's place).
pub open spec fn reset_of(owners: Seq<Option<u64>>, resets: Seq<bool>, p: u64) -> Option<usize>
    decreases owners.len(),
{
    if owners.len() == 0 {
        None
    } else if owners.last() == Some(p) && resets[owners.len() - 1] {
        Some((owners.len() - 1) as usize)
    } else {
        reset_of(owners.drop_last(), resets, p)
    }
}

/// A player's replay clip is one of its own clips named "RESET", the last
/// such one; with no clip of the player named "RESET" there is none.
pub proof fn lemma_reset_is_last_reset_clip(owners: Seq<Option<u64>>, resets: Seq<bool>, p: u64)
    requires
        owners.len() <= usize::MAX,
    ensures
        reset_of(owners, resets, p) matches Some(i) ==> {
            &&& 0 <= i < owners.len()
            &&& owners[i as int] == Some(p)
            &&& resets[i as int]
            &&& forall|j: int| i < j < owners.len() ==> !(#[trigger] owners[j] == Some(p) && resets[j])
        },
        reset_of(owners, resets, p) is None <==> forall|j: int|
            0 <= j < owners.len() ==> !(#[trigger] owners[j] == Some(p) && resets[j]),
    decreases owners.len(),
{
    if owners.len() > 0 {
        let pre = owners.drop_last();
        let last = owners.len() - 1;
        lemma_reset_is_last_reset_clip(pre, resets, p);
        assert forall|j: int| 0 <= j < pre.len() implies pre[j] == owners[j] by {}
        if owners[last] == Some(p) && resets[last] {
            assert(owners.last() == owners[last]);
            assert(reset_of(owners, resets, p) == Some(last as usize));
        } else {
            assert(reset_of(owners, resets, p) == reset_of(pre, resets, p));
            match reset_of(pre, resets, p) {
                Some(i) => {
                    assert(owners[i as int] == pre[i as int]);
                    assert forall|j: int| i < j < owners.len() implies !(#[trigger] owners[j] == Some(p) && resets[j]) by {
                        if j < last {
                            assert(pre[j] == owners[j]);
                        }
                    }
                },
                None => {
                    assert forall|j: int| 0 <= j < owners.len() implies !(#[trigger] owners[j] == Some(p) && resets[j]) by {
                        if j < last {
                            assert(pre[j] == owners[j]);
                        }
                    }
                },
            }
        }
    }
}

/// A player's clip list holds, in increasing order, exactly the positions
/// of the clips it owns.
pub proof fn lemma_clips_of_are_owned(owners: Seq<Option<u64>>, p: u64)
    requires
        owners.len() <= usize::MAX,
    ensures
        forall|k: int| 0 <= k < clips_of(owners, p).len() ==> {
            &&& (#[trigger] clips_of(owners, p)[k]) < owners.len()
            &&& owners[clips_of(owners, p)[k] as int] == Some(p)
        },
        forall|a: int, b: int| 0 <= a < b < clips_of(owners, p).len() ==> #[trigger] clips_of(owners, p)[a]
            < #[trigger] clips_of(owners, p)[b],
        forall|i: int| 0 <= i < owners.len() && #[trigger] owners[i] == Some(p) ==> clips_of(owners, p).contains(i as usize),
    decreases owners.len(),
{
    if owners.len() > 0 {
        let pre = owners.drop_last();
        let last = owners.len() - 1;
        lemma_clips_of_are_owned(pre, p);
        let c = clips_of(owners, p);
        let cp = clips_of(pre, p);
        assert forall|j: int| 0 <= j < pre.len() implies pre[j] == owners[j] by {}
        if owners.last() == Some(p) {
            assert(c == cp.push(last as usize));
            assert forall|k: int| 0 <= k < c.len() implies (#[trigger] c[k]) < owners.len() && owners[c[k] as int] == Some(p) by {
                if k < cp.len() {
                    assert(c[k] == cp[k]);
                    assert(pre[cp[k] as int] == Some(p));
                } else {
                    assert(c[k] == last as usize);
                }
            }
            assert forall|a: int, b: int| 0 <= a < b < c.len() implies #[trigger] c[a] < #[trigger] c[b] by {
                assert(c[a] == cp[a]);
                if b < cp.len() {
                    assert(c[b] == cp[b]);
                } else {
                    assert(c[b] == last as usize);
                }
            }
            assert forall|i: int| 0 <= i < owners.len() && #[trigger] owners[i] == Some(p) implies c.contains(i as usize) by {
                if i < last {
                    assert(pre[i] == Some(p));
                    assert(cp.contains(i as usize));
                    let k = choose|k: int| 0 <= k < cp.len() && cp[k] == i as usize;
                    assert(c[k] == cp[k]);
                } else {
                    assert(c[c.len() - 1] == i as usize);
                }
            }
        } else {
            assert(c == cp);
            assert forall|k: int| 0 <= k < c.len() implies (#[trigger] c[k]) < owners.len() && owners[c[k] as int] == Some(p) by {
                assert(pre[cp[k] as int] == Some(p));
            }
            assert forall|i: int| 0 <= i < owners.len() && #[trigger] owners[i] == Some(p) implies c.contains(i as usize) by {
                if i < last {
                    assert(pre[i] == Some(p));
                }
            }
        }
    }
}

/// The players listed are distinct, each owns some clip, and every owner
/// of a clip is listed.
pub proof fn lemma_players_are_owners(owners: Seq<Option<u64>>)
    ensures
        players_of(owners).no_duplicates(),
        forall|q: u64| players_of(owners).contains(q) <==> exists|i: int| 0 <= i < owners.len() && #[trigger] owners[i] == Some(q),
    decreases owners.len(),
{
    if owners.len() > 0 {
        let pre = owners.drop_last();
        lemma_players_are_owners(pre);
        let ps = players_of(owners);
        let pp = players_of(pre);
        assert forall|q: u64| ps.contains(q) <==> exists|i: int| 0 <= i < owners.len() && #[trigger] owners[i] == Some(q) by {
            if ps.contains(q) {
                if pp.contains(q) {
                    let i = choose|i: int| 0 <= i < pre.len() && #[trigger] pre[i] == Some(q);
                    assert(owners[i] == pre[i]);
                } else {
                    assert(owners[owners.len() - 1] == Some(q));
                }
            }
            if exists|i: int| 0 <= i < owners.len() && #[trigger] owners[i] == Some(q) {
                let i = choose|i: int| 0 <= i < owners.len() && #[trigger] owners[i] == Some(q);
                if i < owners.len() - 1 {
                    assert(pre[i] == owners[i]);
                    assert(pp.contains(q));
                    let k = choose|k: int| 0 <= k < pp.len() && pp[k] == q;
                    match owners.last() {
                        Some(x) => {
                            if !pp.contains(x) {
                                assert(ps[k] == q);
                            }
                        },
                        None => {},
                    }
                } else {
                    if !pp.contains(q) {
                        assert(ps[pp.len() as int] == q);
                    }
                }
            }
        }
    }
}

/// A clip belongs to a player exactly when it has a target and every one of
/// its targets has that player as its nearest ancestor player.
pub proof fn lemma_clip_owner_is_common_nearest(targets: Seq<Seq<u64>>, p: u64)
    ensures
        spec_clip_owner(targets) == Some(p) <==> (targets.len() > 0 && forall|i: int|
            0 <= i < targets.len() ==> (#[trigger] targets[i]).len() > 0 && targets[i][0] == p),
{
    if targets.len() > 0 && forall|i: int| 0 <= i < targets.len() ==> (#[trigger] targets[i]).len() > 0 && targets[i][0] == p {
        assert(targets[0].len() > 0);
        assert forall|i: int| 0 <= i < targets.len() implies nearest_player(#[trigger] targets[i]) == nearest_player(targets[0]) by {
            assert(targets[i].len() > 0);
        }
    }
    if spec_clip_owner(targets) == Some(p) {
        assert forall|i: int| 0 <= i < targets.len() implies (#[trigger] targets[i]).len() > 0 && targets[i][0] == p by {
            assert(nearest_player(targets[i]) == nearest_player(targets[0]));
        }
    }
}

/// Assign clips to animation players: a clip goes to the player owning all
/// its targets (as `clip_owner` decides) when it could be had; each player
/// gets its clips in order and replays its "RESET" clip; with no clip
/// assigned at all, assignment is tried again.
pub fn plan_clips(clips: &Vec<ClipSource>) -> (r: ClipPlan)
    ensures
        r.retry == (players_of(owners_of(clips@)).len() == 0),
        r.players@.len() == players_of(owners_of(clips@)).len(),
        forall|k: int| 0 <= k < r.players@.len() ==> {
            let p = players_of(owners_of(clips@))[k];
            &&& (#[trigger] r.players@[k]).player == p
            &&& r.players@[k].clips@ == clips_of(owners_of(clips@), p)
            &&& r.players@[k].reset == reset_of(owners_of(clips@), resets_of(clips@), p)
        },
{
    let ghost os = owners_of(clips@);
    let ghost rs = resets_of(clips@);
    // Owner and "RESET" flag of each clip.
    let mut owners: Vec<Option<u64>> = Vec::new();
    let mut resets: Vec<bool> = Vec::new();
    let mut i: usize = 0;
    while i < clips.len()
        invariant
            i <= clips@.len(),
            os == owners_of(clips@),
            rs == resets_of(clips@),
            owners@ == os.take(i as int),
            resets@ == rs.take(i as int),
        decreases clips@.len() - i,
    {
        let c = &clips[i];
        let o = if c.loaded {
            clip_owner(&c.targets)
        } else {
            None
        };
        assert(o == os[i as int]);
        owners.push(o);
        resets.push(str_eq(c.name.as_str(), "RESET"));
        assert(owners@ =~= os.take(i + 1));
        assert(resets@ =~= rs.take(i + 1));
        i = i + 1;
    }
    assert(owners@ =~= os);
    assert(resets@ =~= rs);
    // The players, in the order of their first clip.
    let mut players: Vec<u64> = Vec::new();
    let mut i: usize = 0;
    assert(os.take(0) =~= Seq::<Option<u64>>::empty());
    while i < owners.len()
        invariant
            i <= owners@.len(),
            owners@ == os,
            players@ == players_of(os.take(i as int)),
        decreases owners@.len() - i,
    {
        assert(os.take(i + 1).drop_last() =~= os.take(i as int));
        assert(os.take(i + 1).last() == os[i as int]);
        if let Some(p) = owners[i] {
            let mut k: usize = 0;
            while k < players.len() && players[k] != p
                invariant
                    k <= players@.len(),
                    forall|j: int| 0 <= j < k ==> players@[j] != p,
                decreases players@.len() - k,
            {
                k = k + 1;
            }
            if k < players.len() {
                assert(players@[k as int] == p);
            } else {
                assert(!players@.contains(p));
                players.push(p);
            }
        }
        i = i + 1;
    }
    assert(os.take(owners@.len() as int) =~= os);
    // Each player's clips and reset clip.
    let mut plan: Vec<PlayerClips> = Vec::new();
    let mut k: usize = 0;
    while k < players.len()
        invariant
            k <= players@.len(),
            owners@ == os,
            resets@ == rs,
            os.len() == rs.len(),
            players@ == players_of(os),
            plan@.len() == k,
            forall|m: int| 0 <= m < k ==> {
                let p = players@[m];
                &&& (#[trigger] plan@[m]).player == p
                &&& plan@[m].clips@ == clips_of(os, p)
                &&& plan@[m].reset == reset_of(os, rs, p)
            },
        decreases players@.len() - k,
    {
        let p = players[k];
        let mut list: Vec<usize> = Vec::new();
        let mut reset: Option<usize> = None;
        let mut i: usize = 0;
        assert(os.take(0) =~= Seq::<Option<u64>>::empty());
        while i < owners.len()
            invariant
                i <= owners@.len(),
                owners@ == os,
                resets@ == rs,
                os.len() == rs.len(),
                list@ == clips_of(os.take(i as int), p),
                reset == reset_of(os.take(i as int), rs, p),
            decreases owners@.len() - i,
        {
            assert(os.take(i + 1).drop_last() =~= os.take(i as int));
            assert(os.take(i + 1).last() == os[i as int]);
            assert(os.take(i + 1).len() == i + 1);
            if owners[i] == Some(p) {
                list.push(i);
                if resets[i] {
                    reset = Some(i);
                }
            }
            i = i + 1;
        }
        assert(os.take(owners@.len() as int) =~= os);
        plan.push(PlayerClips { player: p, clips: list, reset });
        k = k + 1;
    }
    let retry = players.len() == 0;
    ClipPlan { players: plan, retry }
}

} // verus!
