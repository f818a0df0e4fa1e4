use vstd::prelude::*;

use crate::game::LevelPhase;
use crate::text::{str_ends_with, str_eq};

verus! {

/// What fills an area.
#[derive(Debug, Clone, Copy, PartialEq, Eq, Structural)]
pub enum AreaContent {
    /// Air.
    Air,
    /// Water.
    Water,
}

impl AreaContent {
    pub fn in_liquid(&self) -> (b: bool)
        ensures
            b == (*self is Water),
    {
        match self {
            AreaContent::Air => false,
            AreaContent::Water => true,
        }
    }
}

/// Set up when a level's sky is prepared; done once nothing is awaited.
#[derive(Debug, Clone, Copy, PartialEq, Eq, Structural)]
pub struct SkyboxSetup {
    pub waiting_skybox: bool,
    pub waiting_reflections: bool,
}

impl SkyboxSetup {
    /// Waiting for the skybox (reflections follow from it).
    pub fn start() -> (s: Self)
        ensures
            s.waiting_skybox,
            !s.waiting_reflections,
    {
        SkyboxSetup { waiting_skybox: true, waiting_reflections: false }
    }

    pub open spec fn done(self) -> bool {
        !self.waiting_skybox && !self.waiting_reflections
    }
}

/// Once nothing is awaited, the setup is dropped and play starts.
pub fn check_skybox_setup(setup: &SkyboxSetup) -> (p: Option<LevelPhase>)
    ensures
        p == if setup.done() {
            Some(LevelPhase::Playing)
        } else {
            None::<LevelPhase>
        },
{
    if !setup.waiting_skybox && !setup.waiting_reflections {
        Some(LevelPhase::Playing)
    } else {
        None
    }
}

/// The first step with a (changed) skybox model.
#[derive(Debug, Clone, Copy, PartialEq, Eq, Structural)]
pub enum SkyboxModelStep {
    /// No model changed: the skybox is not awaited any more.
    Nothing,
    /// The model is disabled: remove the sky, probe and environment light.
    Remove,
    /// Fetch the cube-mapped image for the model.
    Load,
}

/// The setup after the first part of loading a skybox.
pub open spec fn spec_sky_model_step(setup: SkyboxSetup, model_enabled: Option<bool>) -> SkyboxSetup {
    if model_enabled == Some(true) {
        setup
    } else {
        SkyboxSetup { waiting_skybox: false, ..setup }
    }
}

/// First part of loading a skybox: with no changed model, or a disabled
/// one, the skybox is no longer awaited.
pub fn check_load_skybox(setup: &mut SkyboxSetup, model_enabled: Option<bool>) -> (s: SkyboxModelStep)
    ensures
        *final(setup) == spec_sky_model_step(*old(setup), model_enabled),
        s == match model_enabled {
            None => SkyboxModelStep::Nothing,
            Some(false) => SkyboxModelStep::Remove,
            Some(true) => SkyboxModelStep::Load,
        },
{
    match model_enabled {
        None => {
            setup.waiting_skybox = false;
            SkyboxModelStep::Nothing
        },
        Some(false) => {
            setup.waiting_skybox = false;
            SkyboxModelStep::Remove
        },
        Some(true) => SkyboxModelStep::Load,
    }
}

/// The setup after the loaded image is (or is not yet) applied.
pub open spec fn spec_sky_image_step(setup: SkyboxSetup, image_ready: bool, with_reflection_probe: bool) -> SkyboxSetup {
    if !image_ready {
        setup
    } else {
        SkyboxSetup {
            waiting_skybox: false,
            waiting_reflections: setup.waiting_reflections || with_reflection_probe,
        }
    }
}

/// What to do once the skybox image has been looked up.
#[derive(Debug, Clone, Copy, PartialEq, Eq, Structural)]
pub enum SkyImageStep {
    /// The image is not ready yet: keep the sky model and try again later.
    Wait,
    /// Put the sky on the camera, hand the image to the reflection probe when
    /// there is one (`with_probe`), and remove the sky model: it is done.
    Apply { with_probe: bool },
}

/// Whether a step is finished with the sky model, so that the model is
/// removed from the camera.
pub open spec fn removes_model(step: SkyImageStep) -> bool {
    step is Apply
}

/// Second part: once the image is ready the sky is applied, the model is
/// finished and removed, and the sky is no longer awaited; with a
/// reflection probe the reflections are awaited next.
pub fn apply_loaded_skybox(setup: &mut SkyboxSetup, image_ready: bool, with_reflection_probe: bool) -> (step: SkyImageStep)
    ensures
        removes_model(step) == image_ready,
        step == if image_ready {
            SkyImageStep::Apply { with_probe: with_reflection_probe }
        } else {
            SkyImageStep::Wait
        },
        *final(setup) == spec_sky_image_step(*old(setup), image_ready, with_reflection_probe),
{
    if !image_ready {
        return SkyImageStep::Wait;
    }
    setup.waiting_skybox = false;
    if with_reflection_probe {
        setup.waiting_reflections = true;
    }
    SkyImageStep::Apply { with_probe: with_reflection_probe }
}

/// A step of loading a reflection probe.
#[derive(Debug, Clone, Copy, PartialEq, Eq, Structural)]
pub enum ProbeStep {
    /// No probe changed: reflections are not awaited any more.
    Nothing,
    /// The image is not there yet.
    Wait,
    /// Build the light probe and environment light.
    Build,
}

/// The setup after a reflection probe check.
pub open spec fn spec_probe_step(setup: SkyboxSetup, probe_present: bool, image_is_default: bool, image_loaded: bool) -> SkyboxSetup {
    if probe_present && (image_is_default || !image_loaded) {
        setup
    } else {
        SkyboxSetup { waiting_reflections: false, ..setup }
    }
}

/// Load a reflection probe once its image is loaded.
pub fn check_load_reflection_probe(setup: &mut SkyboxSetup, probe_present: bool, image_is_default: bool, image_loaded: bool) -> (s: ProbeStep)
    ensures
        *final(setup) == spec_probe_step(*old(setup), probe_present, image_is_default, image_loaded),
        s == if !probe_present {
            ProbeStep::Nothing
        } else if image_is_default || !image_loaded {
            ProbeStep::Wait
        } else {
            ProbeStep::Build
        },
{
    if !probe_present {
        setup.waiting_reflections = false;
        return ProbeStep::Nothing;
    }
    if image_is_default {
        return ProbeStep::Wait;
    }
    if !image_loaded {
        return ProbeStep::Wait;
    }
    setup.waiting_reflections = false;
    ProbeStep::Build
}

/// Each sky step touches only its own flag, except that applying the sky
/// may start the wait for reflections: the model check stops the skybox
/// wait unless an enabled model is to be loaded; applying stops it once the
/// image is ready; the probe check stops the reflections wait unless a
/// probe is present whose image is not yet usable.
pub proof fn lemma_sky_steps_own_flags(
    setup: SkyboxSetup,
    model_enabled: Option<bool>,
    ready: bool,
    with_probe: bool,
    probe_present: bool,
    default_image: bool,
    loaded: bool,
)
    ensures
        spec_sky_model_step(setup, model_enabled).waiting_reflections == setup.waiting_reflections,
        spec_sky_model_step(setup, model_enabled).waiting_skybox == (setup.waiting_skybox && model_enabled
            == Some(true)),
        !ready ==> spec_sky_image_step(setup, ready, with_probe) == setup,
        ready ==> !spec_sky_image_step(setup, ready, with_probe).waiting_skybox,
        ready ==> (spec_sky_image_step(setup, ready, with_probe).waiting_reflections <==> (setup.waiting_reflections
            || with_probe)),
        spec_probe_step(setup, probe_present, default_image, loaded).waiting_skybox == setup.waiting_skybox,
        spec_probe_step(setup, probe_present, default_image, loaded).waiting_reflections == (setup.waiting_reflections
            && probe_present && (default_image || !loaded)),
{
}

/// Preparing a sky ends: from the start, a level without an enabled sky
/// model is done after one pass of the checks (the probe check finding no
/// probe); with a sky model whose image is ready, the pass that applies it
/// and the probe check that then builds the probe (or finds none) finish it.
pub proof fn lemma_sky_setup_finishes(model_enabled: Option<bool>, with_probe: bool, default_image: bool, loaded: bool)
    ensures
        model_enabled != Some(true) ==> spec_probe_step(
            spec_sky_model_step(SkyboxSetup { waiting_skybox: true, waiting_reflections: false }, model_enabled),
            false,
            default_image,
            loaded,
        ).done(),
        ({
            let after_image = spec_sky_image_step(
                spec_sky_model_step(SkyboxSetup { waiting_skybox: true, waiting_reflections: false }, Some(true)),
                true,
                with_probe,
            );
            &&& after_image.waiting_reflections == with_probe
            &&& (!with_probe || (!default_image && loaded)) ==> spec_probe_step(after_image, with_probe, default_image, loaded).done()
        }),
{
}

/// Texture detail chosen in the video settings.
#[derive(Debug, Clone, Copy, PartialEq, Eq, Structural)]
pub enum TextureQuality {
    Low,
    Medium,
    High,
    Ultra,
}

/// Side length in pixels of a skybox cube face for a texture quality.
pub open spec fn face_side(quality: TextureQuality) -> u32 {
    match quality {
        TextureQuality::Low => 256u32,
        TextureQuality::Medium => 512u32,
        TextureQuality::High => 1024u32,
        TextureQuality::Ultra => 1200u32,
    }
}

/// Side length in pixels of a skybox cube face for a texture quality.
pub fn side_resolution(quality: TextureQuality) -> (r: u32)
    ensures
        r == face_side(quality),
{
    match quality {
        TextureQuality::Low => 256,
        TextureQuality::Medium => 512,
        TextureQuality::High => 1024,
        TextureQuality::Ultra => 1200,
    }
}

/// Glass (screen-space transmission) detail from the video settings.
#[derive(Debug, Clone, Copy, PartialEq, Eq, Structural)]
pub enum GlassQuality {
    Off,
    Low,
    Medium,
    High,
    Ultra,
}

/// Quality of screen-space specular transmission.
#[derive(Debug, Clone, Copy, PartialEq, Eq, Structural)]
pub enum TransmissionQuality {
    Low,
    Medium,
    High,
    Ultra,
}

/// Transmission steps and quality for a glass setting.
pub fn glass_transmission(glass: GlassQuality) -> (r: (u32, TransmissionQuality))
    ensures
        r == match glass {
            GlassQuality::Off => (0u32, TransmissionQuality::Low),
            GlassQuality::Low => (1u32, TransmissionQuality::Low),
            GlassQuality::Medium => (1u32, TransmissionQuality::Medium),
            GlassQuality::High => (2u32, TransmissionQuality::High),
            GlassQuality::Ultra => (3u32, TransmissionQuality::Ultra),
        },
{
    match glass {
        GlassQuality::Off => (0, TransmissionQuality::Low),
        GlassQuality::Low => (1, TransmissionQuality::Low),
        GlassQuality::Medium => (1, TransmissionQuality::Medium),
        GlassQuality::High => (2, TransmissionQuality::High),
        GlassQuality::Ultra => (3, TransmissionQuality::Ultra),
    }
}

/// Anti-aliasing choice from the video settings.
#[derive(Debug, Clone, Copy, PartialEq, Eq, Structural)]
pub enum Antialiasing {
    Off,
    TSAA,
}

/// Whether the camera gets ambient occlusion with temporal anti-aliasing
/// (multisampling is off in every case).
pub fn uses_temporal_antialiasing(aa: Antialiasing) -> (b: bool)
    ensures
        b == (aa is TSAA),
{
    match aa {
        Antialiasing::Off => false,
        Antialiasing::TSAA => true,
    }
}

/// Meshes named with a ":nocol" suffix get no collider.
pub fn wants_collision(name: Option<&str>) -> (b: bool)
    ensures
        b == match name {
            Some(n) => !(":nocol"@.len() <= n@.len() && n@.skip(n@.len() - ":nocol"@.len())
                == ":nocol"@),
            None => true,
        },
{
    match name {
        Some(n) => !str_ends_with(n, ":nocol"),
        None => true,
    }
}

/// How a rigid body moves.
#[derive(Debug, Clone, Copy, PartialEq, Eq, Structural)]
pub enum BodyKind {
    Static,
    Dynamic,
    Kinematic,
}

/// Frames a new model is watched for ground contact.
pub const GROUND_WATCH_FRAMES: u8 = 3;

/// Whether a model marked for grounding is watched: only moving bodies are
/// (others are reported and ignored).
pub fn start_grounding(body: Option<BodyKind>) -> (b: bool)
    ensures
        b == (body == Some(BodyKind::Kinematic) || body == Some(BodyKind::Dynamic)),
{
    match body {
        Some(BodyKind::Kinematic) | Some(BodyKind::Dynamic) => true,
        _ => false,
    }
}

/// Key and frame count entries with distinct keys.
pub open spec fn keys_distinct(s: Seq<(u64, u8)>) -> bool {
    forall|i: int, j: int| 0 <= i < j < s.len() ==> #[trigger] s[i].0 != #[trigger] s[j].0
}

pub open spec fn has_key(s: Seq<(u64, u8)>, k: u64) -> bool {
    exists|i: int| 0 <= i < s.len() && #[trigger] s[i].0 == k
}

pub open spec fn entries_map(s: Seq<(u64, u8)>) -> Map<u64, u8> {
    Map::new(
        |k: u64| has_key(s, k),
        |k: u64| s[choose|i: int| 0 <= i < s.len() && #[trigger] s[i].0 == k].1,
    )
}

proof fn lemma_entry_in_map(s: Seq<(u64, u8)>, i: int)
    requires
        keys_distinct(s),
        0 <= i < s.len(),
    ensures
        entries_map(s).contains_key(s[i].0),
        entries_map(s)[s[i].0] == s[i].1,
{
    let k = s[i].0;
    assert(has_key(s, k));
    let c = choose|c: int| 0 <= c < s.len() && #[trigger] s[c].0 == k;
    if c != i {
        if c < i {
            assert(s[c].0 != s[i].0);
        } else {
            assert(s[i].0 != s[c].0);
        }
    }
}

/// Models being grounded: entity → frames left to wait for a contact.
pub struct GroundWatch {
    entries: Vec<(u64, u8)>,
}

/// What happens to a watched model this frame.
#[derive(Debug, Clone, Copy, PartialEq, Eq, Structural)]
pub enum GroundStep {
    /// Stop watching and switch the body type; lift the model out of the
    /// ground if it touched it (else report that no contact was seen).
    Finish { touched: bool },
    /// Wait another frame.
    Wait,
}

impl View for GroundWatch {
    type V = Map<u64, u8>;

    closed spec fn view(&self) -> Map<u64, u8> {
        entries_map(self.entries@)
    }
}

impl GroundWatch {
    #[verifier::type_invariant]
    closed spec fn inv(self) -> bool {
        keys_distinct(self.entries@)
    }

    pub fn new() -> (w: Self)
        ensures
            w@ == Map::<u64, u8>::empty(),
    {
        let w = GroundWatch { entries: Vec::new() };
        assert(w@ =~= Map::<u64, u8>::empty());
        w
    }

    pub fn is_empty(&self) -> (b: bool)
        ensures
            b == (self@.dom() =~= Set::<u64>::empty()),
    {
        proof {
            use_type_invariant(self);
        }
        if self.entries.len() == 0 {
            assert(self@ =~= Map::<u64, u8>::empty());
            true
        } else {
            proof {
                lemma_entry_in_map(self.entries@, 0);
            }
            false
        }
    }

    fn find(&self, ent: u64) -> (r: Option<usize>)
        ensures
            match r {
                Some(i) => i < self.entries@.len() && self.entries@[i as int].0 == ent,
                None => !has_key(self.entries@, ent),
            },
    {
        let mut i: usize = 0;
        while i < self.entries.len()
            invariant
                i <= self.entries@.len(),
                forall|j: int| 0 <= j < i ==> self.entries@[j].0 != ent,
            decreases self.entries@.len() - i,
        {
            if self.entries[i].0 == ent {
                return Some(i);
            }
            i = i + 1;
        }
        None
    }

    /// The frames left for a model, if it is watched.
    pub fn frames_of(&self, ent: u64) -> (r: Option<u8>)
        ensures
            r == if self@.contains_key(ent) {
                Some(self@[ent])
            } else {
                None::<u8>
            },
    {
        proof {
            use_type_invariant(self);
        }
        match self.find(ent) {
            Some(i) => {
                proof {
                    lemma_entry_in_map(self.entries@, i as int);
                }
                Some(self.entries[i].1)
            },
            None => None,
        }
    }

    /// The watched models.
    pub fn watched(&self) -> (r: Vec<u64>)
        ensures
            r@.to_set() == self@.dom(),
            r@.no_duplicates(),
    {
        proof {
            use_type_invariant(self);
        }
        let mut r: Vec<u64> = Vec::new();
        let mut i: usize = 0;
        while i < self.entries.len()
            invariant
                i <= self.entries@.len(),
                keys_distinct(self.entries@),
                r@.len() == i,
                forall|j: int| 0 <= j < i ==> #[trigger] r@[j] == self.entries@[j].0,
            decreases self.entries@.len() - i,
        {
            r.push(self.entries[i].0);
            i = i + 1;
        }
        assert forall|k: u64| r@.to_set().contains(k) <==> self@.dom().contains(k) by {
            if r@.to_set().contains(k) {
                let j = choose|j: int| 0 <= j < r@.len() && r@[j] == k;
                assert(self.entries@[j].0 == k);
            }
            if self@.dom().contains(k) {
                let j = choose|j: int| 0 <= j < self.entries@.len() && #[trigger] self.entries@[j].0 == k;
                assert(r@[j] == k);
                assert(r@.contains(k));
            }
        }
        assert(r@.to_set() =~= self@.dom());
        assert forall|a: int, b: int| 0 <= a < r@.len() && 0 <= b < r@.len() && a != b implies r@[a]
            != r@[b] by {
            if a < b {
                assert(self.entries@[a].0 != self.entries@[b].0);
            } else {
                assert(self.entries@[b].0 != self.entries@[a].0);
            }
        }
        r
    }

    /// Watch a model for `GROUND_WATCH_FRAMES` frames (again, if it was
    /// watched already).
    pub fn watch(&mut self, ent: u64)
        ensures
            final(self)@ == old(self)@.insert(ent, GROUND_WATCH_FRAMES),
    {
        self.set(ent, GROUND_WATCH_FRAMES);
    }

    fn set(&mut self, ent: u64, frames: u8)
        ensures
            final(self)@ == old(self)@.insert(ent, frames),
    {
        proof {
            use_type_invariant(&*self);
        }
        let found = self.find(ent);
        let mut entries: Vec<(u64, u8)> = Vec::new();
        std::mem::swap(&mut entries, &mut self.entries);
        let ghost s0 = entries@;
        match found {
            Some(i) => {
                entries.set(i, (ent, frames));
            },
            None => {
                entries.push((ent, frames));
            },
        }
        let ghost s1 = entries@;
        assert(keys_distinct(s1)) by {
            assert forall|a: int, b: int| 0 <= a < b < s1.len() implies #[trigger] s1[a].0
                != #[trigger] s1[b].0 by {
                if a < s0.len() && b < s0.len() {
                    if found is Some {
                        let i = found->0 as int;
                        if a != i && b != i {
                            assert(s1[a] == s0[a] && s1[b] == s0[b]);
                        } else if a == i {
                            assert(s1[b] == s0[b]);
                            assert(s0[a].0 != s0[b].0);
                        } else {
                            assert(s1[a] == s0[a]);
                            assert(s0[a].0 != s0[b].0);
                        }
                    } else {
                        assert(s1[a] == s0[a] && s1[b] == s0[b]);
                    }
                } else {
                    assert(s1[a] == s0[a]);
                    assert(!has_key(s0, ent));
                }
            }
        }
        assert(entries_map(s1) =~= entries_map(s0).insert(ent, frames)) by {
            assert forall|k: u64| #[trigger] entries_map(s1).contains_key(k) <==> entries_map(
                s0,
            ).insert(ent, frames).contains_key(k) by {
                if has_key(s1, k) && k != ent {
                    let j = choose|j: int| 0 <= j < s1.len() && #[trigger] s1[j].0 == k;
                    assert(s1[j] == s0[j]);
                    assert(has_key(s0, k));
                }
                if has_key(s0, k) {
                    let j = choose|j: int| 0 <= j < s0.len() && #[trigger] s0[j].0 == k;
                    if k != ent {
                        assert(s1[j] == s0[j]);
                        assert(has_key(s1, k));
                    }
                }
                if k == ent {
                    let p: int = match found {
                        Some(i) => i as int,
                        None => s0.len() as int,
                    };
                    assert(s1[p].0 == ent);
                    assert(has_key(s1, k));
                }
            }
            assert forall|k: u64| #[trigger] entries_map(s1).contains_key(k) implies entries_map(
                s1,
            )[k] == entries_map(s0).insert(ent, frames)[k] by {
                let j = choose|j: int| 0 <= j < s1.len() && #[trigger] s1[j].0 == k;
                lemma_entry_in_map(s1, j);
                if k == ent {
                    let p: int = match found {
                        Some(i) => i as int,
                        None => s0.len() as int,
                    };
                    lemma_entry_in_map(s1, p);
                } else {
                    assert(s1[j] == s0[j]);
                    lemma_entry_in_map(s0, j);
                }
            }
        }
        self.entries = entries;
    }

    fn forget(&mut self, ent: u64)
        ensures
            final(self)@ == old(self)@.remove(ent),
    {
        proof {
            use_type_invariant(&*self);
        }
        let found = self.find(ent);
        match found {
            None => {
                assert(self@ =~= old(self)@.remove(ent));
            },
            Some(i) => {
                let mut entries: Vec<(u64, u8)> = Vec::new();
                std::mem::swap(&mut entries, &mut self.entries);
                let ghost s0 = entries@;
                entries.remove(i);
                let ghost s1 = entries@;
                assert(s1 =~= s0.remove(i as int));
                assert(keys_distinct(s1)) by {
                    assert forall|a: int, b: int| 0 <= a < b < s1.len() implies #[trigger] s1[a].0
                        != #[trigger] s1[b].0 by {
                        let a0 = if a < i { a } else { a + 1 };
                        let b0 = if b < i { b } else { b + 1 };
                        assert(s1[a] == s0[a0] && s1[b] == s0[b0]);
                        assert(s0[a0].0 != s0[b0].0);
                    }
                }
                assert(entries_map(s1) =~= entries_map(s0).remove(ent)) by {
                    assert forall|k: u64| #[trigger] entries_map(s1).contains_key(k) <==> entries_map(
                        s0,
                    ).remove(ent).contains_key(k) by {
                        if has_key(s1, k) {
                            let j = choose|j: int| 0 <= j < s1.len() && #[trigger] s1[j].0 == k;
                            let j0 = if j < i { j } else { j + 1 };
                            assert(s1[j] == s0[j0]);
                            assert(has_key(s0, k));
                            if k == ent {
                                assert(s0[j0].0 == s0[i as int].0);
                                if j0 < i {
                                    assert(s0[j0].0 != s0[i as int].0);
                                } else {
                                    assert(s0[i as int].0 != s0[j0].0);
                                }
                            }
                        }
                        if has_key(s0, k) && k != ent {
                            let j = choose|j: int| 0 <= j < s0.len() && #[trigger] s0[j].0 == k;
                            assert(j != i);
                            let j1 = if j < i { j } else { j - 1 };
                            assert(s1[j1] == s0[j]);
                            assert(has_key(s1, k));
                        }
                    }
                    assert forall|k: u64| #[trigger] entries_map(s1).contains_key(k) implies entries_map(
                        s1,
                    )[k] == entries_map(s0).remove(ent)[k] by {
                        let j = choose|j: int| 0 <= j < s1.len() && #[trigger] s1[j].0 == k;
                        let j0 = if j < i { j } else { j + 1 };
                        assert(s1[j] == s0[j0]);
                        lemma_entry_in_map(s1, j);
                        lemma_entry_in_map(s0, j0);
                    }
                }
                self.entries = entries;
            },
        }
    }

    /// One frame of watching `ent`: a contact, or running out of frames,
    /// ends the watch; otherwise one frame less is left.
    pub fn step(&mut self, ent: u64, touched: bool) -> (s: GroundStep)
        requires
            old(self)@.contains_key(ent),
        ensures
            match spec_ground_step(old(self)@[ent], touched) {
                Some(left) => s == GroundStep::Wait && final(self)@ == old(self)@.insert(ent, left),
                None => s == (GroundStep::Finish { touched }) && final(self)@ == old(self)@.remove(
                    ent,
                ),
            },
    {
        let frames = match self.frames_of(ent) {
            Some(f) => f,
            None => 0,
        };
        if touched || frames <= 1 {
            self.forget(ent);
            GroundStep::Finish { touched }
        } else {
            self.set(ent, frames - 1);
            GroundStep::Wait
        }
    }
}

/// Frames left after a frame of watching, or `None` when the watch ends.
pub open spec fn spec_ground_step(frames: u8, touched: bool) -> Option<u8> {
    if touched || frames <= 1 {
        None
    } else {
        Some((frames - 1) as u8)
    }
}

/// Every watch ends: each frame without contact leaves one frame less, a
/// watch with one frame left ends in the next frame whatever happens, so a
/// new watch ends within `GROUND_WATCH_FRAMES` frames.
pub proof fn lemma_ground_watch_ends(frames: u8, touched: bool)
    ensures
        spec_ground_step(frames, touched) matches Some(left) ==> left == frames - 1 && left >= 1,
        spec_ground_step(1, touched) is None,
        spec_ground_step(GROUND_WATCH_FRAMES, false) == Some(2u8),
        spec_ground_step(2, false) == Some(1u8),
{
}

} // verus!

