//! The renderer: a per-frame draw queue and the plan that a frame turns into.
//!
//! Submissions are queued under a pass name, in an opaque or a transparent
//! bucket, and stamped with a frame-local counter. Executing the frame walks
//! the schedule: each pass drains the buckets queued under its name, opaque
//! submissions batched by material, transparent ones in the order they were
//! queued; each process step becomes one full-screen command. The result is a
//! plan: plain data that says what to draw, where, and in which order.

use crate::assets::AssetManager;
use crate::model::{Mapping, MaterialKey, MaterialUniforms, RenderTargetKey, Transform};
use crate::names::NameMap;
use crate::plan::{batch, frame_plan, plan_view, split_live, FrameStep};
use crate::schedule::{
    steps_view, step_resolves, RenderPassName, RenderSchedule, ScheduleStep, ScheduleView,
    StepView,
};
use vstd::prelude::*;

verus! {

/// One queued submission.
#[derive(Clone, PartialEq, Eq, Debug)]
pub struct RenderQueue {
    pub material: MaterialKey,
    pub mapping: Mapping,
    pub transform: Transform,
    pub uniforms: MaterialUniforms,
    pub allow_transparency: bool,
    /// The value of the frame's counter when this was queued.
    pub queue_depth: u64,
}

/// What is queued under one pass name: opaque submissions, then transparent ones.
pub type Buckets = (Seq<RenderQueue>, Seq<RenderQueue>);

/// Queue depths rise strictly along `s`.
pub open spec fn increasing(s: Seq<RenderQueue>) -> bool {
    forall|i: int, j: int|
        0 <= i < j < s.len() ==> (#[trigger] s[i]).queue_depth < (#[trigger] s[j]).queue_depth
}

/// What holds of a bucket: depths rise strictly and stay under the counter,
/// every entry is of the bucket's kind, and every transform fits its mapping.
pub open spec fn bucket_valid(s: Seq<RenderQueue>, transparent: bool, counter: u64) -> bool {
    &&& increasing(s)
    &&& forall|i: int|
        0 <= i < s.len() ==> {
            &&& (#[trigger] s[i]).queue_depth < counter
            &&& s[i].allow_transparency == transparent
            &&& s[i].transform.spec_matches(s[i].mapping)
        }
}

/// What holds of a map of queues: every bucket in it is valid.
pub open spec fn queues_valid(queues: Map<Seq<char>, Buckets>, counter: u64) -> bool {
    forall|name: Seq<char>| #[trigger]
        queues.contains_key(name) ==> {
            &&& bucket_valid(queues[name].0, false, counter)
            &&& bucket_valid(queues[name].1, true, counter)
        }
}

/// The bucket of one kind under `name`.
pub open spec fn bucket_of(queues: Map<Seq<char>, Buckets>, name: Seq<char>, transparent: bool) -> Seq<
    RenderQueue,
> {
    if transparent {
        queues[name].1
    } else {
        queues[name].0
    }
}

/// Whether the bucket of one kind under `name` has an entry at `i`.
pub open spec fn holds_at(
    queues: Map<Seq<char>, Buckets>,
    name: Seq<char>,
    transparent: bool,
    i: int,
) -> bool {
    queues.contains_key(name) && 0 <= i < bucket_of(queues, name, transparent).len()
}

/// No two entries, in whatever buckets, carry the same queue depth.
pub open spec fn depths_unique(queues: Map<Seq<char>, Buckets>) -> bool {
    forall|n1: Seq<char>, t1: bool, i1: int, n2: Seq<char>, t2: bool, i2: int|
        #![trigger bucket_of(queues, n1, t1)[i1], bucket_of(queues, n2, t2)[i2]]
        holds_at(queues, n1, t1, i1) && holds_at(queues, n2, t2, i2) && bucket_of(
            queues,
            n1,
            t1,
        )[i1].queue_depth == bucket_of(queues, n2, t2)[i2].queue_depth ==> n1 == n2 && t1 == t2
            && i1 == i2
}

/// One call of [`Renderer::queue`], as a mathematical value.
pub struct Submission {
    pub material: MaterialKey,
    pub mapping: Mapping,
    pub transform: Transform,
    pub uniforms: MaterialUniforms,
    pub pass_name: Seq<char>,
    pub allow_transparency: bool,
}

impl Submission {
    /// The queue entry that this submission becomes when it is stamped with `depth`.
    pub open spec fn entry(self, depth: u64) -> RenderQueue {
        RenderQueue {
            material: self.material,
            mapping: self.mapping,
            transform: self.transform,
            uniforms: self.uniforms,
            allow_transparency: self.allow_transparency,
            queue_depth: depth,
        }
    }

    /// What `queue` answers to this submission.
    pub open spec fn answer(self) -> Result<(), QueueError> {
        if self.transform.spec_matches(self.mapping) {
            Ok(())
        } else {
            Err(QueueError::TransformMismatch)
        }
    }
}

/// A [`Renderer`] as a mathematical value.
pub struct RendererView {
    pub schedule: ScheduleView,
    pub queues: Map<Seq<char>, Buckets>,
    pub depth_counter: u64,
}

impl RendererView {
    /// What is queued under `pass_name`; two empty buckets where nothing is.
    pub open spec fn buckets(self, pass_name: Seq<char>) -> Buckets {
        if self.queues.contains_key(pass_name) {
            self.queues[pass_name]
        } else {
            (Seq::empty(), Seq::empty())
        }
    }

    /// The renderer after `entry` was queued under `pass_name`: the entry is
    /// last in the bucket of its kind, and the counter has moved on by one.
    pub open spec fn queued(self, entry: RenderQueue, pass_name: Seq<char>) -> RendererView {
        let before = self.buckets(pass_name);
        let after = if entry.allow_transparency {
            (before.0, before.1.push(entry))
        } else {
            (before.0.push(entry), before.1)
        };
        RendererView {
            schedule: self.schedule,
            queues: self.queues.insert(pass_name, after),
            depth_counter: (self.depth_counter + 1) as u64,
        }
    }

    /// The renderer after one call of `queue`: a submission that is accepted
    /// is queued, one that is refused changes nothing.
    pub open spec fn submit(self, submission: Submission) -> RendererView {
        if submission.answer() is Ok {
            self.queued(submission.entry(self.depth_counter), submission.pass_name)
        } else {
            self
        }
    }

    /// The renderer after a sequence of calls of `queue`.
    pub open spec fn submit_all(self, calls: Seq<Submission>) -> RendererView
        decreases calls.len(),
    {
        if calls.len() == 0 {
            self
        } else {
            self.submit_all(calls.drop_last()).submit(calls.last())
        }
    }

    /// Whether the counter has a value left for one more submission.
    pub open spec fn has_room(self) -> bool {
        self.depth_counter < u64::MAX
    }

    /// What holds of every renderer: a valid schedule, valid buckets, and a
    /// queue depth that belongs to one submission alone.
    pub open spec fn valid(self) -> bool {
        &&& self.schedule.valid()
        &&& queues_valid(self.queues, self.depth_counter)
        &&& depths_unique(self.queues)
    }

    /// Queueing keeps a renderer valid.
    pub proof fn lemma_submit_valid(self, submission: Submission)
        requires
            self.valid(),
            self.has_room(),
        ensures
            self.submit(submission).valid(),
    {
        if submission.answer() is Ok {
            let after = self.submit(submission);
            let entry = submission.entry(self.depth_counter);
            let name = submission.pass_name;
            assert forall|other: Seq<char>| #[trigger] after.queues.contains_key(other) implies {
                &&& bucket_valid(after.queues[other].0, false, after.depth_counter)
                &&& bucket_valid(after.queues[other].1, true, after.depth_counter)
            } by {
                if other != name {
                    assert(self.queues.contains_key(other));
                } else if self.queues.contains_key(other) {
                    assert(bucket_valid(self.queues[other].0, false, self.depth_counter));
                    assert(bucket_valid(self.queues[other].1, true, self.depth_counter));
                }
            }
            let fresh = |n: Seq<char>, t: bool, i: int|
                n == name && t == entry.allow_transparency && i == bucket_of(
                    after.queues,
                    n,
                    t,
                ).len() - 1;
            assert forall|n: Seq<char>, t: bool, i: int|
                holds_at(after.queues, n, t, i) && !fresh(n, t, i) implies holds_at(
                self.queues,
                n,
                t,
                i,
            ) && bucket_of(self.queues, n, t)[i] == #[trigger] bucket_of(after.queues, n, t)[i]
                && bucket_of(self.queues, n, t)[i].queue_depth < self.depth_counter by {
                if n == name {
                    assert(self.queues.contains_key(n));
                }
                assert(bucket_valid(self.queues[n].0, false, self.depth_counter));
                assert(bucket_valid(self.queues[n].1, true, self.depth_counter));
            }
            assert forall|n: Seq<char>, t: bool, i: int|
                holds_at(after.queues, n, t, i) && fresh(n, t, i) implies (#[trigger] bucket_of(
                after.queues,
                n,
                t,
            )[i]).queue_depth == self.depth_counter by {}
            assert forall|n1: Seq<char>, t1: bool, i1: int, n2: Seq<char>, t2: bool, i2: int|
                #![trigger bucket_of(after.queues, n1, t1)[i1], bucket_of(after.queues, n2, t2)[i2]]
                holds_at(after.queues, n1, t1, i1) && holds_at(after.queues, n2, t2, i2)
                    && bucket_of(after.queues, n1, t1)[i1].queue_depth == bucket_of(
                    after.queues,
                    n2,
                    t2,
                )[i2].queue_depth implies n1 == n2 && t1 == t2 && i1 == i2 by {
                if !fresh(n1, t1, i1) && !fresh(n2, t2, i2) {
                    assert(bucket_of(self.queues, n1, t1)[i1].queue_depth == bucket_of(
                        self.queues,
                        n2,
                        t2,
                    )[i2].queue_depth);
                }
            }
        }
    }
}

/// Why a submission was not queued.
#[derive(Clone, Copy, PartialEq, Eq, Structural, Debug)]
pub enum QueueError {
    /// A sprite mapping came with a mesh transform, or a mesh mapping with a
    /// sprite transform.
    TransformMismatch,
}

/// The buckets of a map of queues, as sequences.
pub open spec fn queues_view(
    queues: Map<Seq<char>, (Vec<RenderQueue>, Vec<RenderQueue>)>,
) -> Map<Seq<char>, Buckets> {
    Map::new(
        |name: Seq<char>| queues.contains_key(name),
        |name: Seq<char>| (queues[name].0@, queues[name].1@),
    )
}

/// The renderer of one window.
pub struct Renderer {
    schedule: RenderSchedule,
    queues: NameMap<(Vec<RenderQueue>, Vec<RenderQueue>)>,
    depth_counter: u64,
}

impl View for Renderer {
    type V = RendererView;

    closed spec fn view(&self) -> RendererView {
        RendererView {
            schedule: self.schedule@,
            queues: queues_view(self.queues@),
            depth_counter: self.depth_counter,
        }
    }
}

impl Renderer {
    /// The representation is sound and the view is valid.
    pub closed spec fn wf(&self) -> bool {
        &&& self.schedule.wf()
        &&& self.queues.wf()
        &&& self@.valid()
    }

    /// A well-formed renderer is a valid one.
    pub proof fn lemma_valid(self)
        requires
            self.wf(),
        ensures
            self@.valid(),
    {
    }

    /// A renderer with nothing queued and a schedule that knows only the screen.
    pub fn new() -> (renderer: Self)
        ensures
            renderer.wf(),
            renderer@.queues == Map::<Seq<char>, Buckets>::empty(),
            renderer@.depth_counter == 0,
            renderer@.schedule.steps == Seq::<StepView>::empty(),
            renderer@.schedule.pass_names == Seq::<Seq<char>>::empty(),
            renderer@.schedule.render_targets == Map::<Seq<char>, RenderTargetKey>::empty().insert(
                crate::schedule::screen_name(),
                RenderTargetKey::Screen,
            ),
    {
        let schedule = RenderSchedule::builder();
        proof {
            schedule.lemma_valid();
        }
        let renderer = Renderer { schedule, queues: NameMap::new(), depth_counter: 0 };
        assert(renderer@.queues =~= Map::<Seq<char>, Buckets>::empty());
        renderer
    }

    /// Replaces the schedule. What is queued stays queued.
    pub fn set_schedule(&mut self, schedule: RenderSchedule)
        requires
            old(self).wf(),
            schedule.wf(),
        ensures
            final(self).wf(),
            final(self)@ == (RendererView { schedule: schedule@, ..old(self)@ }),
    {
        proof {
            schedule.lemma_valid();
        }
        self.schedule = schedule;
    }

    /// The schedule that frames are executed by.
    pub fn schedule(&self) -> (schedule: &RenderSchedule)
        requires
            self.wf(),
        ensures
            schedule.wf(),
            schedule@ == self@.schedule,
    {
        &self.schedule
    }

    /// The number of submissions accepted since the frame began.
    pub fn depth_counter(&self) -> (counter: u64)
        ensures
            counter == self@.depth_counter,
    {
        self.depth_counter
    }

    /// The offscreen target cached under `name` in `assets`; where there is
    /// none yet, a new texture of `size` is recorded and cached under `name`.
    pub fn create_dynamic_render_target(
        &self,
        assets: &mut AssetManager,
        size: (u32, u32),
        name: &str,
    ) -> (target: RenderTargetKey)
        requires
            old(assets).wf(),
            !old(assets)@.dynamic_targets.contains_key(name@) ==> old(assets)@.textures.len()
                < crate::slots::SLOT_LIMIT,
        ensures
            final(assets).wf(),
            crate::assets::dynamic_target_created(
                old(assets)@,
                size,
                name@,
                final(assets)@,
                target,
            ),
    {
        assets.create_dynamic_render_target(size, name)
    }

    /// Queues one submission under `pass_name`, in the transparent bucket if
    /// `allow_transparency` is set and in the opaque one otherwise, and
    /// stamps it with the frame's counter. A submission whose transform is
    /// not of the kind of its mapping is refused. The pass need not be
    /// scheduled: what is queued under a name that no pass of the schedule
    /// carries is dropped when the frame is executed.
    ///
    /// The counter must have a value left: a frame takes `u64::MAX` submissions.
    pub fn queue(
        &mut self,
        material: MaterialKey,
        mapping: Mapping,
        transform: Transform,
        uniforms: MaterialUniforms,
        pass_name: RenderPassName,
        allow_transparency: bool,
    ) -> (result: Result<(), QueueError>)
        requires
            old(self).wf(),
            old(self)@.has_room(),
        ensures
            final(self).wf(),
            result == (Submission {
                material,
                mapping,
                transform,
                uniforms,
                pass_name: pass_name@,
                allow_transparency,
            }).answer(),
            final(self)@ == old(self)@.submit(
                Submission {
                    material,
                    mapping,
                    transform,
                    uniforms,
                    pass_name: pass_name@,
                    allow_transparency,
                },
            ),
    {
        let ghost submission = Submission {
            material,
            mapping,
            transform,
            uniforms,
            pass_name: pass_name@,
            allow_transparency,
        };
        if !transform.matches(&mapping) {
            return Err(QueueError::TransformMismatch);
        }
        let entry = RenderQueue {
            material,
            mapping,
            transform,
            uniforms,
            allow_transparency,
            queue_depth: self.depth_counter,
        };
        self.depth_counter += 1;
        let mut buckets = match self.queues.remove(&pass_name) {
            Some(found) => found,
            None => (Vec::new(), Vec::new()),
        };
        if allow_transparency {
            buckets.1.push(entry);
        } else {
            buckets.0.push(entry);
        }
        let ghost after = (buckets.0@, buckets.1@);
        self.queues.insert(pass_name, buckets);
        proof {
            let before = old(self)@;
            assert(entry == submission.entry(before.depth_counter));
            assert(self@.queues =~= before.queues.insert(pass_name@, after));
            assert(self@ == before.submit(submission));
            before.lemma_submit_valid(submission);
        }
        Ok(())
    }

    /// Executes the frame: turns the schedule and what is queued into a plan,
    /// then empties the queues and resets the counter. Submissions whose
    /// handles are no longer live in `assets` are set aside, not drawn.
    pub fn execute(&mut self, assets: &AssetManager) -> (plan: Vec<FrameStep>)
        requires
            old(self).wf(),
        ensures
            final(self).wf(),
            plan_view(plan@) == frame_plan(
                assets@,
                old(self)@.schedule.render_targets,
                old(self)@.schedule.steps,
                old(self)@.queues,
            ),
            final(self)@ == (RendererView {
                schedule: old(self)@.schedule,
                queues: Map::empty(),
                depth_counter: 0,
            }),
    {
        let mut plan: Vec<FrameStep> = Vec::new();
        let ghost targets = self@.schedule.render_targets;
        let ghost steps = self@.schedule.steps;
        let ghost queued = self@.queues;
        proof {
            assert(plan_view(plan@) =~= Seq::empty());
            assert(steps.skip(0) =~= steps);
            assert(plan_view(plan@) + frame_plan(assets@, targets, steps, queued) =~= frame_plan(
                assets@,
                targets,
                steps,
                queued,
            ));
        }
        let count = self.schedule.steps().len();
        let mut i: usize = 0;
        while i < count
            invariant
                self.schedule == old(self).schedule,
                self.schedule.wf(),
                self.queues.wf(),
                targets == self.schedule@.render_targets,
                steps == self.schedule@.steps,
                self.schedule@.valid(),
                count == steps.len(),
                i <= count,
                plan_view(plan@) + frame_plan(
                    assets@,
                    targets,
                    steps.skip(i as int),
                    queues_view(self.queues@),
                ) == frame_plan(assets@, targets, steps, queued),
            decreases count - i,
        {
            let ghost done = plan_view(plan@);
            let ghost remaining = steps.skip(i as int);
            let ghost before = queues_view(self.queues@);
            proof {
                assert(remaining.len() > 0);
                assert(remaining[0] == steps[i as int]);
                assert(remaining.skip(1) =~= steps.skip(i + 1));
                assert(step_resolves(targets, steps[i as int]));
            }
            let all_steps = self.schedule.steps();
            let step = &all_steps[i];
            assert(step@ == steps[i as int]) by {
                assert(steps_view(all_steps@)[i as int] == step@);
            }
            match step {
                ScheduleStep::Pass { render_pass, target } => {
                    let target_key = self.schedule.render_target(target).unwrap();
                    match self.queues.remove(render_pass) {
                        Some(buckets) => {
                            let ghost found = (buckets.0@, buckets.1@);
                            let mut stale: Vec<RenderQueue> = Vec::new();
                            let live_opaque = split_live(assets, buckets.0, &mut stale);
                            let transparent = split_live(assets, buckets.1, &mut stale);
                            let opaque = batch(live_opaque);
                            let frame_step = FrameStep::Pass {
                                render_pass: render_pass.clone(),
                                target: target_key,
                                opaque,
                                transparent,
                                stale,
                            };
                            proof {
                                assert(before.contains_key(render_pass@));
                                assert(before[render_pass@] == found);
                                assert(queues_view(self.queues@) =~= before.remove(render_pass@));
                                assert(frame_step@->stale =~= found.0.filter(
                                    crate::plan::stale_in(assets@),
                                ) + found.1.filter(crate::plan::stale_in(assets@)));
                                assert(frame_step@ == crate::plan::pass_step(
                                    assets@,
                                    render_pass@,
                                    targets[target@],
                                    found,
                                ));
                                assert(plan_view(plan@.push(frame_step)) =~= done.push(
                                    frame_step@,
                                ));
                                assert(done.push(frame_step@) + frame_plan(
                                    assets@,
                                    targets,
                                    steps.skip(i + 1),
                                    queues_view(self.queues@),
                                ) =~= done + frame_plan(assets@, targets, remaining, before));
                            }
                            plan.push(frame_step);
                        },
                        None => {
                            proof {
                                assert(!before.contains_key(render_pass@));
                                assert(queues_view(self.queues@) =~= before);
                            }
                        },
                    }
                },
                ScheduleStep::Process { subject, shader, target } => {
                    let subject_key = self.schedule.render_target(subject).unwrap();
                    let target_key = self.schedule.render_target(target).unwrap();
                    let frame_step = if assets.has_shader(*shader) {
                        FrameStep::Process {
                            subject: subject_key,
                            shader: *shader,
                            target: target_key,
                        }
                    } else {
                        FrameStep::StaleProcess { shader: *shader }
                    };
                    proof {
                        assert(frame_step@ == crate::plan::process_step(
                            assets@,
                            targets[subject@],
                            *shader,
                            targets[target@],
                        ));
                        assert(plan_view(plan@.push(frame_step)) =~= done.push(frame_step@));
                        assert(done.push(frame_step@) + frame_plan(
                            assets@,
                            targets,
                            steps.skip(i + 1),
                            before,
                        ) =~= done + frame_plan(assets@, targets, remaining, before));
                    }
                    plan.push(frame_step);
                },
            }
            i += 1;
        }
        proof {
            assert(steps.skip(count as int) =~= Seq::empty());
        }
        self.queues.clear();
        self.depth_counter = 0;
        proof {
            assert(self@.queues =~= Map::empty());
        }
        plan
    }
}

} // verus!
