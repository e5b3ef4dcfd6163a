//! The frame plan: what executing a schedule over a set of queues comes to.
//!
//! The plan is defined here as a mathematical function of the schedule, the
//! queues and the resource tables. The renderer computes it; the laws at the
//! end of this file say what follows from the definition.

use crate::assets::{AssetManager, AssetsView};
use crate::model::{MaterialKey, RenderTargetKey, ShaderKey};
use crate::render::{Buckets, RenderQueue};
use crate::schedule::{RenderPassName, StepView};
use vstd::prelude::*;

verus! {

/// One step of an executed frame.
#[derive(PartialEq, Eq, Debug)]
pub enum FrameStep {
    /// Draw into `target`: first `opaque`, depth-tested and batched by
    /// material, then `transparent`, blended, in the order given. `stale`
    /// holds the submissions of this pass that were skipped because a handle
    /// they refer to is no longer live.
    Pass {
        render_pass: RenderPassName,
        target: RenderTargetKey,
        opaque: Vec<RenderQueue>,
        transparent: Vec<RenderQueue>,
        stale: Vec<RenderQueue>,
    },
    /// Run `shader` over the whole of `target`, reading `subject`.
    Process { subject: RenderTargetKey, shader: ShaderKey, target: RenderTargetKey },
    /// A process step that was skipped because its shader is no longer live.
    StaleProcess { shader: ShaderKey },
}

/// A [`FrameStep`] as a mathematical value.
pub enum FrameStepView {
    Pass {
        render_pass: Seq<char>,
        target: RenderTargetKey,
        opaque: Seq<RenderQueue>,
        transparent: Seq<RenderQueue>,
        stale: Seq<RenderQueue>,
    },
    Process { subject: RenderTargetKey, shader: ShaderKey, target: RenderTargetKey },
    StaleProcess { shader: ShaderKey },
}

impl View for FrameStep {
    type V = FrameStepView;

    open spec fn view(&self) -> FrameStepView {
        match self {
            FrameStep::Pass { render_pass, target, opaque, transparent, stale } => {
                FrameStepView::Pass {
                    render_pass: render_pass@,
                    target: *target,
                    opaque: opaque@,
                    transparent: transparent@,
                    stale: stale@,
                }
            },
            FrameStep::Process { subject, shader, target } => FrameStepView::Process {
                subject: *subject,
                shader: *shader,
                target: *target,
            },
            FrameStep::StaleProcess { shader } => FrameStepView::StaleProcess { shader: *shader },
        }
    }
}

/// The steps of a plan, as mathematical values.
pub open spec fn plan_view(plan: Seq<FrameStep>) -> Seq<FrameStepView> {
    plan.map_values(|step: FrameStep| step@)
}

/// The submissions that can be drawn with these tables.
pub open spec fn live_in(assets: AssetsView) -> spec_fn(RenderQueue) -> bool {
    |entry: RenderQueue| assets.submission_live(entry.material, entry.mapping)
}

/// The submissions that cannot be drawn with these tables.
pub open spec fn stale_in(assets: AssetsView) -> spec_fn(RenderQueue) -> bool {
    |entry: RenderQueue| !assets.submission_live(entry.material, entry.mapping)
}

/// The submissions of `material`.
pub open spec fn of_material(material: MaterialKey) -> spec_fn(RenderQueue) -> bool {
    |entry: RenderQueue| entry.material == material
}

/// The submissions of any material but `material`.
pub open spec fn not_of_material(material: MaterialKey) -> spec_fn(RenderQueue) -> bool {
    |entry: RenderQueue| entry.material != material
}

/// A filter that drops some element yields a shorter sequence.
pub proof fn lemma_filter_shorter<A>(s: Seq<A>, pred: spec_fn(A) -> bool, i: int)
    requires
        0 <= i < s.len(),
        !pred(s[i]),
    ensures
        s.filter(pred).len() < s.len(),
    decreases s.len(),
{
    reveal(Seq::filter);
    if i == s.len() - 1 {
        s.drop_last().lemma_filter_len(pred);
    } else {
        lemma_filter_shorter(s.drop_last(), pred, i);
    }
}

/// The order in which opaque submissions are drawn: the submissions of the
/// first material, in the order they were queued, then in the same way those
/// of the material that comes first among the rest, and so on.
pub open spec fn batch_order(s: Seq<RenderQueue>) -> Seq<RenderQueue>
    decreases s.len(),
    via batch_order_decreases
{
    if s.len() == 0 {
        s
    } else {
        s.filter(of_material(s[0].material)) + batch_order(
            s.filter(not_of_material(s[0].material)),
        )
    }
}

#[via_fn]
proof fn batch_order_decreases(s: Seq<RenderQueue>) {
    if s.len() != 0 {
        lemma_filter_shorter(s, not_of_material(s[0].material), 0);
    }
}

/// What a pass comes to, given what was queued under its name.
pub open spec fn pass_step(
    assets: AssetsView,
    render_pass: Seq<char>,
    target: RenderTargetKey,
    buckets: Buckets,
) -> FrameStepView {
    FrameStepView::Pass {
        render_pass,
        target,
        opaque: batch_order(buckets.0.filter(live_in(assets))),
        transparent: buckets.1.filter(live_in(assets)),
        stale: buckets.0.filter(stale_in(assets)) + buckets.1.filter(stale_in(assets)),
    }
}

/// What a process step comes to.
pub open spec fn process_step(
    assets: AssetsView,
    subject: RenderTargetKey,
    shader: ShaderKey,
    target: RenderTargetKey,
) -> FrameStepView {
    if assets.shaders.contains(shader.raw) {
        FrameStepView::Process { subject, shader, target }
    } else {
        FrameStepView::StaleProcess { shader }
    }
}

/// The plan of a frame. Steps are taken in order. A pass takes what is queued
/// under its name out of the queues, so that a later pass of the same name
/// finds nothing; a pass that finds nothing adds nothing to the plan.
pub open spec fn frame_plan(
    assets: AssetsView,
    targets: Map<Seq<char>, RenderTargetKey>,
    steps: Seq<StepView>,
    queues: Map<Seq<char>, Buckets>,
) -> Seq<FrameStepView>
    decreases steps.len(),
{
    if steps.len() == 0 {
        Seq::empty()
    } else {
        match steps[0] {
            StepView::Pass { render_pass, target } => if queues.contains_key(render_pass) {
                seq![pass_step(assets, render_pass, targets[target], queues[render_pass])]
                    + frame_plan(assets, targets, steps.skip(1), queues.remove(render_pass))
            } else {
                frame_plan(assets, targets, steps.skip(1), queues)
            },
            StepView::Process { subject, shader, target } => seq![
                process_step(assets, targets[subject], shader, targets[target]),
            ] + frame_plan(assets, targets, steps.skip(1), queues),
        }
    }
}

/// Moves the live entries of `entries` into the result and the stale ones to
/// the end of `stale`, each in the order they came in.
pub(crate) fn split_live(
    assets: &AssetManager,
    entries: Vec<RenderQueue>,
    stale: &mut Vec<RenderQueue>,
) -> (live: Vec<RenderQueue>)
    ensures
        live@ == entries@.filter(live_in(assets@)),
        final(stale)@ == old(stale)@ + entries@.filter(stale_in(assets@)),
{
    let mut live: Vec<RenderQueue> = Vec::new();
    let ghost all = entries@;
    let ghost stale_before = stale@;
    assert(all.take(0).filter(live_in(assets@)) =~= Seq::empty()) by {
        reveal(Seq::filter);
    }
    assert(stale_before + all.take(0).filter(stale_in(assets@)) =~= stale_before) by {
        reveal(Seq::filter);
    }
    for entry in it: entries.into_iter()
        invariant
            it.seq() == all,
            live@ == all.take(it.index() as int).filter(live_in(assets@)),
            stale@ == stale_before + all.take(it.index() as int).filter(stale_in(assets@)),
    {
        let ghost k = it.index() as int;
        proof {
            assert(all.take(k + 1) =~= all.take(k).push(all[k]));
            all.take(k).lemma_filter_push(all[k], live_in(assets@));
            all.take(k).lemma_filter_push(all[k], stale_in(assets@));
        }
        if assets.is_live(entry.material, &entry.mapping) {
            live.push(entry);
        } else {
            stale.push(entry);
            assert(stale@ =~= stale_before + all.take(k + 1).filter(stale_in(assets@)));
        }
    }
    assert(all.take(all.len() as int) =~= all);
    live
}

/// Splits `entries` into those of `material` and the others, each in the
/// order they came in.
fn split_material(entries: Vec<RenderQueue>, material: MaterialKey) -> (parts: (
    Vec<RenderQueue>,
    Vec<RenderQueue>,
))
    ensures
        parts.0@ == entries@.filter(of_material(material)),
        parts.1@ == entries@.filter(not_of_material(material)),
{
    let mut same: Vec<RenderQueue> = Vec::new();
    let mut other: Vec<RenderQueue> = Vec::new();
    let ghost all = entries@;
    assert(all.take(0).filter(of_material(material)) =~= Seq::empty()) by {
        reveal(Seq::filter);
    }
    assert(all.take(0).filter(not_of_material(material)) =~= Seq::empty()) by {
        reveal(Seq::filter);
    }
    for entry in it: entries.into_iter()
        invariant
            it.seq() == all,
            same@ == all.take(it.index() as int).filter(of_material(material)),
            other@ == all.take(it.index() as int).filter(not_of_material(material)),
    {
        let ghost k = it.index() as int;
        proof {
            assert(all.take(k + 1) =~= all.take(k).push(all[k]));
            all.take(k).lemma_filter_push(all[k], of_material(material));
            all.take(k).lemma_filter_push(all[k], not_of_material(material));
        }
        if entry.material == material {
            same.push(entry);
        } else {
            other.push(entry);
        }
    }
    assert(all.take(all.len() as int) =~= all);
    (same, other)
}

/// Puts opaque submissions into the order in which they are drawn.
pub(crate) fn batch(entries: Vec<RenderQueue>) -> (ordered: Vec<RenderQueue>)
    ensures
        ordered@ == batch_order(entries@),
{
    let ghost all = entries@;
    let mut rest = entries;
    let mut ordered: Vec<RenderQueue> = Vec::new();
    assert(ordered@ + batch_order(rest@) =~= batch_order(all));
    while rest.len() > 0
        invariant
            ordered@ + batch_order(rest@) == batch_order(all),
        decreases rest@.len(),
    {
        let material = rest[0].material;
        let ghost before = rest@;
        let ghost done = ordered@;
        proof {
            lemma_filter_shorter(before, not_of_material(material), 0);
        }
        let (mut same, other) = split_material(rest, material);
        ordered.append(&mut same);
        rest = other;
        assert(ordered@ + batch_order(rest@) =~= done + batch_order(before));
    }
    assert(ordered@ + batch_order(rest@) =~= ordered@);
    ordered
}

} // verus!
