//! What follows from the definition of the frame plan.
//!
//! Each law is a proof function over the mathematical values that the
//! contracts of the renderer speak of.

use crate::assets::AssetsView;
use crate::model::RenderTargetKey;
use crate::plan::{
    batch_order, frame_plan, live_in, not_of_material, of_material, pass_step, stale_in,
    lemma_filter_shorter, FrameStepView,
};
use crate::render::{
    bucket_valid, increasing, queues_valid, Buckets, RenderQueue, RendererView, Submission,
};
use crate::schedule::{is_pass_named, scheduled, StepView};
use vstd::multiset::Multiset;
use vstd::prelude::*;

verus! {

/// A filter over one element keeps it or drops it.
pub proof fn lemma_filter_one<A>(x: A, pred: spec_fn(A) -> bool)
    ensures
        seq![x].filter(pred) == if pred(x) {
            seq![x]
        } else {
            Seq::<A>::empty()
        },
{
    reveal_with_fuel(Seq::filter, 2);
    assert(seq![x].drop_last() =~= Seq::<A>::empty());
    assert(Seq::<A>::empty().push(x) =~= seq![x]);
}

/// Two filters by opposite conditions split a sequence: between them they
/// hold every element exactly as often as the sequence does.
pub proof fn lemma_filter_split<A>(s: Seq<A>, keep: spec_fn(A) -> bool, drop: spec_fn(A) -> bool)
    requires
        forall|x: A| #[trigger] drop(x) == !keep(x),
    ensures
        s.filter(keep).to_multiset().add(s.filter(drop).to_multiset()) == s.to_multiset(),
        s.filter(keep).len() + s.filter(drop).len() == s.len(),
    decreases s.len(),
{
    broadcast use vstd::multiset::group_multiset_axioms;
    broadcast use vstd::seq_lib::to_multiset_build;

    reveal(Seq::filter);
    if s.len() == 0 {
        vstd::seq_lib::to_multiset_len(s);
        vstd::multiset::lemma_multiset_empty_len(s.to_multiset());
        assert(s.filter(keep).to_multiset().add(s.filter(drop).to_multiset()) =~= s.to_multiset());
    } else {
        let init = s.drop_last();
        let last = s.last();
        lemma_filter_split(init, keep, drop);
        assert(s =~= init.push(last));
        assert(s.to_multiset() =~= init.to_multiset().insert(last));
        assert(drop(last) == !keep(last));
        assert(s.filter(keep).to_multiset().add(s.filter(drop).to_multiset()) =~= s.to_multiset());
    }
}

/// Everything that a filter keeps meets the filter's condition and whatever
/// held of every element before.
pub proof fn lemma_filter_keeps(
    s: Seq<RenderQueue>,
    pred: spec_fn(RenderQueue) -> bool,
    held: spec_fn(RenderQueue) -> bool,
)
    requires
        forall|i: int| 0 <= i < s.len() ==> held(#[trigger] s[i]),
    ensures
        forall|i: int| 0 <= i < s.filter(pred).len() ==> held(#[trigger] s.filter(pred)[i]),
        forall|i: int| 0 <= i < s.filter(pred).len() ==> pred(#[trigger] s.filter(pred)[i]),
    decreases s.len(),
{
    reveal(Seq::filter);
    if s.len() > 0 {
        let init = s.drop_last();
        assert forall|i: int| 0 <= i < init.len() implies held(#[trigger] init[i]) by {
            assert(init[i] == s[i]);
        }
        lemma_filter_keeps(init, pred, held);
        assert(held(s[s.len() - 1]));
        let kept = init.filter(pred);
        assert forall|i: int| 0 <= i < s.filter(pred).len() implies held(
            #[trigger] s.filter(pred)[i],
        ) && pred(s.filter(pred)[i]) by {
            if i < kept.len() {
                assert(s.filter(pred)[i] == kept[i]);
            } else {
                assert(s.filter(pred)[i] == s.last());
            }
        }
    }
}

/// A filter keeps the elements in their order: along a sequence whose queue
/// depths rise, they rise along what is kept as well.
pub proof fn lemma_filter_keeps_order(s: Seq<RenderQueue>, pred: spec_fn(RenderQueue) -> bool)
    requires
        increasing(s),
    ensures
        increasing(s.filter(pred)),
    decreases s.len(),
{
    reveal(Seq::filter);
    if s.len() > 0 {
        let init = s.drop_last();
        let last = s.last();
        assert forall|i: int, j: int| 0 <= i < j < init.len() implies (#[trigger] init[i]).queue_depth
            < (#[trigger] init[j]).queue_depth by {
            assert(init[i] == s[i] && init[j] == s[j]);
        }
        lemma_filter_keeps_order(init, pred);
        let kept = init.filter(pred);
        let below = |e: RenderQueue| e.queue_depth < last.queue_depth;
        assert forall|i: int| 0 <= i < init.len() implies below(#[trigger] init[i]) by {
            assert(init[i] == s[i]);
            assert(s[i].queue_depth < s[s.len() - 1].queue_depth);
        }
        lemma_filter_keeps(init, pred, below);
        assert forall|i: int| 0 <= i < kept.len() implies (#[trigger] kept[i]).queue_depth
            < last.queue_depth by {
            assert(below(kept[i]));
        }
    }
}

/// Batching reorders and nothing else: the batched sequence holds every
/// submission exactly as often as the sequence it was made from.
pub proof fn lemma_batch_order_permutes(s: Seq<RenderQueue>)
    ensures
        batch_order(s).to_multiset() == s.to_multiset(),
        batch_order(s).len() == s.len(),
    decreases s.len(),
{
    broadcast use vstd::multiset::group_multiset_axioms;

    if s.len() > 0 {
        let material = s[0].material;
        let same = s.filter(of_material(material));
        let rest = s.filter(not_of_material(material));
        lemma_filter_shorter(s, not_of_material(material), 0);
        lemma_batch_order_permutes(rest);
        lemma_filter_split(s, of_material(material), not_of_material(material));
        vstd::seq_lib::lemma_multiset_commutative(same, batch_order(rest));
        assert(batch_order(s).to_multiset() =~= s.to_multiset());
    }
}

/// Whatever held of every submission holds of every batched one.
pub proof fn lemma_batch_order_keeps(s: Seq<RenderQueue>, held: spec_fn(RenderQueue) -> bool)
    requires
        forall|i: int| 0 <= i < s.len() ==> held(#[trigger] s[i]),
    ensures
        forall|i: int| 0 <= i < batch_order(s).len() ==> held(#[trigger] batch_order(s)[i]),
    decreases s.len(),
{
    if s.len() > 0 {
        let material = s[0].material;
        let same = s.filter(of_material(material));
        let rest = s.filter(not_of_material(material));
        lemma_filter_shorter(s, not_of_material(material), 0);
        lemma_filter_keeps(s, of_material(material), held);
        lemma_filter_keeps(s, not_of_material(material), held);
        lemma_batch_order_keeps(rest, held);
        assert forall|i: int| 0 <= i < batch_order(s).len() implies held(
            #[trigger] batch_order(s)[i],
        ) by {
            if i < same.len() {
                assert(batch_order(s)[i] == same[i]);
            } else {
                assert(batch_order(s)[i] == batch_order(rest)[i - same.len()]);
            }
        }
    }
}

/// Batching groups by material: between two submissions of one material
/// stands no submission of another.
pub proof fn lemma_batch_order_groups(s: Seq<RenderQueue>, i: int, j: int, k: int)
    requires
        0 <= i <= j <= k < batch_order(s).len(),
        batch_order(s)[i].material == batch_order(s)[k].material,
    ensures
        batch_order(s)[j].material == batch_order(s)[i].material,
    decreases s.len(),
{
    if s.len() > 0 {
        let material = s[0].material;
        let same = s.filter(of_material(material));
        let rest = s.filter(not_of_material(material));
        lemma_filter_shorter(s, not_of_material(material), 0);
        lemma_filter_keeps(s, of_material(material), |e: RenderQueue| true);
        lemma_filter_keeps(s, not_of_material(material), |e: RenderQueue| true);
        lemma_batch_order_keeps(rest, not_of_material(material));
        let ordered = batch_order(s);
        assert(ordered == same + batch_order(rest));
        assert forall|n: int| 0 <= n < same.len() implies (#[trigger] ordered[n]).material
            == material by {
            assert(ordered[n] == same[n]);
            assert(of_material(material)(same[n]));
        }
        assert forall|n: int| same.len() <= n < ordered.len() implies (
        #[trigger] ordered[n]).material != material by {
            assert(ordered[n] == batch_order(rest)[n - same.len()]);
            assert(not_of_material(material)(batch_order(rest)[n - same.len()]));
        }
        if i < same.len() {
            assert(ordered[i].material == material);
            if k >= same.len() {
                assert(ordered[k].material != material);
            }
            assert(ordered[j].material == material);
        } else {
            assert(ordered[i] == batch_order(rest)[i - same.len()]);
            assert(ordered[j] == batch_order(rest)[j - same.len()]);
            assert(ordered[k] == batch_order(rest)[k - same.len()]);
            lemma_batch_order_groups(rest, i - same.len(), j - same.len(), k - same.len());
        }
    }
}

/// Within one material, batching keeps the order of queueing: along a
/// sequence whose queue depths rise, they rise along each group.
pub proof fn lemma_batch_order_stable(s: Seq<RenderQueue>, i: int, j: int)
    requires
        increasing(s),
        0 <= i < j < batch_order(s).len(),
        batch_order(s)[i].material == batch_order(s)[j].material,
    ensures
        batch_order(s)[i].queue_depth < batch_order(s)[j].queue_depth,
    decreases s.len(),
{
    if s.len() > 0 {
        let material = s[0].material;
        let same = s.filter(of_material(material));
        let rest = s.filter(not_of_material(material));
        lemma_filter_shorter(s, not_of_material(material), 0);
        lemma_filter_keeps(s, of_material(material), |e: RenderQueue| true);
        lemma_filter_keeps(s, not_of_material(material), |e: RenderQueue| true);
        lemma_batch_order_keeps(rest, not_of_material(material));
        lemma_filter_keeps_order(s, of_material(material));
        lemma_filter_keeps_order(s, not_of_material(material));
        let ordered = batch_order(s);
        assert(ordered == same + batch_order(rest));
        if j < same.len() {
            assert(ordered[i] == same[i] && ordered[j] == same[j]);
        } else if i < same.len() {
            assert(ordered[i] == same[i]);
            assert(of_material(material)(same[i]));
            assert(ordered[j] == batch_order(rest)[j - same.len()]);
            assert(not_of_material(material)(batch_order(rest)[j - same.len()]));
        } else {
            assert(ordered[i] == batch_order(rest)[i - same.len()]);
            assert(ordered[j] == batch_order(rest)[j - same.len()]);
            lemma_batch_order_stable(rest, i - same.len(), j - same.len());
        }
    }
}

/// The submissions of a pass, drawn or not, as a multiset.
pub open spec fn queued_in(buckets: Buckets) -> Multiset<RenderQueue> {
    buckets.0.to_multiset().add(buckets.1.to_multiset())
}

/// A pass accounts for every submission queued under its name: each is
/// drawn, opaque or transparent, or set aside as stale, and none is drawn
/// twice or invented. So the number drawn is the number queued less the
/// number that are stale. What is drawn is live, what is set aside is not.
pub proof fn lemma_pass_accounts_for_queue(
    assets: AssetsView,
    render_pass: Seq<char>,
    target: RenderTargetKey,
    buckets: Buckets,
)
    ensures
        pass_step(assets, render_pass, target, buckets) matches FrameStepView::Pass {
            opaque,
            transparent,
            stale,
            ..
        } && {
            &&& opaque.to_multiset().add(transparent.to_multiset()).add(stale.to_multiset())
                == queued_in(buckets)
            &&& opaque.len() + transparent.len() == buckets.0.len() + buckets.1.len() - stale.len()
            &&& forall|i: int| 0 <= i < opaque.len() ==> live_in(assets)(#[trigger] opaque[i])
            &&& forall|i: int|
                0 <= i < transparent.len() ==> live_in(assets)(#[trigger] transparent[i])
            &&& forall|i: int| 0 <= i < stale.len() ==> stale_in(assets)(#[trigger] stale[i])
        },
{
    broadcast use vstd::multiset::group_multiset_axioms;

    let live_opaque = buckets.0.filter(live_in(assets));
    let opaque = batch_order(live_opaque);
    let transparent = buckets.1.filter(live_in(assets));
    let stale_opaque = buckets.0.filter(stale_in(assets));
    let stale_transparent = buckets.1.filter(stale_in(assets));
    let stale = stale_opaque + stale_transparent;
    lemma_filter_split(buckets.0, live_in(assets), stale_in(assets));
    lemma_filter_split(buckets.1, live_in(assets), stale_in(assets));
    lemma_batch_order_permutes(live_opaque);
    vstd::seq_lib::lemma_multiset_commutative(stale_opaque, stale_transparent);
    assert(opaque.to_multiset().add(transparent.to_multiset()).add(stale.to_multiset())
        =~= queued_in(buckets));
    lemma_filter_keeps(buckets.0, live_in(assets), |e: RenderQueue| true);
    lemma_filter_keeps(buckets.1, live_in(assets), |e: RenderQueue| true);
    lemma_filter_keeps(buckets.0, stale_in(assets), |e: RenderQueue| true);
    lemma_filter_keeps(buckets.1, stale_in(assets), |e: RenderQueue| true);
    lemma_batch_order_keeps(live_opaque, live_in(assets));
    assert forall|i: int| 0 <= i < stale.len() implies stale_in(assets)(#[trigger] stale[i]) by {
        if i < stale_opaque.len() {
            assert(stale[i] == stale_opaque[i]);
        } else {
            assert(stale[i] == stale_transparent[i - stale_opaque.len()]);
        }
    }
}

/// Transparent submissions are drawn in the order they were queued: along
/// the transparent part of a pass the queue depths rise strictly. The opaque
/// part holds opaque submissions only, the transparent part transparent ones.
pub proof fn lemma_pass_keeps_queue_order(
    assets: AssetsView,
    render_pass: Seq<char>,
    target: RenderTargetKey,
    buckets: Buckets,
    counter: u64,
)
    requires
        bucket_valid(buckets.0, false, counter),
        bucket_valid(buckets.1, true, counter),
    ensures
        pass_step(assets, render_pass, target, buckets) matches FrameStepView::Pass {
            opaque,
            transparent,
            ..
        } && {
            &&& increasing(transparent)
            &&& forall|i: int|
                0 <= i < transparent.len() ==> (#[trigger] transparent[i]).allow_transparency
            &&& forall|i: int| 0 <= i < opaque.len() ==> !(#[trigger] opaque[i]).allow_transparency
        },
{
    lemma_filter_keeps_order(buckets.1, live_in(assets));
    lemma_filter_keeps(buckets.1, live_in(assets), |e: RenderQueue| e.allow_transparency);
    lemma_filter_keeps(buckets.0, live_in(assets), |e: RenderQueue| !e.allow_transparency);
    lemma_batch_order_keeps(
        buckets.0.filter(live_in(assets)),
        |e: RenderQueue| !e.allow_transparency,
    );
}

/// The target of the first pass of `steps` that carries the name `pass`.
pub open spec fn first_target(steps: Seq<StepView>, pass: Seq<char>) -> Seq<char>
    decreases steps.len(),
{
    if steps.len() == 0 {
        Seq::empty()
    } else {
        match steps[0] {
            StepView::Pass { render_pass, target } => if render_pass == pass {
                target
            } else {
                first_target(steps.skip(1), pass)
            },
            StepView::Process { subject, shader, target } => first_target(steps.skip(1), pass),
        }
    }
}

/// The steps of a plan that draw the pass named `pass`.
pub open spec fn draws_pass(pass: Seq<char>) -> spec_fn(FrameStepView) -> bool {
    |step: FrameStepView| step matches FrameStepView::Pass { render_pass, .. } && render_pass == pass
}

/// Whether the first step apart, some pass carries the name.
proof fn lemma_scheduled_after_first(steps: Seq<StepView>, pass: Seq<char>)
    requires
        steps.len() > 0,
    ensures
        scheduled(steps, pass) <==> (is_pass_named(steps[0], pass) || scheduled(
            steps.skip(1),
            pass,
        )),
{
    let rest = steps.skip(1);
    if scheduled(steps, pass) {
        let i = choose|i: int| 0 <= i < steps.len() && is_pass_named(#[trigger] steps[i], pass);
        if i > 0 {
            assert(rest[i - 1] == steps[i]);
        }
    }
    if scheduled(rest, pass) {
        let i = choose|i: int| 0 <= i < rest.len() && is_pass_named(#[trigger] rest[i], pass);
        assert(steps[i + 1] == rest[i]);
    }
}

/// A frame draws each pass at most once, and draws it exactly when the
/// schedule has a pass of that name and something is queued under it. What
/// it then draws is everything queued under the name, into the target of the
/// first pass that carries it.
pub proof fn lemma_pass_drawn_once(
    assets: AssetsView,
    targets: Map<Seq<char>, RenderTargetKey>,
    steps: Seq<StepView>,
    queues: Map<Seq<char>, Buckets>,
    pass: Seq<char>,
)
    ensures
        frame_plan(assets, targets, steps, queues).filter(draws_pass(pass)) == if scheduled(
            steps,
            pass,
        ) && queues.contains_key(pass) {
            seq![pass_step(assets, pass, targets[first_target(steps, pass)], queues[pass])]
        } else {
            Seq::empty()
        },
    decreases steps.len(),
{
    let keep = draws_pass(pass);
    if steps.len() == 0 {
        assert(Seq::<FrameStepView>::empty().filter(keep) =~= Seq::empty()) by {
            reveal(Seq::filter);
        }
    } else {
        let rest = steps.skip(1);
        lemma_scheduled_after_first(steps, pass);
        match steps[0] {
            StepView::Pass { render_pass, target } => {
                if queues.contains_key(render_pass) {
                    let head = pass_step(assets, render_pass, targets[target], queues[render_pass]);
                    let tail = frame_plan(assets, targets, rest, queues.remove(render_pass));
                    lemma_pass_drawn_once(assets, targets, rest, queues.remove(render_pass), pass);
                    lemma_filter_one(head, keep);
                    Seq::filter_distributes_over_add(seq![head], tail, keep);
                    if render_pass == pass {
                        assert(seq![head] + Seq::<FrameStepView>::empty() =~= seq![head]);
                    } else {
                        assert(Seq::<FrameStepView>::empty() + tail.filter(keep) =~= tail.filter(
                            keep,
                        ));
                    }
                } else {
                    lemma_pass_drawn_once(assets, targets, rest, queues, pass);
                }
            },
            StepView::Process { subject, shader, target } => {
                let head = crate::plan::process_step(
                    assets,
                    targets[subject],
                    shader,
                    targets[target],
                );
                let tail = frame_plan(assets, targets, rest, queues);
                lemma_pass_drawn_once(assets, targets, rest, queues, pass);
                lemma_filter_one(head, keep);
                Seq::filter_distributes_over_add(seq![head], tail, keep);
                assert(Seq::<FrameStepView>::empty() + tail.filter(keep) =~= tail.filter(keep));
            },
        }
    }
}

/// What is queued under a name that no pass of the schedule carries is
/// dropped: the plan is what it would be had nothing been queued under it,
/// and no step of the plan draws it.
pub proof fn lemma_unscheduled_is_dropped(
    assets: AssetsView,
    targets: Map<Seq<char>, RenderTargetKey>,
    steps: Seq<StepView>,
    queues: Map<Seq<char>, Buckets>,
    pass: Seq<char>,
)
    requires
        !scheduled(steps, pass),
    ensures
        frame_plan(assets, targets, steps, queues) == frame_plan(
            assets,
            targets,
            steps,
            queues.remove(pass),
        ),
        frame_plan(assets, targets, steps, queues).filter(draws_pass(pass)) == Seq::<
            FrameStepView,
        >::empty(),
    decreases steps.len(),
{
    lemma_pass_drawn_once(assets, targets, steps, queues, pass);
    if steps.len() > 0 {
        let rest = steps.skip(1);
        lemma_scheduled_after_first(steps, pass);
        match steps[0] {
            StepView::Pass { render_pass, target } => {
                assert(render_pass != pass);
                if queues.contains_key(render_pass) {
                    lemma_unscheduled_is_dropped(
                        assets,
                        targets,
                        rest,
                        queues.remove(render_pass),
                        pass,
                    );
                    assert(queues.remove(render_pass).remove(pass) =~= queues.remove(pass).remove(
                        render_pass,
                    ));
                } else {
                    lemma_unscheduled_is_dropped(assets, targets, rest, queues, pass);
                }
            },
            StepView::Process { subject, shader, target } => {
                lemma_unscheduled_is_dropped(assets, targets, rest, queues, pass);
            },
        }
    }
}

/// With nothing queued, a frame draws nothing: no step of its plan is a pass.
/// This is the state in which executing a frame leaves the queues, so a
/// frame executed right after another draws nothing.
pub proof fn lemma_empty_frame_draws_nothing(
    assets: AssetsView,
    targets: Map<Seq<char>, RenderTargetKey>,
    steps: Seq<StepView>,
)
    ensures
        forall|j: int|
            0 <= j < frame_plan(assets, targets, steps, Map::empty()).len() ==> !(
            #[trigger] frame_plan(assets, targets, steps, Map::empty())[j] is Pass),
    decreases steps.len(),
{
    if steps.len() > 0 {
        let rest = steps.skip(1);
        lemma_empty_frame_draws_nothing(assets, targets, rest);
        let plan = frame_plan(assets, targets, steps, Map::empty());
        let tail = frame_plan(assets, targets, rest, Map::empty());
        match steps[0] {
            StepView::Pass { render_pass, target } => {
                assert(plan == tail);
            },
            StepView::Process { subject, shader, target } => {
                assert forall|j: int| 0 <= j < plan.len() implies !(#[trigger] plan[j] is Pass) by {
                    if j > 0 {
                        assert(plan[j] == tail[j - 1]);
                    }
                }
            },
        }
    }
}

/// In every pass of a frame, transparent submissions are drawn in the order
/// they were queued, whatever the order in which opaque and transparent
/// submissions alternated: along the transparent part the queue depths rise
/// strictly. They come after the opaque part, which holds no transparent
/// submission.
pub proof fn lemma_transparent_in_queue_order(
    assets: AssetsView,
    targets: Map<Seq<char>, RenderTargetKey>,
    steps: Seq<StepView>,
    queues: Map<Seq<char>, Buckets>,
    counter: u64,
    j: int,
)
    requires
        queues_valid(queues, counter),
        0 <= j < frame_plan(assets, targets, steps, queues).len(),
        frame_plan(assets, targets, steps, queues)[j] is Pass,
    ensures
        frame_plan(assets, targets, steps, queues)[j] matches FrameStepView::Pass {
            opaque,
            transparent,
            ..
        } && {
            &&& increasing(transparent)
            &&& forall|i: int|
                0 <= i < transparent.len() ==> (#[trigger] transparent[i]).allow_transparency
            &&& forall|i: int| 0 <= i < opaque.len() ==> !(#[trigger] opaque[i]).allow_transparency
        },
    decreases steps.len(),
{
    let plan = frame_plan(assets, targets, steps, queues);
    if steps.len() > 0 {
        let rest = steps.skip(1);
        match steps[0] {
            StepView::Pass { render_pass, target } => {
                if queues.contains_key(render_pass) {
                    let tail = frame_plan(assets, targets, rest, queues.remove(render_pass));
                    if j == 0 {
                        lemma_pass_keeps_queue_order(
                            assets,
                            render_pass,
                            targets[target],
                            queues[render_pass],
                            counter,
                        );
                    } else {
                        assert(plan[j] == tail[j - 1]);
                        assert forall|name: Seq<char>| #[trigger]
                            queues.remove(render_pass).contains_key(name) implies {
                            &&& bucket_valid(queues.remove(render_pass)[name].0, false, counter)
                            &&& bucket_valid(queues.remove(render_pass)[name].1, true, counter)
                        } by {
                            assert(queues.contains_key(name));
                        }
                        lemma_transparent_in_queue_order(
                            assets,
                            targets,
                            rest,
                            queues.remove(render_pass),
                            counter,
                            j - 1,
                        );
                    }
                } else {
                    lemma_transparent_in_queue_order(assets, targets, rest, queues, counter, j);
                }
            },
            StepView::Process { subject, shader, target } => {
                let tail = frame_plan(assets, targets, rest, queues);
                assert(j > 0);
                assert(plan[j] == tail[j - 1]);
                lemma_transparent_in_queue_order(assets, targets, rest, queues, counter, j - 1);
            },
        }
    }
}

/// The calls that queue under `pass`.
pub open spec fn for_pass(pass: Seq<char>) -> spec_fn(Submission) -> bool {
    |call: Submission| call.pass_name == pass
}

/// The entries that `calls`, made in this order from a counter at `start`,
/// leave in one bucket of `pass`: the calls for that bucket, in the order
/// they were made, each stamped with the position of its call.
pub open spec fn entries_for(
    calls: Seq<Submission>,
    start: int,
    pass: Seq<char>,
    transparent: bool,
) -> Seq<RenderQueue>
    decreases calls.len(),
{
    if calls.len() == 0 {
        Seq::empty()
    } else {
        let before = entries_for(calls.drop_last(), start, pass, transparent);
        let last = calls.last();
        if last.pass_name == pass && last.allow_transparency == transparent {
            before.push(last.entry((start + calls.len() - 1) as u64))
        } else {
            before
        }
    }
}

/// Every call of `calls` pairs a transform with a mapping of its kind.
pub open spec fn all_match(calls: Seq<Submission>) -> bool {
    forall|i: int|
        0 <= i < calls.len() ==> (#[trigger] calls[i]).transform.spec_matches(calls[i].mapping)
}

/// A sequence of calls moves the counter on by no more than its length.
pub proof fn lemma_counter_bound(renderer: RendererView, calls: Seq<Submission>)
    requires
        renderer.depth_counter + calls.len() <= u64::MAX,
    ensures
        renderer.submit_all(calls).depth_counter <= renderer.depth_counter + calls.len(),
    decreases calls.len(),
{
    if calls.len() > 0 {
        lemma_counter_bound(renderer, calls.drop_last());
    }
}

/// Any sequence of calls of `queue` that the counter has room for keeps a
/// renderer valid.
pub proof fn lemma_queueing_keeps_valid(renderer: RendererView, calls: Seq<Submission>)
    requires
        renderer.valid(),
        renderer.depth_counter + calls.len() <= u64::MAX,
    ensures
        renderer.submit_all(calls).valid(),
    decreases calls.len(),
{
    if calls.len() > 0 {
        lemma_queueing_keeps_valid(renderer, calls.drop_last());
        lemma_counter_bound(renderer, calls.drop_last());
        renderer.submit_all(calls.drop_last()).lemma_submit_valid(calls.last());
    }
}

/// Queueing appends, bucket by bucket, in the order of the calls: after a
/// sequence of calls that are all accepted, each bucket holds what it held
/// before, followed by the calls made for it, in the order they were made.
/// The counter has moved on by the number of calls, and the schedule is as
/// it was.
pub proof fn lemma_queueing_keeps_call_order(
    renderer: RendererView,
    calls: Seq<Submission>,
    pass: Seq<char>,
)
    requires
        all_match(calls),
        renderer.depth_counter + calls.len() <= u64::MAX,
    ensures
        renderer.submit_all(calls).schedule == renderer.schedule,
        renderer.submit_all(calls).depth_counter == renderer.depth_counter + calls.len(),
        renderer.submit_all(calls).buckets(pass).0 == renderer.buckets(pass).0 + entries_for(
            calls,
            renderer.depth_counter as int,
            pass,
            false,
        ),
        renderer.submit_all(calls).buckets(pass).1 == renderer.buckets(pass).1 + entries_for(
            calls,
            renderer.depth_counter as int,
            pass,
            true,
        ),
    decreases calls.len(),
{
    let start = renderer.depth_counter as int;
    if calls.len() == 0 {
        assert(renderer.buckets(pass).0 + Seq::<RenderQueue>::empty() =~= renderer.buckets(pass).0);
        assert(renderer.buckets(pass).1 + Seq::<RenderQueue>::empty() =~= renderer.buckets(pass).1);
    } else {
        let init = calls.drop_last();
        let last = calls.last();
        assert forall|i: int| 0 <= i < init.len() implies (#[trigger] init[i]).transform.spec_matches(
            init[i].mapping,
        ) by {
            assert(init[i] == calls[i]);
        }
        lemma_queueing_keeps_call_order(renderer, init, pass);
        let mid = renderer.submit_all(init);
        let after = mid.submit(last);
        assert(last == calls[calls.len() - 1]);
        assert(last.answer() is Ok);
        let entry = last.entry(mid.depth_counter);
        assert(entry == last.entry((start + calls.len() - 1) as u64));
        if last.pass_name == pass {
            if last.allow_transparency {
                assert(after.buckets(pass).1 =~= renderer.buckets(pass).1 + entries_for(
                    calls,
                    start,
                    pass,
                    true,
                ));
            } else {
                assert(after.buckets(pass).0 =~= renderer.buckets(pass).0 + entries_for(
                    calls,
                    start,
                    pass,
                    false,
                ));
            }
        } else {
            assert(after.buckets(pass) == mid.buckets(pass));
        }
    }
}

/// The two buckets of a pass hold as many entries as there were calls for the pass.
pub proof fn lemma_entries_count(calls: Seq<Submission>, start: int, pass: Seq<char>)
    ensures
        entries_for(calls, start, pass, false).len() + entries_for(calls, start, pass, true).len()
            == calls.filter(for_pass(pass)).len(),
    decreases calls.len(),
{
    reveal(Seq::filter);
    if calls.len() > 0 {
        lemma_entries_count(calls.drop_last(), start, pass);
    }
}

/// The calls that pair a transform with a mapping of its kind.
pub open spec fn well_paired() -> spec_fn(Submission) -> bool {
    |call: Submission| call.transform.spec_matches(call.mapping)
}

/// A call that `queue` refuses for its pairing leaves no trace: the renderer
/// after a sequence of calls is the renderer after the well-paired calls
/// among them.
pub proof fn lemma_refused_calls_leave_no_trace(renderer: RendererView, calls: Seq<Submission>)
    ensures
        renderer.submit_all(calls) == renderer.submit_all(calls.filter(well_paired())),
        all_match(calls.filter(well_paired())),
    decreases calls.len(),
{
    reveal(Seq::filter);
    lemma_filter_keeps_calls(calls);
    if calls.len() > 0 {
        let init = calls.drop_last();
        let last = calls.last();
        lemma_refused_calls_leave_no_trace(renderer, init);
        if well_paired()(last) {
            assert(calls.filter(well_paired()).drop_last() =~= init.filter(well_paired()));
        }
    }
}

/// What a filter of calls keeps meets the filter's condition.
proof fn lemma_filter_keeps_calls(calls: Seq<Submission>)
    ensures
        all_match(calls.filter(well_paired())),
    decreases calls.len(),
{
    reveal(Seq::filter);
    if calls.len() > 0 {
        let init = calls.drop_last();
        lemma_filter_keeps_calls(init);
        let kept = init.filter(well_paired());
        let all = calls.filter(well_paired());
        assert forall|i: int| 0 <= i < all.len() implies (#[trigger] all[i]).transform.spec_matches(
            all[i].mapping,
        ) by {
            if i < kept.len() {
                assert(all[i] == kept[i]);
            }
        }
    }
}

/// A frame consumes what was queued for it. Start with nothing queued, make
/// any sequence of calls of `queue`, and execute. For a pass of the schedule
/// for which a call was accepted, the plan has exactly one step that draws
/// it, and the submissions that step draws, opaque and transparent, are as
/// many as the calls accepted for the pass, less those it sets aside as
/// stale. For any other name, no step of the plan draws anything. A call is
/// accepted if it pairs a transform with a mapping of its kind; the counter
/// is taken to have room for the accepted calls.
pub proof fn lemma_frame_consumes_queued(
    assets: AssetsView,
    renderer: RendererView,
    calls: Seq<Submission>,
    pass: Seq<char>,
)
    requires
        renderer.queues == Map::<Seq<char>, Buckets>::empty(),
        renderer.depth_counter + calls.filter(well_paired()).len() <= u64::MAX,
    ensures
        ({
            let queued = renderer.submit_all(calls);
            let plan = frame_plan(
                assets,
                queued.schedule.render_targets,
                queued.schedule.steps,
                queued.queues,
            );
            let drawn = plan.filter(draws_pass(pass));
            let accepted = calls.filter(well_paired()).filter(for_pass(pass)).len();
            if scheduled(renderer.schedule.steps, pass) && accepted > 0 {
                &&& drawn.len() == 1
                &&& drawn[0] matches FrameStepView::Pass { opaque, transparent, stale, .. }
                    && opaque.len() + transparent.len() == accepted - stale.len()
            } else {
                drawn.len() == 0
            }
        }),
{
    let accepted = calls.filter(well_paired());
    lemma_refused_calls_leave_no_trace(renderer, calls);
    let queued = renderer.submit_all(accepted);
    let start = renderer.depth_counter as int;
    lemma_queueing_keeps_call_order(renderer, accepted, pass);
    lemma_entries_count(accepted, start, pass);
    assert(renderer.buckets(pass) == (Seq::<RenderQueue>::empty(), Seq::<RenderQueue>::empty()));
    lemma_pass_drawn_once(
        assets,
        queued.schedule.render_targets,
        queued.schedule.steps,
        queued.queues,
        pass,
    );
    if accepted.filter(for_pass(pass)).len() > 0 {
        assert(queued.buckets(pass).0.len() + queued.buckets(pass).1.len() > 0);
        assert(queued.queues.contains_key(pass));
        lemma_pass_accounts_for_queue(
            assets,
            pass,
            queued.schedule.render_targets[first_target(queued.schedule.steps, pass)],
            queued.queues[pass],
        );
    } else {
        lemma_untouched_pass_stays_empty(renderer, accepted, pass);
    }
}

/// A name for which no call is made has nothing queued under it afterwards,
/// if it had nothing before.
pub proof fn lemma_untouched_pass_stays_empty(
    renderer: RendererView,
    calls: Seq<Submission>,
    pass: Seq<char>,
)
    requires
        !renderer.queues.contains_key(pass),
        calls.filter(for_pass(pass)).len() == 0,
    ensures
        !renderer.submit_all(calls).queues.contains_key(pass),
    decreases calls.len(),
{
    reveal(Seq::filter);
    if calls.len() > 0 {
        let init = calls.drop_last();
        init.lemma_filter_len(for_pass(pass));
        lemma_untouched_pass_stays_empty(renderer, init, pass);
    }
}

} // verus!
