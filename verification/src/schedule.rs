//! The render schedule: a named-step render graph.
//!
//! A schedule is an ordered list of steps over named render targets. A `Pass`
//! step renders what was queued under its pass name into a target; a `Process`
//! step runs a full-screen shader that reads one target and writes another.
//! Steps run in the order they were added. A step can only be added while
//! every target it names is registered, so a schedule never refers to a
//! target it does not know.

use crate::model::{RenderTargetKey, ShaderKey};
use crate::names::NameMap;
use vstd::prelude::*;
use vstd::string::StringExecFns;

verus! {

/// The name of a render target.
pub type RenderTargetName = String;

/// The name under which submissions are queued for a pass.
pub type RenderPassName = String;

/// One step of a schedule.
#[derive(Clone, PartialEq, Eq, Debug)]
pub enum ScheduleStep {
    /// Render everything queued under `render_pass` into `target`.
    Pass { render_pass: RenderPassName, target: RenderTargetName },
    /// Run `shader` over the whole of `target`, reading `subject`.
    Process { subject: RenderTargetName, shader: ShaderKey, target: RenderTargetName },
}

/// A [`ScheduleStep`] as a mathematical value.
pub enum StepView {
    Pass { render_pass: Seq<char>, target: Seq<char> },
    Process { subject: Seq<char>, shader: ShaderKey, target: Seq<char> },
}

impl View for ScheduleStep {
    type V = StepView;

    open spec fn view(&self) -> StepView {
        match self {
            ScheduleStep::Pass { render_pass, target } => StepView::Pass {
                render_pass: render_pass@,
                target: target@,
            },
            ScheduleStep::Process { subject, shader, target } => StepView::Process {
                subject: subject@,
                shader: *shader,
                target: target@,
            },
        }
    }
}

/// Why a step was refused.
#[derive(PartialEq, Eq, Debug)]
pub enum ScheduleError {
    /// A pass names a target that is not registered.
    RenderTargetNotFound(RenderTargetName),
    /// A process step reads a target that is not registered.
    SubjectNotFound(RenderTargetName),
    /// A process step writes a target that is not registered.
    ProcessTargetNotFound(RenderTargetName),
}

/// A [`ScheduleError`] as a mathematical value.
pub enum ScheduleErrorView {
    RenderTargetNotFound(Seq<char>),
    SubjectNotFound(Seq<char>),
    ProcessTargetNotFound(Seq<char>),
}

impl View for ScheduleError {
    type V = ScheduleErrorView;

    open spec fn view(&self) -> ScheduleErrorView {
        match self {
            ScheduleError::RenderTargetNotFound(name) => ScheduleErrorView::RenderTargetNotFound(
                name@,
            ),
            ScheduleError::SubjectNotFound(name) => ScheduleErrorView::SubjectNotFound(name@),
            ScheduleError::ProcessTargetNotFound(name) => ScheduleErrorView::ProcessTargetNotFound(
                name@,
            ),
        }
    }
}

impl ScheduleErrorView {
    /// The text of an error.
    pub open spec fn message(self) -> Seq<char> {
        match self {
            ScheduleErrorView::RenderTargetNotFound(name) => "Render target '"@ + name
                + "' not found"@,
            ScheduleErrorView::SubjectNotFound(name) => "Subject render target '"@ + name
                + "' not found"@,
            ScheduleErrorView::ProcessTargetNotFound(name) => "Target render target '"@ + name
                + "' not found"@,
        }
    }
}

impl ScheduleError {
    /// The text of this error.
    pub fn message(&self) -> (text: String)
        ensures
            text@ == self@.message(),
    {
        match self {
            ScheduleError::RenderTargetNotFound(name) => String::from_str(
                "Render target '",
            ).concat(name.as_str()).concat("' not found"),
            ScheduleError::SubjectNotFound(name) => String::from_str(
                "Subject render target '",
            ).concat(name.as_str()).concat("' not found"),
            ScheduleError::ProcessTargetNotFound(name) => String::from_str(
                "Target render target '",
            ).concat(name.as_str()).concat("' not found"),
        }
    }
}

/// The name under which the presented surface is always registered.
pub open spec fn screen_name() -> Seq<char> {
    "screen"@
}

/// The error, if any, that stops `step` from joining a schedule with these targets.
/// A process step is checked for its subject first.
pub open spec fn step_error(targets: Map<Seq<char>, RenderTargetKey>, step: StepView) -> Option<
    ScheduleErrorView,
> {
    match step {
        StepView::Pass { render_pass, target } => if targets.contains_key(target) {
            None
        } else {
            Some(ScheduleErrorView::RenderTargetNotFound(target))
        },
        StepView::Process { subject, shader, target } => if !targets.contains_key(subject) {
            Some(ScheduleErrorView::SubjectNotFound(subject))
        } else if !targets.contains_key(target) {
            Some(ScheduleErrorView::ProcessTargetNotFound(target))
        } else {
            None
        },
    }
}

/// Every target that `step` names is registered.
pub open spec fn step_resolves(targets: Map<Seq<char>, RenderTargetKey>, step: StepView) -> bool {
    match step {
        StepView::Pass { render_pass, target } => targets.contains_key(target),
        StepView::Process { subject, shader, target } => targets.contains_key(subject)
            && targets.contains_key(target),
    }
}

/// The pass names that the steps refer to, each once, in the order in which
/// they first occur.
pub open spec fn pass_names_of(steps: Seq<StepView>) -> Seq<Seq<char>>
    decreases steps.len(),
{
    if steps.len() == 0 {
        Seq::empty()
    } else {
        let before = pass_names_of(steps.drop_last());
        match steps.last() {
            StepView::Pass { render_pass, target } => if before.contains(render_pass) {
                before
            } else {
                before.push(render_pass)
            },
            StepView::Process { subject, shader, target } => before,
        }
    }
}

/// Whether `step` is a pass that carries the name `pass`.
pub open spec fn is_pass_named(step: StepView, pass: Seq<char>) -> bool {
    step matches StepView::Pass { render_pass, .. } && render_pass == pass
}

/// Whether some pass of `steps` carries the name `pass`.
pub open spec fn scheduled(steps: Seq<StepView>, pass: Seq<char>) -> bool {
    exists|i: int| 0 <= i < steps.len() && is_pass_named(#[trigger] steps[i], pass)
}

/// The pass names of a schedule are the names that its passes carry, each of
/// them once.
pub proof fn lemma_pass_names(steps: Seq<StepView>)
    ensures
        pass_names_of(steps).no_duplicates(),
        forall|pass: Seq<char>| #[trigger]
            pass_names_of(steps).contains(pass) <==> scheduled(steps, pass),
    decreases steps.len(),
{
    if steps.len() > 0 {
        let init = steps.drop_last();
        let last = steps.last();
        let before = pass_names_of(init);
        let names = pass_names_of(steps);
        lemma_pass_names(init);
        assert forall|pass: Seq<char>| #[trigger] names.contains(pass) <==> scheduled(
            steps,
            pass,
        ) by {
            if scheduled(init, pass) {
                let i = choose|i: int| 0 <= i < init.len() && is_pass_named(#[trigger] init[i], pass);
                assert(steps[i] == init[i]);
            }
            if scheduled(steps, pass) {
                let i = choose|i: int|
                    0 <= i < steps.len() && is_pass_named(#[trigger] steps[i], pass);
                if i < init.len() {
                    assert(init[i] == steps[i]);
                }
            }
            if is_pass_named(last, pass) {
                assert(steps[steps.len() - 1] == last);
            }
            if names.contains(pass) {
                let k = choose|k: int| 0 <= k < names.len() && names[k] == pass;
                if k < before.len() {
                    assert(before[k] == pass);
                }
            }
            if before.contains(pass) {
                let k = choose|k: int| 0 <= k < before.len() && before[k] == pass;
                assert(names[k] == pass);
            }
            if is_pass_named(last, pass) && !before.contains(pass) {
                assert(names[before.len() as int] == pass);
            }
        }
    } else {
        assert forall|pass: Seq<char>| #[trigger]
            pass_names_of(steps).contains(pass) <==> scheduled(steps, pass) by {}
    }
}

/// A [`RenderSchedule`] as a mathematical value.
pub struct ScheduleView {
    pub steps: Seq<StepView>,
    pub pass_names: Seq<Seq<char>>,
    pub render_targets: Map<Seq<char>, RenderTargetKey>,
}

impl ScheduleView {
    /// The schedule with one more target, registered or overwritten.
    pub open spec fn with_target(self, name: Seq<char>, target: RenderTargetKey) -> ScheduleView {
        ScheduleView { render_targets: self.render_targets.insert(name, target), ..self }
    }

    /// The schedule with one more step.
    pub open spec fn with_step(self, step: StepView) -> ScheduleView {
        ScheduleView {
            steps: self.steps.push(step),
            pass_names: pass_names_of(self.steps.push(step)),
            render_targets: self.render_targets,
        }
    }

    /// What holds of every schedule: the screen is registered, every step's
    /// targets are registered, and the pass names are those of the steps.
    pub open spec fn valid(self) -> bool {
        &&& self.render_targets.contains_key(screen_name())
        &&& forall|i: int|
            0 <= i < self.steps.len() ==> step_resolves(self.render_targets, #[trigger] self.steps[i])
        &&& self.pass_names == pass_names_of(self.steps)
    }
}

/// The names in a vector of strings.
pub open spec fn names_view(names: Seq<String>) -> Seq<Seq<char>> {
    names.map_values(|name: String| name@)
}

/// The steps in a vector of steps.
pub open spec fn steps_view(steps: Seq<ScheduleStep>) -> Seq<StepView> {
    steps.map_values(|step: ScheduleStep| step@)
}

/// Whether `name` is among `names`.
fn contains_name(names: &Vec<String>, name: &String) -> (found: bool)
    ensures
        found == names_view(names@).contains(name@),
{
    let mut i: usize = 0;
    while i < names.len()
        invariant
            i <= names@.len(),
            forall|k: int| 0 <= k < i ==> (#[trigger] names@[k])@ != name@,
        decreases names@.len() - i,
    {
        if names[i] == *name {
            assert(names_view(names@)[i as int] == name@);
            return true;
        }
        i += 1;
    }
    assert forall|k: int| 0 <= k < names_view(names@).len() implies names_view(names@)[k]
        != name@ by {
        assert(names_view(names@)[k] == names@[k]@);
    }
    false
}

/// An ordered render graph over named targets.
#[derive(Debug)]
pub struct RenderSchedule {
    steps: Vec<ScheduleStep>,
    pass_names: Vec<RenderPassName>,
    render_targets: NameMap<RenderTargetKey>,
}

impl View for RenderSchedule {
    type V = ScheduleView;

    closed spec fn view(&self) -> ScheduleView {
        ScheduleView {
            steps: steps_view(self.steps@),
            pass_names: names_view(self.pass_names@),
            render_targets: self.render_targets@,
        }
    }
}

impl RenderSchedule {
    /// The representation is sound and the view is a valid schedule.
    pub closed spec fn wf(&self) -> bool {
        &&& self.render_targets.wf()
        &&& self@.valid()
    }

    /// A well-formed schedule is a valid one.
    pub proof fn lemma_valid(self)
        requires
            self.wf(),
        ensures
            self@.valid(),
    {
    }

    fn new(render_targets: NameMap<RenderTargetKey>) -> (schedule: Self)
        requires
            render_targets.wf(),
        ensures
            schedule.wf(),
            schedule@ == (ScheduleView {
                steps: Seq::empty(),
                pass_names: Seq::empty(),
                render_targets: render_targets@.insert(screen_name(), RenderTargetKey::Screen),
            }),
    {
        let mut render_targets = render_targets;
        render_targets.insert("screen".to_owned(), RenderTargetKey::Screen);
        let schedule = RenderSchedule { steps: Vec::new(), pass_names: Vec::new(), render_targets };
        assert(schedule@.steps =~= Seq::empty());
        assert(schedule@.pass_names =~= Seq::empty());
        schedule
    }

    /// An empty schedule whose only target is the screen.
    pub fn builder() -> (schedule: Self)
        ensures
            schedule.wf(),
            schedule@ == (ScheduleView {
                steps: Seq::empty(),
                pass_names: Seq::empty(),
                render_targets: Map::<Seq<char>, RenderTargetKey>::empty().insert(
                    screen_name(),
                    RenderTargetKey::Screen,
                ),
            }),
    {
        Self::new(NameMap::new())
    }

    /// Registers `target` under `name`, in place of what was registered there.
    pub fn with_render_target(self, name: &str, target: RenderTargetKey) -> (schedule: Self)
        requires
            self.wf(),
        ensures
            schedule.wf(),
            schedule@ == self@.with_target(name@, target),
    {
        let mut schedule = self;
        schedule.render_targets.insert(name.to_owned(), target);
        assert forall|i: int| 0 <= i < schedule@.steps.len() implies step_resolves(
            schedule@.render_targets,
            #[trigger] schedule@.steps[i],
        ) by {
            assert(step_resolves(self@.render_targets, self@.steps[i]));
        }
        schedule
    }

    /// Appends a pass that renders what is queued under `pass_name` into
    /// `target`. Fails, leaving nothing behind, unless `target` is registered.
    pub fn add_pass(self, pass_name: &str, target: &str) -> (result: Result<Self, ScheduleError>)
        requires
            self.wf(),
        ensures
            match result {
                Ok(schedule) => self@.render_targets.contains_key(target@) && schedule.wf()
                    && schedule@ == self@.with_step(
                    StepView::Pass { render_pass: pass_name@, target: target@ },
                ),
                Err(error) => !self@.render_targets.contains_key(target@) && error@
                    == ScheduleErrorView::RenderTargetNotFound(target@),
            },
    {
        self.add_step(
            ScheduleStep::Pass { render_pass: pass_name.to_owned(), target: target.to_owned() },
        )
    }

    /// Appends a post-process step that runs `shader` reading `subject` and
    /// writing `target`. Fails, leaving nothing behind, unless both are registered.
    pub fn add_process(self, subject: &str, shader: ShaderKey, target: &str) -> (result: Result<
        Self,
        ScheduleError,
    >)
        requires
            self.wf(),
        ensures
            match result {
                Ok(schedule) => step_error(
                    self@.render_targets,
                    StepView::Process { subject: subject@, shader, target: target@ },
                ) is None && schedule.wf() && schedule@ == self@.with_step(
                    StepView::Process { subject: subject@, shader, target: target@ },
                ),
                Err(error) => step_error(
                    self@.render_targets,
                    StepView::Process { subject: subject@, shader, target: target@ },
                ) == Some(error@),
            },
    {
        self.add_step(
            ScheduleStep::Process { subject: subject.to_owned(), shader, target: target.to_owned() },
        )
    }

    /// Appends `step` if every target it names is registered.
    pub fn add_step(self, step: ScheduleStep) -> (result: Result<Self, ScheduleError>)
        requires
            self.wf(),
        ensures
            match result {
                Ok(schedule) => step_error(self@.render_targets, step@) is None && schedule.wf()
                    && schedule@ == self@.with_step(step@),
                Err(error) => step_error(self@.render_targets, step@) == Some(error@),
            },
    {
        let mut schedule = self;
        match &step {
            ScheduleStep::Pass { render_pass, target } => {
                if !schedule.render_targets.contains(target) {
                    return Err(ScheduleError::RenderTargetNotFound(target.clone()));
                }
                if !contains_name(&schedule.pass_names, render_pass) {
                    schedule.pass_names.push(render_pass.clone());
                    assert(names_view(schedule.pass_names@) =~= names_view(self.pass_names@).push(
                        render_pass@,
                    ));
                }
            },
            ScheduleStep::Process { subject, target, .. } => {
                if !schedule.render_targets.contains(subject) {
                    return Err(ScheduleError::SubjectNotFound(subject.clone()));
                }
                if !schedule.render_targets.contains(target) {
                    return Err(ScheduleError::ProcessTargetNotFound(target.clone()));
                }
            },
        }
        proof {
            let before = self@.steps;
            let after = before.push(step@);
            assert(steps_view(self.steps@.push(step)) =~= after);
            assert(after.drop_last() =~= before);
            assert forall|i: int| 0 <= i < after.len() implies step_resolves(
                self@.render_targets,
                #[trigger] after[i],
            ) by {
                if i < before.len() {
                    assert(step_resolves(self@.render_targets, before[i]));
                }
            }
        }
        schedule.steps.push(step);
        Ok(schedule)
    }

    /// The steps, in the order in which they run.
    pub fn steps(&self) -> (steps: &Vec<ScheduleStep>)
        ensures
            steps_view(steps@) == self@.steps,
    {
        &self.steps
    }

    /// The pass names that submissions can be queued under, each once, in the
    /// order in which the schedule first names them.
    pub fn pass_names(&self) -> (names: &Vec<RenderPassName>)
        ensures
            names_view(names@) == self@.pass_names,
    {
        &self.pass_names
    }

    /// The target registered under `name`.
    pub fn render_target(&self, name: &RenderTargetName) -> (target: Option<RenderTargetKey>)
        requires
            self.wf(),
        ensures
            match target {
                Some(key) => self@.render_targets.contains_key(name@) && key
                    == self@.render_targets[name@],
                None => !self@.render_targets.contains_key(name@),
            },
    {
        match self.render_targets.get(name) {
            Some(key) => Some(*key),
            None => None,
        }
    }
}

} // verus!
