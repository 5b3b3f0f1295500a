//! Opening an env file step by step from the root down, each directory and the
//! file itself without following a link, so that it is the file at that very
//! path or none.

use crate::error::{self, Error, Refusal, refuse};
use crate::path::{self, Component, ComponentView, components_of, starts_at_root};
use crate::text;
use vstd::prelude::*;

verus! {

/// What opening an env file asks for.
#[derive(Debug)]
pub enum OpenStep {
    /// To open the root directory.
    OpenRoot,
    /// To open a directory in the one that is open, and no link to one.
    OpenDirectory(String),
    /// To open a file in the directory that is open, and no link to one.
    OpenFile(String),
    /// To tell whether what is open is a regular file.
    Inspect,
    /// Nothing: it is over.
    Nothing,
}

#[verifier::ext_equal]
pub enum OpenStepView {
    OpenRoot,
    OpenDirectory(Seq<char>),
    OpenFile(Seq<char>),
    Inspect,
    Nothing,
}

impl View for OpenStep {
    type V = OpenStepView;

    open spec fn view(&self) -> OpenStepView {
        match self {
            OpenStep::OpenRoot => OpenStepView::OpenRoot,
            OpenStep::OpenDirectory(name) => OpenStepView::OpenDirectory(name@),
            OpenStep::OpenFile(name) => OpenStepView::OpenFile(name@),
            OpenStep::Inspect => OpenStepView::Inspect,
            OpenStep::Nothing => OpenStepView::Nothing,
        }
    }
}

/// What came of it.
#[derive(Debug)]
pub enum OpenEvent {
    Done,
    IsFile(bool),
    Failed(String),
}

#[verifier::ext_equal]
pub enum OpenEventView {
    Done,
    IsFile(bool),
    Failed(Seq<char>),
}

impl View for OpenEvent {
    type V = OpenEventView;

    open spec fn view(&self) -> OpenEventView {
        match self {
            OpenEvent::Done => OpenEventView::Done,
            OpenEvent::IsFile(yes) => OpenEventView::IsFile(*yes),
            OpenEvent::Failed(why) => OpenEventView::Failed(why@),
        }
    }
}

/// How far it has come: at which step of the path.
#[derive(Debug)]
enum OpenStage {
    Root,
    At(usize),
    Inspecting,
    Over(Result<(), Error>),
}

#[verifier::ext_equal]
pub enum OpenStageView {
    Root,
    At(int),
    Inspecting,
    Over(Result<(), Refusal>),
}

impl View for OpenStage {
    type V = OpenStageView;

    closed spec fn view(&self) -> OpenStageView {
        match self {
            OpenStage::Root => OpenStageView::Root,
            OpenStage::At(i) => OpenStageView::At(*i as int),
            OpenStage::Inspecting => OpenStageView::Inspecting,
            OpenStage::Over(Ok(())) => OpenStageView::Over(Ok(())),
            OpenStage::Over(Err(error)) => OpenStageView::Over(Err(error@)),
        }
    }
}

/// Opens an env file.
#[derive(Debug)]
pub struct EnvOpening {
    steps: Vec<Component>,
    stage: OpenStage,
}

#[verifier::ext_equal]
pub struct EnvOpeningView {
    /// The steps of the path.
    pub steps: Seq<ComponentView>,
    pub stage: OpenStageView,
}

impl View for EnvOpening {
    type V = EnvOpeningView;

    closed spec fn view(&self) -> EnvOpeningView {
        EnvOpeningView { steps: path::steps(self.steps@), stage: self.stage@ }
    }
}

pub open spec fn opening_stands(m: EnvOpeningView) -> bool {
    m.stage matches OpenStageView::At(i) ==> 0 <= i < m.steps.len() && m.steps[i] is Normal
}

pub open spec fn unopened(why: Seq<char>) -> OpenStageView {
    OpenStageView::Over(Err(error::refusal(why)))
}

/// The stage at which a step of the path is turned to. The root is open
/// already, and no step goes up.
pub open spec fn opening_from(steps: Seq<ComponentView>, i: int) -> OpenStageView
    decreases steps.len() - i,
{
    if i >= steps.len() {
        unopened("expected a regular file"@)
    } else {
        match steps[i] {
            ComponentView::Root => opening_from(steps, i + 1),
            ComponentView::Normal(_) => OpenStageView::At(i),
            _ => unopened("env file is not an absolute path"@),
        }
    }
}

/// Where opening the file at a path starts.
pub open spec fn opening_of(path: Seq<char>) -> EnvOpeningView {
    EnvOpeningView {
        steps: path::components(path),
        stage: if path::is_absolute(path) {
            OpenStageView::Root
        } else {
            unopened("env file is not an absolute path"@)
        },
    }
}

/// What is asked for: every step but the last has to be a directory.
pub open spec fn opening_asks(m: EnvOpeningView) -> OpenStepView {
    match m.stage {
        OpenStageView::Root => OpenStepView::OpenRoot,
        OpenStageView::At(i) => if i + 1 < m.steps.len() {
            OpenStepView::OpenDirectory(m.steps[i]->Normal_0)
        } else {
            OpenStepView::OpenFile(m.steps[i]->Normal_0)
        },
        OpenStageView::Inspecting => OpenStepView::Inspect,
        OpenStageView::Over(_) => OpenStepView::Nothing,
    }
}

/// What becomes of it once it is told what came of what it asked for. What it
/// did not ask for changes nothing.
pub open spec fn opening_after(m: EnvOpeningView, event: OpenEventView) -> EnvOpeningView {
    let stage = match (m.stage, event) {
        (OpenStageView::Over(_), _) => m.stage,
        (_, OpenEventView::Failed(why)) => unopened(why),
        (OpenStageView::Root, OpenEventView::Done) => opening_from(m.steps, 0),
        (OpenStageView::At(i), OpenEventView::Done) => if i + 1 < m.steps.len() {
            opening_from(m.steps, i + 1)
        } else {
            OpenStageView::Inspecting
        },
        (OpenStageView::Inspecting, OpenEventView::IsFile(yes)) => if yes {
            OpenStageView::Over(Ok(()))
        } else {
            unopened("expected a regular file"@)
        },
        _ => m.stage,
    };
    EnvOpeningView { stage, ..m }
}

impl EnvOpening {
    #[verifier::type_invariant]
    closed spec fn stands(&self) -> bool {
        opening_stands(self@)
    }

    pub fn start(path: &str) -> (begun: EnvOpening)
        ensures
            begun@ == opening_of(path@),
    {
        let steps = components_of(path);
        let stage = if starts_at_root(path) {
            OpenStage::Root
        } else {
            OpenStage::Over(Err(refuse("env file is not an absolute path")))
        };
        EnvOpening { steps, stage }
    }

    fn turn_to(steps: &Vec<Component>, from: usize) -> (stage: OpenStage)
        requires
            from <= steps@.len(),
        ensures
            stage@ == opening_from(path::steps(steps@), from as int),
            stage@ matches OpenStageView::At(i) ==> 0 <= i < steps@.len() && steps@[i] is Normal,
    {
        let mut i: usize = from;
        while i < steps.len()
            invariant
                from <= i <= steps@.len(),
                opening_from(path::steps(steps@), from as int) == opening_from(
                    path::steps(steps@),
                    i as int,
                ),
            decreases steps.len() - i,
        {
            match &steps[i] {
                Component::Root => {},
                Component::Normal(_) => {
                    return OpenStage::At(i);
                },
                _ => {
                    return OpenStage::Over(Err(refuse("env file is not an absolute path")));
                },
            }
            i = i + 1;
        }
        OpenStage::Over(Err(refuse("expected a regular file")))
    }

    /// What is to be done next.
    pub fn next(&self) -> (step: OpenStep)
        ensures
            step@ == opening_asks(self@),
    {
        proof {
            use_type_invariant(self);
            assert(self@.steps.len() == self.steps.len());
        }
        match &self.stage {
            OpenStage::Root => OpenStep::OpenRoot,
            OpenStage::At(i) => {
                let name = match &self.steps[*i] {
                    Component::Normal(name) => name.as_str().to_owned(),
                    _ => String::new(),
                };
                if *i + 1 < self.steps.len() {
                    OpenStep::OpenDirectory(name)
                } else {
                    OpenStep::OpenFile(name)
                }
            },
            OpenStage::Inspecting => OpenStep::Inspect,
            OpenStage::Over(_) => OpenStep::Nothing,
        }
    }

    /// What becomes of it once it is told what came of what it asked for.
    pub fn advance(self, event: OpenEvent) -> (next: EnvOpening)
        ensures
            next@ == opening_after(self@, event@),
    {
        proof {
            use_type_invariant(&self);
            assert(self@.steps.len() == self.steps.len());
        }
        let steps = self.steps;
        let stage = match (self.stage, event) {
            (OpenStage::Over(result), _) => OpenStage::Over(result),
            (_, OpenEvent::Failed(why)) => OpenStage::Over(Err(Error::new(why))),
            (OpenStage::Root, OpenEvent::Done) => EnvOpening::turn_to(&steps, 0),
            (OpenStage::At(i), OpenEvent::Done) => if i + 1 < steps.len() {
                EnvOpening::turn_to(&steps, i + 1)
            } else {
                OpenStage::Inspecting
            },
            (OpenStage::Inspecting, OpenEvent::IsFile(yes)) => if yes {
                OpenStage::Over(Ok(()))
            } else {
                OpenStage::Over(Err(refuse("expected a regular file")))
            },
            (stage, _) => stage,
        };
        EnvOpening { steps, stage }
    }

    /// Whether the file is open, or why it is not; `None` while it is under way.
    pub fn into_result(self) -> (result: Option<Result<(), Error>>)
        ensures
            match self@.stage {
                OpenStageView::Over(Ok(())) => result is Some && result->0 is Ok,
                OpenStageView::Over(Err(error)) => result is Some && result->0 is Err
                    && result->0->Err_0@ == error,
                _ => result is None,
            },
    {
        match self.stage {
            OpenStage::Over(result) => Some(result),
            _ => None,
        }
    }
}

/// The steps of the path of what is open, so long as something is.
pub open spec fn open_at(m: EnvOpeningView, opened: Seq<ComponentView>) -> bool {
    match m.stage {
        OpenStageView::Root => opened.len() == 0,
        OpenStageView::At(i) => opened == m.steps.take(i),
        OpenStageView::Inspecting => opened == m.steps,
        OpenStageView::Over(Ok(_)) => opened == m.steps,
        OpenStageView::Over(Err(_)) => true,
    }
}

/// The steps of what is open once a step was answered.
pub open spec fn opened_after(
    opened: Seq<ComponentView>,
    step: OpenStepView,
    event: OpenEventView,
) -> Seq<ComponentView> {
    match (step, event) {
        (OpenStepView::OpenRoot, OpenEventView::Done) => seq![ComponentView::Root],
        (OpenStepView::OpenDirectory(name), OpenEventView::Done) => opened.push(
            ComponentView::Normal(name),
        ),
        (OpenStepView::OpenFile(name), OpenEventView::Done) => opened.push(
            ComponentView::Normal(name),
        ),
        _ => opened,
    }
}

proof fn lemma_one_root(names: Seq<Seq<char>>, i: int)
    requires
        0 <= i < path::named_steps(names).len(),
    ensures
        !(path::named_steps(names)[i] is Root),
    decreases names.len(),
{
    if names.len() > 0 {
        let before = path::named_steps(names.drop_last());
        if i < before.len() {
            lemma_one_root(names.drop_last(), i);
        }
    }
}

/// What is opened is the file at the very path it was asked for: each step is
/// opened in the one before it, from the root on, and none is left out.
pub proof fn env_files_are_opened_where_they_lie(
    path: Seq<char>,
    m: EnvOpeningView,
    event: OpenEventView,
    opened: Seq<ComponentView>,
)
    requires
        path::is_absolute(path),
        m.steps == path::components(path),
        opening_stands(m),
        open_at(m, opened),
    ensures
        opening_stands(opening_after(m, event)),
        open_at(opening_after(m, event), opened_after(opened, opening_asks(m), event)),
        opening_after(m, event).steps == path::components(path),
{
    let names = text::pieces(path, '/');
    let rest = path::named_steps(names);
    assert(m.steps == seq![ComponentView::Root] + rest);
    assert forall|i: int| 0 < i < m.steps.len() implies !(#[trigger] m.steps[i] is Root) by {
        lemma_one_root(names, i - 1);
        assert(m.steps[i] == rest[i - 1]);
    }
    assert(m.steps[0] is Root);
    let after = opened_after(opened, opening_asks(m), event);
    match m.stage {
        OpenStageView::Root => {
            reveal_with_fuel(opening_from, 3);
            assert(event is Done ==> after =~= m.steps.take(1));
        },
        OpenStageView::At(i) => {
            if event is Done {
                assert(after =~= m.steps.take(i + 1));
                if i + 1 == m.steps.len() {
                    assert(m.steps.take(i + 1) =~= m.steps);
                }
            }
        },
        _ => {},
    }
}

} // verus!
