//! The pipeline controller: input validation, the fixed order of steps, and the
//! confirmation gate in front of each of them.
//!
//! The controller decides; the caller performs. It asks `next_action`, carries
//! the action out (asks the operator, or runs the step), and reports back with
//! `answer` or `completed`.
use vstd::prelude::*;
use crate::paths::{is_within, relative_of, same_path};
use crate::shader::{trim, trim_chars};
use crate::text::chars_of;

verus! {

/// Why the input and output directories cannot be used.
#[derive(Debug, Clone, Copy, PartialEq, Eq, Structural)]
pub enum ValidationError {
    InputMissing,
    OutputMissing,
    SameDirectory,
    OutputInsideInput,
}

/// The first rule that the two directories break, if any: the input must be an
/// existing directory, the output must exist, they must differ, and the output
/// must not lie inside the input (paths compared by components).
pub open spec fn validation(
    input_is_dir: bool,
    output_exists: bool,
    input: Seq<char>,
    output: Seq<char>,
) -> Option<ValidationError> {
    if !input_is_dir {
        Some(ValidationError::InputMissing)
    } else if !output_exists {
        Some(ValidationError::OutputMissing)
    } else if relative_of(output, input) == Some(Seq::<char>::empty()) {
        Some(ValidationError::SameDirectory)
    } else if relative_of(output, input) is Some {
        Some(ValidationError::OutputInsideInput)
    } else {
        None
    }
}

/// Checks the directories of a run before anything is touched.
pub fn validate(input_is_dir: bool, output_exists: bool, input: &str, output: &str) -> (r: Result<
    (),
    ValidationError,
>)
    ensures
        match validation(input_is_dir, output_exists, input@, output@) {
            Some(e) => r == Err::<(), ValidationError>(e),
            None => r is Ok,
        },
{
    if !input_is_dir {
        return Err(ValidationError::InputMissing);
    }
    if !output_exists {
        return Err(ValidationError::OutputMissing);
    }
    if same_path(output, input) {
        return Err(ValidationError::SameDirectory);
    }
    if is_within(output, input) {
        return Err(ValidationError::OutputInsideInput);
    }
    Ok(())
}

/// The steps of a run.
#[derive(Debug, Clone, Copy, PartialEq, Eq, Structural)]
pub enum Step {
    EmptyOutput,
    Clone,
    MinifyJson,
    MinifyYaml,
    StripShaders,
    RecompressPng,
    Archive,
    CopyToOutput,
    DeleteWorkingTree,
}

/// Whether the operator is asked before the step (the final copy out of the
/// working tree follows the last transform without a question).
pub open spec fn gated(s: Step) -> bool {
    s != Step::CopyToOutput
}

/// The steps of a run, in order: emptying the output when it holds anything,
/// the clone, the four transforms, archiving or copying out, and removing the
/// working tree.
pub open spec fn plan(output_empty: bool, archive: bool) -> Seq<Step> {
    let head = if output_empty {
        Seq::<Step>::empty()
    } else {
        seq![Step::EmptyOutput]
    };
    head + seq![
        Step::Clone,
        Step::MinifyJson,
        Step::MinifyYaml,
        Step::StripShaders,
        Step::RecompressPng,
        if archive {
            Step::Archive
        } else {
            Step::CopyToOutput
        },
        Step::DeleteWorkingTree,
    ]
}

/// What the caller is to do next.
#[derive(Debug, Clone, Copy, PartialEq, Eq, Structural)]
pub enum Action {
    /// Ask the operator whether to go on with the step.
    Confirm(Step),
    /// Carry the step out.
    Run(Step),
    /// Every step is done.
    Finish,
    /// The operator declined; nothing more is to be done.
    Abort,
}

/// The state of one run.
pub struct Pipeline {
    steps: Vec<Step>,
    pos: usize,
    asking: bool,
    aborted: bool,
    no_confirm: bool,
}

/// Whether the step at `pos` waits for the operator.
pub open spec fn asks(steps: Seq<Step>, pos: int, no_confirm: bool) -> bool {
    pos < steps.len() && gated(steps[pos]) && !no_confirm
}

/// The action that a state calls for.
pub open spec fn action_of(steps: Seq<Step>, pos: int, asking: bool, aborted: bool) -> Action {
    if aborted {
        Action::Abort
    } else if pos >= steps.len() {
        Action::Finish
    } else if asking {
        Action::Confirm(steps[pos])
    } else {
        Action::Run(steps[pos])
    }
}

impl Pipeline {
    pub closed spec fn steps(&self) -> Seq<Step> {
        self.steps@
    }

    pub closed spec fn pos(&self) -> int {
        self.pos as int
    }

    pub closed spec fn asking(&self) -> bool {
        self.asking
    }

    pub closed spec fn aborted(&self) -> bool {
        self.aborted
    }

    pub closed spec fn no_confirm(&self) -> bool {
        self.no_confirm
    }

    /// The position is within the plan, and a question is pending only where the
    /// step is gated and questions are on.
    pub open spec fn wf(&self) -> bool {
        &&& 0 <= self.pos() <= self.steps().len()
        &&& self.asking() ==> asks(self.steps(), self.pos(), self.no_confirm())
    }

    /// The action that this state calls for.
    pub open spec fn action(&self) -> Action {
        action_of(self.steps(), self.pos(), self.asking(), self.aborted())
    }

    /// A new run over the plan for this output and packaging; with `no_confirm`
    /// every gate lets the step through unasked.
    pub fn new(output_empty: bool, archive: bool, no_confirm: bool) -> (r: Pipeline)
        ensures
            r.wf(),
            r.steps() == plan(output_empty, archive),
            r.pos() == 0,
            r.asking() == asks(plan(output_empty, archive), 0, no_confirm),
            !r.aborted(),
            r.no_confirm() == no_confirm,
    {
        let mut steps: Vec<Step> = Vec::new();
        if !output_empty {
            steps.push(Step::EmptyOutput);
        }
        steps.push(Step::Clone);
        steps.push(Step::MinifyJson);
        steps.push(Step::MinifyYaml);
        steps.push(Step::StripShaders);
        steps.push(Step::RecompressPng);
        if archive {
            steps.push(Step::Archive);
        } else {
            steps.push(Step::CopyToOutput);
        }
        steps.push(Step::DeleteWorkingTree);
        assert(steps@ =~= plan(output_empty, archive));
        let asking = !no_confirm && steps[0] != Step::CopyToOutput;
        Pipeline { steps, pos: 0, asking, aborted: false, no_confirm }
    }

    /// What the caller is to do next.
    pub fn next_action(&self) -> (r: Action)
        requires
            self.wf(),
        ensures
            r == self.action(),
    {
        if self.aborted {
            Action::Abort
        } else if self.pos >= self.steps.len() {
            Action::Finish
        } else if self.asking {
            Action::Confirm(self.steps[self.pos])
        } else {
            Action::Run(self.steps[self.pos])
        }
    }

    /// The operator's answer to a pending question: yes lets the step run, no
    /// ends the run.
    pub fn answer(&mut self, yes: bool)
        requires
            old(self).wf(),
            old(self).action() is Confirm,
        ensures
            final(self).wf(),
            final(self).steps() == old(self).steps(),
            final(self).pos() == old(self).pos(),
            final(self).no_confirm() == old(self).no_confirm(),
            !final(self).asking(),
            final(self).aborted() == !yes,
            yes ==> final(self).action() == Action::Run(old(self).steps()[old(self).pos()]),
            !yes ==> final(self).action() == Action::Abort,
    {
        self.asking = false;
        if !yes {
            self.aborted = true;
        }
    }

    /// The step that was running has finished; the next one comes up, behind its
    /// gate where it has one.
    pub fn completed(&mut self)
        requires
            old(self).wf(),
            old(self).action() is Run,
        ensures
            final(self).wf(),
            final(self).steps() == old(self).steps(),
            final(self).pos() == old(self).pos() + 1,
            final(self).no_confirm() == old(self).no_confirm(),
            !final(self).aborted(),
            final(self).asking() == asks(
                old(self).steps(),
                old(self).pos() + 1,
                old(self).no_confirm(),
            ),
    {
        let n = self.steps.len();
        assert(self.pos < n);
        self.pos = self.pos + 1;
        self.asking = !self.no_confirm && self.pos < self.steps.len()
            && self.steps[self.pos] != Step::CopyToOutput;
    }
}

/// With confirmations off and a non-empty output, the output is emptied first,
/// unasked, before the clone.
pub proof fn lemma_unattended_empties_output_first(archive: bool)
    ensures
        action_of(plan(false, archive), 0, asks(plan(false, archive), 0, true), false)
            == Action::Run(Step::EmptyOutput),
        plan(false, archive)[0] == Step::EmptyOutput,
        plan(false, archive)[1] == Step::Clone,
{
}

/// Steps run strictly in the order of the plan: every step comes once, the
/// clone before the transforms, the transforms in their fixed order, then the
/// packaging, and the working tree is removed last.
pub proof fn lemma_plan_order(output_empty: bool, archive: bool)
    ensures
        ({
            let p = plan(output_empty, archive);
            let o: int = if output_empty {
                0
            } else {
                1
            };
            &&& p.len() == o + 7
            &&& p[o] == Step::Clone
            &&& p[o + 1] == Step::MinifyJson
            &&& p[o + 2] == Step::MinifyYaml
            &&& p[o + 3] == Step::StripShaders
            &&& p[o + 4] == Step::RecompressPng
            &&& p[o + 5] == (if archive {
                Step::Archive
            } else {
                Step::CopyToOutput
            })
            &&& p[o + 6] == Step::DeleteWorkingTree
        }),
{
}

/// The upper-case form of the letters that answers are made of.
pub open spec fn upper(c: char) -> char {
    if c == 'y' {
        'Y'
    } else if c == 'e' {
        'E'
    } else if c == 's' {
        'S'
    } else if c == 'n' {
        'N'
    } else if c == 'o' {
        'O'
    } else {
        c
    }
}

/// Whether `t` spells `word`, letter by letter in either case.
pub open spec fn spells(t: Seq<char>, word: Seq<char>) -> bool {
    t.len() == word.len() && forall|i: int|
        0 <= i < t.len() ==> t[i] == word[i] || t[i] == upper(#[trigger] word[i])
}

/// What an operator's reply means once trimmed: `y` or `yes` agree, `n` or `no`
/// decline (in either case); anything else asks for the question again.
pub open spec fn answer_of(reply: Seq<char>) -> Option<bool> {
    let t = trim(reply);
    if spells(t, "y"@) || spells(t, "yes"@) {
        Some(true)
    } else if spells(t, "n"@) || spells(t, "no"@) {
        Some(false)
    } else {
        None
    }
}

fn upper_exec(c: char) -> (r: char)
    ensures
        r == upper(c),
{
    if c == 'y' {
        'Y'
    } else if c == 'e' {
        'E'
    } else if c == 's' {
        'S'
    } else if c == 'n' {
        'N'
    } else if c == 'o' {
        'O'
    } else {
        c
    }
}

fn spells_exec(t: &Vec<char>, word: &str) -> (r: bool)
    ensures
        r == spells(t@, word@),
{
    let w = chars_of(word);
    if t.len() != w.len() {
        return false;
    }
    let mut i: usize = 0;
    while i < t.len()
        invariant
            t@.len() == w@.len(),
            w@ == word@,
            i <= t@.len(),
            forall|j: int| 0 <= j < i ==> t@[j] == w@[j] || t@[j] == upper(#[trigger] w@[j]),
        decreases t@.len() - i,
    {
        if t[i] != w[i] && t[i] != upper_exec(w[i]) {
            return false;
        }
        i = i + 1;
    }
    true
}

/// Reads an operator's reply to a confirmation: `Some(true)` to go on,
/// `Some(false)` to stop, `None` when the reply is neither.
pub fn parse_answer(reply: &str) -> (r: Option<bool>)
    ensures
        r == answer_of(reply@),
{
    let t = trim_chars(&chars_of(reply));
    if spells_exec(&t, "y") || spells_exec(&t, "yes") {
        Some(true)
    } else if spells_exec(&t, "n") || spells_exec(&t, "no") {
        Some(false)
    } else {
        None
    }
}

} // verus!
