//! Runs of `p4` commands, one after the other, and what their outcomes mean.

use crate::text;
use vstd::prelude::*;
use vstd::string::StringExecFns;

verus! {

/// A `p4` command: its arguments, and whether its output is to be tagged.
#[derive(Debug)]
pub struct P4Command {
    pub tagged: bool,
    pub args: Vec<String>,
}

/// What a [`P4Command`] says.
#[verifier::ext_equal]
pub struct P4CommandView {
    pub tagged: bool,
    pub args: Seq<Seq<char>>,
}

impl View for P4Command {
    type V = P4CommandView;

    open spec fn view(&self) -> P4CommandView {
        P4CommandView { tagged: self.tagged, args: text::views(self.args@) }
    }
}

/// The argument vector of the process. `-ztag` is an option of `p4` itself and
/// stands before the subcommand.
pub open spec fn command_line(command: P4CommandView) -> Seq<Seq<char>> {
    if command.tagged {
        seq!["-ztag"@] + command.args
    } else {
        command.args
    }
}

impl P4Command {
    /// The argument vector of the process.
    pub fn argv(self) -> (r: Vec<String>)
        ensures
            text::views(r@) == command_line(self@),
    {
        let mut args = self.args;
        if self.tagged {
            let ghost before = args@;
            args.insert(0, "-ztag".to_owned());
            assert(text::views(args@) =~= seq!["-ztag"@] + text::views(before));
        }
        args
    }
}

/// How a command came out.
#[derive(Debug)]
pub enum P4Outcome {
    /// The process could not be run; the text says why.
    NotRun(String),
    /// The process ended, with or without success.
    Exited { success: bool, stderr: String },
}

/// What a [`P4Outcome`] says.
pub enum P4OutcomeView {
    NotRun(Seq<char>),
    Exited { success: bool, stderr: Seq<char> },
}

impl View for P4Outcome {
    type V = P4OutcomeView;

    open spec fn view(&self) -> P4OutcomeView {
        match self {
            P4Outcome::NotRun(why) => P4OutcomeView::NotRun(why@),
            P4Outcome::Exited { success, stderr } => P4OutcomeView::Exited {
                success: *success,
                stderr: stderr@,
            },
        }
    }
}

/// One command of a script.
#[derive(Debug)]
pub struct ScriptStep {
    pub command: P4Command,
    /// The name under which a failure is reported and ends the script; without
    /// one, a failure is passed over.
    pub required: Option<String>,
}

/// What a [`ScriptStep`] says.
#[verifier::ext_equal]
pub struct ScriptStepView {
    pub command: P4CommandView,
    pub required: Option<Seq<char>>,
}

impl View for ScriptStep {
    type V = ScriptStepView;

    open spec fn view(&self) -> ScriptStepView {
        ScriptStepView { command: self.command@, required: text::option_view(self.required) }
    }
}

/// The report of a failure.
pub open spec fn failure_text(name: Seq<char>, stderr: Seq<char>) -> Seq<char> {
    name + " failed: "@ + stderr
}

/// What a step's outcome comes to: nothing, or the error that ends the script.
pub open spec fn step_error(step: ScriptStepView, outcome: P4OutcomeView) -> Option<Seq<char>> {
    match (step.required, outcome) {
        (None, _) => None,
        (Some(_), P4OutcomeView::NotRun(why)) => Some(why),
        (Some(name), P4OutcomeView::Exited { success, stderr }) => if success {
            None
        } else {
            Some(failure_text(name, stderr))
        },
    }
}

/// What to do next in a script.
#[derive(Debug)]
pub enum NextStep {
    /// Run the step at this place.
    Run(usize),
    /// The script came to its end.
    Done,
    /// The script ended with this error.
    Failed(String),
}

/// What a [`NextStep`] says.
pub enum NextStepView {
    Run(int),
    Done,
    Failed(Seq<char>),
}

impl View for NextStep {
    type V = NextStepView;

    open spec fn view(&self) -> NextStepView {
        match self {
            NextStep::Run(i) => NextStepView::Run(*i as int),
            NextStep::Done => NextStepView::Done,
            NextStep::Failed(error) => NextStepView::Failed(error@),
        }
    }
}

/// The step at `i` is next, if there is one.
pub open spec fn step_at(steps: Seq<ScriptStepView>, i: int) -> NextStepView {
    if i < steps.len() {
        NextStepView::Run(i)
    } else {
        NextStepView::Done
    }
}

/// What follows when the step at `i` has come out.
pub open spec fn step_after(steps: Seq<ScriptStepView>, i: int, outcome: P4OutcomeView) -> NextStepView {
    match step_error(steps[i], outcome) {
        Some(error) => NextStepView::Failed(error),
        None => step_at(steps, i + 1),
    }
}

/// What to do first in a script.
pub fn start_script(steps: &Vec<ScriptStep>) -> (r: NextStep)
    ensures
        r@ == step_at(text::views(steps@), 0),
{
    if steps.len() > 0 {
        NextStep::Run(0)
    } else {
        NextStep::Done
    }
}

/// What to do when the step at `i` has come out: a required step that failed
/// ends the script, and anything else lets it go on.
pub fn continue_script(steps: &Vec<ScriptStep>, i: usize, outcome: &P4Outcome) -> (r: NextStep)
    requires
        i < steps@.len(),
    ensures
        r@ == step_after(text::views(steps@), i as int, outcome@),
{
    assert(text::views(steps@)[i as int] == steps@[i as int]@);
    if let Some(name) = &steps[i].required {
        match outcome {
            P4Outcome::NotRun(why) => {
                return NextStep::Failed(why.clone());
            },
            P4Outcome::Exited { success, stderr } => {
                if !*success {
                    return NextStep::Failed(report_failure(name.as_str(), stderr.as_str()));
                }
            },
        }
    }
    let n: usize = steps.len();
    if i + 1 < n {
        NextStep::Run(i + 1)
    } else {
        NextStep::Done
    }
}

/// The report of a failure.
pub fn report_failure(name: &str, stderr: &str) -> (r: String)
    ensures
        r@ == failure_text(name@, stderr@),
{
    let mut out = name.to_owned();
    out.append(" failed: ");
    out.append(stderr);
    out
}

/// The outcome of a command whose success is needed, as `p4 command failed`
/// reports it.
pub fn require_success(outcome: &P4Outcome) -> (r: Result<(), String>)
    ensures
        match (r, outcome@) {
            (Ok(_), P4OutcomeView::Exited { success, stderr }) => success,
            (Err(e), P4OutcomeView::Exited { success, stderr }) => !success && e@ == failure_text(
                "p4 command"@,
                stderr,
            ),
            (Err(e), P4OutcomeView::NotRun(why)) => e@ == why,
            (Ok(_), P4OutcomeView::NotRun(why)) => false,
        },
{
    match outcome {
        P4Outcome::NotRun(why) => Err(why.clone()),
        P4Outcome::Exited { success, stderr } => {
            if *success {
                Ok(())
            } else {
                Err(report_failure("p4 command", stderr.as_str()))
            }
        },
    }
}

/// The step that a script reaches after the outcomes so far, from step `i` on.
pub open spec fn reached(steps: Seq<ScriptStepView>, i: int, outcomes: Seq<P4OutcomeView>) -> NextStepView
    decreases outcomes.len(),
{
    if outcomes.len() == 0 {
        step_at(steps, i)
    } else if 0 <= i < steps.len() {
        match step_error(steps[i], outcomes[0]) {
            Some(error) => NextStepView::Failed(error),
            None => reached(steps, i + 1, outcomes.skip(1)),
        }
    } else {
        NextStepView::Done
    }
}

/// A step is run only where every required step before it succeeded.
pub proof fn steps_run_only_after_success(
    steps: Seq<ScriptStepView>,
    i: int,
    outcomes: Seq<P4OutcomeView>,
)
    requires
        0 <= i <= steps.len(),
        reached(steps, i, outcomes) is Run,
    ensures
        reached(steps, i, outcomes)->Run_0 == i + outcomes.len(),
        forall|k: int|
            0 <= k < outcomes.len() ==> step_error(steps[i + k], #[trigger] outcomes[k]) is None,
    decreases outcomes.len(),
{
    if outcomes.len() > 0 {
        steps_run_only_after_success(steps, i + 1, outcomes.skip(1));
        assert forall|k: int| 0 <= k < outcomes.len() implies step_error(
            steps[i + k],
            #[trigger] outcomes[k],
        ) is None by {
            if k > 0 {
                assert(outcomes.skip(1)[k - 1] == outcomes[k]);
                assert(step_error(steps[i + 1 + (k - 1)], outcomes.skip(1)[k - 1]) is None);
            }
        }
    }
}

/// A step that has to succeed ends the script where it does not: with why it
/// could not be run, or with its name and what it printed. Any other outcome, and
/// any outcome of a step that need not succeed, leads to the next step, and the
/// last step to the end.
pub proof fn steps_follow_each_other(
    steps: Seq<ScriptStepView>,
    i: int,
    outcome: P4OutcomeView,
)
    requires
        0 <= i < steps.len(),
    ensures
        steps[i].required matches Some(name) ==> match outcome {
            P4OutcomeView::NotRun(why) => step_after(steps, i, outcome) == NextStepView::Failed(
                why,
            ),
            P4OutcomeView::Exited { success, stderr } => !success ==> step_after(steps, i, outcome)
                == NextStepView::Failed(name + " failed: "@ + stderr),
        },
        steps[i].required is None || (outcome matches P4OutcomeView::Exited { success, .. }
            && success) ==> step_after(steps, i, outcome) == (if i + 1 == steps.len() {
            NextStepView::Done
        } else {
            NextStepView::Run(i + 1)
        }),
        step_at(steps, 0) == NextStepView::Run(0),
        step_at(Seq::empty(), 0) == NextStepView::Done,
{
}

/// Tagged output is asked for before the subcommand, and nothing else is added.
pub proof fn tag_stands_first(args: Seq<Seq<char>>)
    ensures
        command_line((P4CommandView { tagged: false, args })) == args,
        command_line((P4CommandView { tagged: true, args })).len() == args.len() + 1,
        command_line((P4CommandView { tagged: true, args }))[0] == "-ztag"@,
        command_line((P4CommandView { tagged: true, args })).skip(1) == args,
{
    assert((seq!["-ztag"@] + args).skip(1) =~= args);
}

} // verus!
