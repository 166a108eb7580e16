//! External commands as plain values: what to run, and whether its failure
//! stops the sequence it belongs to.

use vstd::prelude::*;

use crate::error::{error_detail, error_prefix, Error};
use crate::text::views;

verus! {

/// A program and its arguments.
#[derive(Debug, Clone)]
pub struct Command {
    pub program: String,
    pub args: Vec<String>,
}

/// One step of a route or service change.
#[derive(Debug)]
pub enum Step {
    /// Run a command; when `must_succeed`, its failure ends the sequence
    /// with an error, otherwise it is ignored.
    Run { command: Command, must_succeed: bool },
    /// End the sequence with this error.
    Fail(Error),
}

/// A step as plain values.
pub enum StepView {
    Run { program: Seq<char>, args: Seq<Seq<char>>, must_succeed: bool },
    /// The error's kind, as the prefix it is displayed with, and its detail.
    Fail { prefix: Seq<char>, detail: Seq<char> },
}

pub open spec fn step_view(s: Step) -> StepView {
    match s {
        Step::Run { command, must_succeed } => StepView::Run {
            program: command.program@,
            args: views(command.args@),
            must_succeed,
        },
        Step::Fail(e) => StepView::Fail { prefix: error_prefix(e), detail: error_detail(e) },
    }
}

pub open spec fn steps_view(v: Seq<Step>) -> Seq<StepView> {
    v.map_values(|s: Step| step_view(s))
}

/// Whether a run of steps ends at this step, given whether its command
/// succeeded: a failing command that must succeed ends it, and so does a
/// failure step; a failing command that may fail does not.
pub open spec fn ends_run(s: StepView, succeeded: bool) -> bool {
    match s {
        StepView::Run { must_succeed, .. } => must_succeed && !succeeded,
        StepView::Fail { .. } => true,
    }
}

/// Whether the run ends at `step` (for a failure step `succeeded` is not
/// looked at).
pub fn step_ends_run(step: &Step, succeeded: bool) -> (r: bool)
    ensures
        r == ends_run(step_view(*step), succeeded),
{
    match step {
        Step::Run { must_succeed, .. } => *must_succeed && !succeeded,
        Step::Fail(_) => true,
    }
}

/// `program args...` as a step.
pub open spec fn run_view(program: Seq<char>, args: Seq<Seq<char>>, must: bool) -> StepView {
    StepView::Run { program, args, must_succeed: must }
}

/// The arguments of a command, built one by one.
pub struct Args {
    pub items: Vec<String>,
}

impl Args {
    pub fn new() -> (r: Args)
        ensures
            views(r.items@) == Seq::<Seq<char>>::empty(),
    {
        let r = Args { items: Vec::new() };
        assert(views(r.items@) =~= Seq::<Seq<char>>::empty());
        r
    }

    /// Appends a copy of `s`.
    pub fn arg(self, s: &str) -> (r: Args)
        ensures
            views(r.items@) == views(self.items@).push(s@),
    {
        let mut items = self.items;
        let ghost before = items@;
        items.push(String::from_str(s));
        assert(views(items@) =~= views(before).push(s@));
        Args { items }
    }

    /// Appends `s`.
    pub fn owned(self, s: String) -> (r: Args)
        ensures
            views(r.items@) == views(self.items@).push(s@),
    {
        let mut items = self.items;
        let ghost before = items@;
        let ghost sv = s@;
        items.push(s);
        assert(views(items@) =~= views(before).push(sv));
        Args { items }
    }

    /// Appends copies of every string of `v`.
    pub fn all(self, v: &Vec<String>) -> (r: Args)
        ensures
            views(r.items@) == views(self.items@) + views(v@),
    {
        let mut items = self.items;
        let ghost start = views(items@);
        let mut i: usize = 0;
        assert(views(v@).take(0) =~= Seq::<Seq<char>>::empty());
        assert(start + Seq::<Seq<char>>::empty() =~= start);
        while i < v.len()
            invariant
                i <= v@.len(),
                views(items@) == start + views(v@).take(i as int),
            decreases v.len() - i,
        {
            let ghost before = items@;
            items.push(v[i].clone());
            assert(views(items@) =~= views(before).push(v@[i as int]@));
            i = i + 1;
            assert(views(items@) =~= start + views(v@).take(i as int));
        }
        assert(views(v@).take(i as int) =~= views(v@));
        Args { items }
    }
}

/// Appends `program args` as a step.
pub fn push_run(steps: &mut Vec<Step>, program: &str, args: Args, must_succeed: bool)
    ensures
        steps_view(final(steps)@) == steps_view(old(steps)@).push(
            run_view(program@, views(args.items@), must_succeed),
        ),
{
    let ghost before = steps@;
    let ghost a = views(args.items@);
    let command = Command { program: String::from_str(program), args: args.items };
    steps.push(Step::Run { command, must_succeed });
    assert(steps_view(steps@) =~= steps_view(before).push(run_view(program@, a, must_succeed)));
}

/// Appends a failure as the last step.
pub fn push_fail(steps: &mut Vec<Step>, e: Error)
    ensures
        steps_view(final(steps)@) == steps_view(old(steps)@).push(
            StepView::Fail { prefix: error_prefix(e), detail: error_detail(e) },
        ),
{
    let ghost before = steps@;
    let ghost d = error_detail(e);
    steps.push(Step::Fail(e));
    assert(steps_view(steps@) =~= steps_view(before).push(StepView::Fail { prefix: error_prefix(e), detail: d }));
}


/// A command as plain values: program, then arguments.
pub open spec fn command_view(c: Command) -> (Seq<char>, Seq<Seq<char>>) {
    (c.program@, views(c.args@))
}

/// The command `program args`.
pub fn command(program: &str, args: Args) -> (r: Command)
    ensures
        command_view(r) == (program@, views(args.items@)),
{
    Command { program: String::from_str(program), args: args.items }
}
} // verus!
