//! The execution engine's plan: the steps that run a pipeline, in order,
//! with the streams that each command is given.

use crate::parser::{
    lemma_words_end_bounds, parse_command, parse_rest, parse_spec, Expr, ExprView, Stream,
};
use crate::commands::{
    built, command_spec, complaint, complaint_text, text_of, Command, CommandView, UsageError,
};
use crate::tokenizer::TokenView;
use vstd::prelude::*;

verus! {

/// What a standard stream of a command is bound to. A file or a pipe is
/// named by the position, in the plan, of the step that opens it.
#[derive(Debug, Clone, Copy, PartialEq, Eq, Structural)]
pub enum Endpoint {
    /// The stream of the interpreter itself.
    Inherit,
    /// The reading end of a pipe.
    PipeRead(usize),
    /// The writing end of a pipe.
    PipeWrite(usize),
    /// An open file.
    File(usize),
}

/// The mathematical value of an [`Endpoint`].
pub enum EndpointView {
    Inherit,
    PipeRead(nat),
    PipeWrite(nat),
    File(nat),
}

impl View for Endpoint {
    type V = EndpointView;

    open spec fn view(&self) -> EndpointView {
        match self {
            Endpoint::Inherit => EndpointView::Inherit,
            Endpoint::PipeRead(i) => EndpointView::PipeRead(*i as nat),
            Endpoint::PipeWrite(i) => EndpointView::PipeWrite(*i as nat),
            Endpoint::File(i) => EndpointView::File(*i as nat),
        }
    }
}

/// One step of a plan.
#[derive(Debug, PartialEq, Eq)]
pub enum Step {
    /// Open the file `path` for writing, creating it if there is none:
    /// at its end if `append`, else emptied.
    Open { path: String, append: bool },
    /// Create a pipe.
    Pipe,
    /// Run the command `command`, which was given under the name `name`,
    /// with the three streams; where the command could not be built from
    /// its arguments, report that on its standard error. Either way what
    /// the streams are bound to is taken over, and closed once the command
    /// is done with it.
    Run {
        name: String,
        command: Result<Command, UsageError>,
        stdin: Endpoint,
        stdout: Endpoint,
        stderr: Endpoint,
    },
    /// Close a file, or an end of a pipe, that no command took over.
    Close(Endpoint),
    /// Wait for the process, if any, that the `Run` step at this position
    /// has started.
    Wait(usize),
}

/// The mathematical value of a [`Step`].
pub enum StepView {
    Open { path: Seq<char>, append: bool },
    Pipe,
    Run {
        name: Seq<char>,
        command: Result<CommandView, UsageError>,
        stdin: EndpointView,
        stdout: EndpointView,
        stderr: EndpointView,
    },
    Close(EndpointView),
    Wait(nat),
}

impl View for Step {
    type V = StepView;

    open spec fn view(&self) -> StepView {
        match self {
            Step::Open { path, append } => StepView::Open { path: path@, append: *append },
            Step::Pipe => StepView::Pipe,
            Step::Run { name, command, stdin, stdout, stderr } => StepView::Run {
                name: name@,
                command: built(*command),
                stdin: stdin@,
                stdout: stdout@,
                stderr: stderr@,
            },
            Step::Close(e) => StepView::Close(e@),
            Step::Wait(i) => StepView::Wait(*i as nat),
        }
    }
}

impl DeepView for Step {
    type V = StepView;

    open spec fn deep_view(&self) -> StepView {
        self@
    }
}

/// Why a pipeline cannot be run.
#[derive(Debug, Clone, Copy, PartialEq, Eq, Structural)]
pub enum ExecError {
    /// A file is to take the place of standard input.
    StdinRedirect,
}

/// No file takes the place of standard input anywhere in the pipeline.
pub open spec fn supported(e: ExprView) -> bool
    decreases e,
{
    match e {
        ExprView::Command { name, args } => true,
        ExprView::Redirect { src, stream, dest } => stream != Stream::Stdin && supported(*src),
        ExprView::Append { src, stream, dest } => stream != Stream::Stdin && supported(*src),
        ExprView::Pipe { src, dest } => supported(*src) && supported(*dest),
    }
}

/// The line that reports why a pipeline cannot be run.
pub open spec fn exec_message(e: ExecError) -> Seq<char> {
    "error: redirection of standard input is not supported"@
}

impl ExecError {
    /// The line that reports the error.
    pub fn message(&self) -> (text: String)
        ensures
            text@ == exec_message(*self),
    {
        "error: redirection of standard input is not supported".to_owned()
    }
}

/// A pipeline that the parser built can be run.
pub proof fn lemma_well_formed_supported(e: ExprView)
    requires
        crate::parser::well_formed(e),
    ensures
        supported(e),
    decreases e,
{
    match e {
        ExprView::Command { name, args } => {},
        ExprView::Redirect { src, stream, dest } => {
            lemma_well_formed_supported(*src);
        },
        ExprView::Append { src, stream, dest } => {
            lemma_well_formed_supported(*src);
        },
        ExprView::Pipe { src, dest } => {
            lemma_well_formed_supported(*src);
            lemma_well_formed_supported(*dest);
        },
    }
}

/// The step that closes `e`, unless `e` is a stream of the interpreter.
pub open spec fn closing(e: EndpointView) -> Seq<StepView> {
    if e is Inherit {
        Seq::empty()
    } else {
        seq![StepView::Close(e)]
    }
}

/// The steps that send one output stream of `src` to the file `dest`. The
/// file is opened first. What the stream was bound to before is closed
/// once `src` has been started.
pub open spec fn steps_to_file(
    src: ExprView,
    stream: Stream,
    dest: Seq<char>,
    append: bool,
    stdin: EndpointView,
    stdout: EndpointView,
    stderr: EndpointView,
    base: nat,
) -> Seq<StepView>
    decreases src, 2nat,
{
    let file = EndpointView::File(base);
    let open = seq![StepView::Open { path: dest, append }];
    if stream == Stream::Stderr {
        open + steps_of(src, stdin, stdout, file, base + 1) + closing(stderr)
    } else {
        open + steps_of(src, stdin, file, stderr, base + 1) + closing(stdout)
    }
}

/// The steps that start the pipeline `e` with the given streams, as they
/// stand in a plan from position `base` on.
pub open spec fn steps_of(
    e: ExprView,
    stdin: EndpointView,
    stdout: EndpointView,
    stderr: EndpointView,
    base: nat,
) -> Seq<StepView>
    decreases e, 1nat,
{
    match e {
        ExprView::Command { name, args } => seq![
            StepView::Run { name, command: command_spec(name, args), stdin, stdout, stderr },
        ],
        ExprView::Redirect { src, stream, dest } => steps_to_file(
            *src,
            stream,
            dest,
            false,
            stdin,
            stdout,
            stderr,
            base,
        ),
        ExprView::Append { src, stream, dest } => steps_to_file(
            *src,
            stream,
            dest,
            true,
            stdin,
            stdout,
            stderr,
            base,
        ),
        ExprView::Pipe { src, dest } => {
            let first = steps_of(*src, stdin, EndpointView::PipeWrite(base), stderr, base + 1);
            seq![StepView::Pipe] + first + steps_of(
                *dest,
                EndpointView::PipeRead(base),
                stdout,
                EndpointView::Inherit,
                base + 1 + first.len(),
            )
        },
    }
}

/// The positions of the `Run` steps among the steps that send one output
/// stream of `src` to a file, in the order in which they are waited for.
pub open spec fn waits_to_file(
    src: ExprView,
    stream: Stream,
    stdin: EndpointView,
    stdout: EndpointView,
    stderr: EndpointView,
    base: nat,
) -> Seq<nat>
    decreases src, 2nat,
{
    let file = EndpointView::File(base);
    if stream == Stream::Stderr {
        waits_of(src, stdin, stdout, file, base + 1)
    } else {
        waits_of(src, stdin, file, stderr, base + 1)
    }
}

/// The positions of the `Run` steps among the steps that start the
/// pipeline `e`, in the order in which they are waited for: the right side
/// of a pipe before its left side.
pub open spec fn waits_of(
    e: ExprView,
    stdin: EndpointView,
    stdout: EndpointView,
    stderr: EndpointView,
    base: nat,
) -> Seq<nat>
    decreases e, 1nat,
{
    match e {
        ExprView::Command { name, args } => seq![base],
        ExprView::Redirect { src, stream, dest } => waits_to_file(
            *src,
            stream,
            stdin,
            stdout,
            stderr,
            base,
        ),
        ExprView::Append { src, stream, dest } => waits_to_file(
            *src,
            stream,
            stdin,
            stdout,
            stderr,
            base,
        ),
        ExprView::Pipe { src, dest } => {
            let first = steps_of(*src, stdin, EndpointView::PipeWrite(base), stderr, base + 1);
            waits_of(
                *dest,
                EndpointView::PipeRead(base),
                stdout,
                EndpointView::Inherit,
                base + 1 + first.len(),
            ) + waits_of(*src, stdin, EndpointView::PipeWrite(base), stderr, base + 1)
        },
    }
}

/// The steps that wait for the `Run` steps at the given positions.
pub open spec fn wait_steps(runs: Seq<nat>) -> Seq<StepView> {
    runs.map_values(|i: nat| StepView::Wait(i))
}

/// The steps that start the pipeline `e` with the streams of the
/// interpreter.
pub open spec fn start_spec(e: ExprView) -> Seq<StepView> {
    steps_of(e, EndpointView::Inherit, EndpointView::Inherit, EndpointView::Inherit, 0)
}

/// The plan that runs the pipeline `e` with the streams of the
/// interpreter: the steps that start it, then the steps that wait for what
/// was started.
pub open spec fn plan_spec(e: ExprView) -> Seq<StepView> {
    start_spec(e) + wait_steps(
        waits_of(e, EndpointView::Inherit, EndpointView::Inherit, EndpointView::Inherit, 0),
    )
}

/// The positions in `handle`, as numbers.
pub open spec fn positions(handle: Seq<usize>) -> Seq<nat> {
    handle.map_values(|i: usize| i as nat)
}

impl Expr {
    /// Whether no file takes the place of standard input anywhere in the
    /// pipeline.
    pub fn is_supported(&self) -> (r: bool)
        ensures
            r == supported(self@),
        decreases self,
    {
        match self {
            Expr::Command { name, args } => true,
            Expr::Redirect { src, stream, dest } => !matches!(stream, Stream::Stdin)
                && src.is_supported(),
            Expr::Append { src, stream, dest } => !matches!(stream, Stream::Stdin)
                && src.is_supported(),
            Expr::Pipe { src, dest } => src.is_supported() && dest.is_supported(),
        }
    }

    /// Adds to `plan` the steps that start the pipeline with the given
    /// streams, and returns the positions of its `Run` steps in the order
    /// in which they are to be waited for.
    pub fn execute(&self, stdin: Endpoint, stdout: Endpoint, stderr: Endpoint, plan: &mut Vec<Step>)
        -> (handle: Vec<usize>)
        requires
            supported(self@),
        ensures
            final(plan).deep_view() == old(plan).deep_view() + steps_of(
                self@,
                stdin@,
                stdout@,
                stderr@,
                old(plan).len() as nat,
            ),
            positions(handle@) == waits_of(
                self@,
                stdin@,
                stdout@,
                stderr@,
                old(plan).len() as nat,
            ),
        decreases self, 1nat,
    {
        let ghost before = plan.deep_view();
        let base = plan.len();
        match self {
            Expr::Command { name, args } => {
                let step = Step::Run {
                    name: name.clone(),
                    command: Command::new(name.clone(), args.clone()),
                    stdin,
                    stdout,
                    stderr,
                };
                assert(step@ == steps_of(self@, stdin@, stdout@, stderr@, base as nat)[0]);
                plan.push(step);
                let mut handle = Vec::new();
                handle.push(base);
                assert(plan.deep_view() =~= before + steps_of(
                    self@,
                    stdin@,
                    stdout@,
                    stderr@,
                    base as nat,
                ));
                assert(positions(handle@) =~= seq![base as nat]);
                handle
            },
            Expr::Redirect { src, stream, dest } => {
                send_to_file(src, *stream, dest, false, stdin, stdout, stderr, plan)
            },
            Expr::Append { src, stream, dest } => {
                send_to_file(src, *stream, dest, true, stdin, stdout, stderr, plan)
            },
            Expr::Pipe { src, dest } => {
                plan.push(Step::Pipe);
                let ghost opened = plan.deep_view();
                assert(opened =~= before + seq![StepView::Pipe]);
                let next = plan.len();
                assert(next == base + 1);
                let mut left = src.execute(stdin, Endpoint::PipeWrite(base), stderr, plan);
                let ghost first = steps_of(
                    src@,
                    stdin@,
                    EndpointView::PipeWrite(base as nat),
                    stderr@,
                    (base + 1) as nat,
                );
                assert(plan.deep_view().len() == opened.len() + first.len());
                let mut handle = dest.execute(
                    Endpoint::PipeRead(base),
                    stdout,
                    Endpoint::Inherit,
                    plan,
                );
                let ghost right = positions(handle@);
                let ghost near = positions(left@);
                handle.append(&mut left);
                assert(positions(handle@) =~= right + near);
                assert(plan.deep_view() =~= before + steps_of(
                    self@,
                    stdin@,
                    stdout@,
                    stderr@,
                    base as nat,
                ));
                handle
            },
        }
    }
}

/// Adds to `plan` the steps that send one output stream of `src` to the
/// file `dest`, and returns the positions of the `Run` steps of `src` in
/// the order in which they are to be waited for.
fn send_to_file(
    src: &Expr,
    stream: Stream,
    dest: &String,
    append: bool,
    stdin: Endpoint,
    stdout: Endpoint,
    stderr: Endpoint,
    plan: &mut Vec<Step>,
) -> (handle: Vec<usize>)
    requires
        supported(src@),
        stream != Stream::Stdin,
    ensures
        final(plan).deep_view() == old(plan).deep_view() + steps_to_file(
            src@,
            stream,
            dest@,
            append,
            stdin@,
            stdout@,
            stderr@,
            old(plan).len() as nat,
        ),
        positions(handle@) == waits_to_file(
            src@,
            stream,
            stdin@,
            stdout@,
            stderr@,
            old(plan).len() as nat,
        ),
    decreases src, 2nat,
{
    let ghost before = plan.deep_view();
    let base = plan.len();
    plan.push(Step::Open { path: dest.clone(), append });
    assert(plan.deep_view() =~= before + seq![StepView::Open { path: dest@, append }]);
    let next = plan.len();
    assert(next == base + 1);
    let file = Endpoint::File(base);
    let (handle, replaced) = if matches!(stream, Stream::Stderr) {
        (src.execute(stdin, stdout, file, plan), stderr)
    } else {
        (src.execute(stdin, file, stderr, plan), stdout)
    };
    let ghost started = plan.deep_view();
    if !matches!(replaced, Endpoint::Inherit) {
        plan.push(Step::Close(replaced));
        assert(plan.deep_view() =~= started + closing(replaced@));
    } else {
        assert(plan.deep_view() =~= started + closing(replaced@));
    }
    assert(plan.deep_view() =~= before + steps_to_file(
        src@,
        stream,
        dest@,
        append,
        stdin@,
        stdout@,
        stderr@,
        base as nat,
    ));
    handle
}

/// The plan that runs the pipeline `expr` with the streams of the
/// interpreter.
pub fn plan(expr: &Expr) -> (r: Result<Vec<Step>, ExecError>)
    ensures
        match r {
            Ok(steps) => supported(expr@) && steps.deep_view() == plan_spec(expr@),
            Err(e) => !supported(expr@),
        },
{
    if !expr.is_supported() {
        return Err(ExecError::StdinRedirect);
    }
    let mut steps: Vec<Step> = Vec::new();
    assert(steps.deep_view() =~= Seq::<StepView>::empty());
    let handle = expr.execute(Endpoint::Inherit, Endpoint::Inherit, Endpoint::Inherit, &mut steps);
    let ghost started = steps.deep_view();
    assert(started =~= start_spec(expr@));
    let mut i: usize = 0;
    while i < handle.len()
        invariant
            i <= handle.len(),
            steps.deep_view() == started + wait_steps(positions(handle@).take(i as int)),
        decreases handle.len() - i,
    {
        let ghost before = steps.deep_view();
        let ghost done = positions(handle@).take(i as int);
        steps.push(Step::Wait(handle[i]));
        assert(positions(handle@).take(i + 1) =~= done.push(handle[i as int] as nat));
        assert(wait_steps(done.push(handle[i as int] as nat)) =~= wait_steps(done).push(
            StepView::Wait(handle[i as int] as nat),
        ));
        assert(steps.deep_view() =~= before.push(StepView::Wait(handle[i as int] as nat)));
        assert(before.push(StepView::Wait(handle[i as int] as nat)) =~= started + wait_steps(
            done,
        ).push(StepView::Wait(handle[i as int] as nat)));
        i += 1;
    }
    assert(positions(handle@).take(i as int) =~= positions(handle@));
    Ok(steps)
}

/// What follows a step that was tried.
#[derive(Debug, PartialEq, Eq)]
pub enum Next {
    /// The next step of the plan.
    Continue,
    /// Nothing more of the plan. The line `report`, which ends in a line
    /// feed, is written to standard error, and the steps `rest` are
    /// carried out in place of the rest of the plan: they close what is
    /// open and wait for what was started.
    GiveUp { report: String, rest: Vec<Step> },
}

/// The mathematical value of a [`Next`].
pub enum NextView {
    Continue,
    GiveUp { report: Seq<char>, rest: Seq<StepView> },
}

impl View for Next {
    type V = NextView;

    open spec fn view(&self) -> NextView {
        match self {
            Next::Continue => NextView::Continue,
            Next::GiveUp { report, rest } => NextView::GiveUp {
                report: report@,
                rest: rest.deep_view(),
            },
        }
    }
}

/// The step that closes `e`, unless one of the first `at` steps has handed
/// it to a command or closed it.
pub open spec fn closing_unused(steps: Seq<StepView>, at: int, e: EndpointView) -> Seq<StepView> {
    if total(steps.take(at), Count::Uses(e)) == 0 {
        seq![StepView::Close(e)]
    } else {
        Seq::empty()
    }
}

/// The steps that close what the step at position `i` has opened, as far
/// as none of the first `at` steps has handed it to a command or closed
/// it.
pub open spec fn closing_at(steps: Seq<StepView>, at: int, i: int) -> Seq<StepView> {
    match steps[i] {
        StepView::Open { path, append } => closing_unused(steps, at, EndpointView::File(i as nat)),
        StepView::Pipe => closing_unused(steps, at, EndpointView::PipeRead(i as nat))
            + closing_unused(steps, at, EndpointView::PipeWrite(i as nat)),
        _ => Seq::empty(),
    }
}

/// The steps that close what the first `k` steps have opened, as far as
/// none of the first `at` steps has handed it to a command or closed it.
pub open spec fn leftover(steps: Seq<StepView>, at: int, k: int) -> Seq<StepView>
    decreases k,
{
    if k <= 0 {
        Seq::empty()
    } else {
        leftover(steps, at, k - 1) + closing_at(steps, at, k - 1)
    }
}

/// The steps that wait for the `Run` steps among the first `k` steps, the
/// last of them first.
pub open spec fn started(steps: Seq<StepView>, k: int) -> Seq<StepView>
    decreases k,
{
    if k <= 0 {
        Seq::empty()
    } else if steps[k - 1] is Run {
        seq![StepView::Wait((k - 1) as nat)] + started(steps, k - 1)
    } else {
        started(steps, k - 1)
    }
}

/// The steps that take the place of the rest of a plan that is given up
/// after its first `at` steps: what these have opened, and no command has
/// taken over, is closed, and what they have started is waited for.
pub open spec fn abandon_spec(steps: Seq<StepView>, at: int) -> Seq<StepView> {
    leftover(steps, at, at) + started(steps, at)
}

/// What follows the step at position `at` of a plan, which was tried,
/// where `failure` says why it could not be carried out, if it could not.
/// A file that cannot be opened and a pipe that cannot be created end the
/// plan, with a line that names the file, or the pipe, and the reason.
/// Everything else lets the plan go on: a command that fails has reported
/// that itself.
pub open spec fn next_spec(steps: Seq<StepView>, at: int, failure: Option<Seq<char>>) -> NextView {
    match failure {
        None => NextView::Continue,
        Some(why) => if 0 <= at < steps.len() {
            match steps[at] {
                StepView::Open { path, append } => NextView::GiveUp {
                    report: complaint_text(path, why),
                    rest: abandon_spec(steps, at),
                },
                StepView::Pipe => NextView::GiveUp {
                    report: complaint_text("pipe"@, why),
                    rest: abandon_spec(steps, at),
                },
                _ => NextView::Continue,
            }
        } else {
            NextView::Continue
        },
    }
}

/// Whether one of the first `at` steps hands `e` to a command or closes
/// it.
fn handed_out(steps: &Vec<Step>, at: usize, e: Endpoint) -> (r: bool)
    requires
        at <= steps.len(),
    ensures
        r == (total(steps.deep_view().take(at as int), Count::Uses(e@)) > 0),
{
    let mut found = false;
    let mut i: usize = 0;
    while i < at
        invariant
            i <= at <= steps.len(),
            found == (total(steps.deep_view().take(i as int), Count::Uses(e@)) > 0),
        decreases at - i,
    {
        proof {
            let more = steps.deep_view().take(i + 1);
            assert(more.drop_last() =~= steps.deep_view().take(i as int));
            assert(more.last() == steps[i as int]@);
        }
        match &steps[i] {
            Step::Run { name, command, stdin, stdout, stderr } => {
                if *stdin == e || *stdout == e || *stderr == e {
                    found = true;
                }
            },
            Step::Close(closed) => {
                if *closed == e {
                    found = true;
                }
            },
            _ => {},
        }
        i += 1;
    }
    found
}

/// Adds to `rest` the step that closes `e`, unless one of the first `at`
/// steps has handed it to a command or closed it.
fn close_unused(steps: &Vec<Step>, at: usize, e: Endpoint, rest: &mut Vec<Step>)
    requires
        at <= steps.len(),
    ensures
        final(rest).deep_view() == old(rest).deep_view() + closing_unused(
            steps.deep_view(),
            at as int,
            e@,
        ),
{
    let ghost before = rest.deep_view();
    if !handed_out(steps, at, e) {
        rest.push(Step::Close(e));
        assert(rest.deep_view() =~= before + seq![StepView::Close(e@)]);
    } else {
        assert(before + Seq::<StepView>::empty() =~= before);
    }
}

/// The steps that take the place of the rest of the plan `steps` when it
/// is given up after its first `at` steps.
fn abandon(steps: &Vec<Step>, at: usize) -> (rest: Vec<Step>)
    requires
        at <= steps.len(),
    ensures
        rest.deep_view() == abandon_spec(steps.deep_view(), at as int),
{
    let ghost plan = steps.deep_view();
    let mut rest: Vec<Step> = Vec::new();
    assert(rest.deep_view() =~= Seq::<StepView>::empty());
    let mut k: usize = 0;
    while k < at
        invariant
            k <= at <= steps.len(),
            plan == steps.deep_view(),
            rest.deep_view() == leftover(plan, at as int, k as int),
        decreases at - k,
    {
        let ghost before = rest.deep_view();
        match &steps[k] {
            Step::Open { path, append } => {
                close_unused(steps, at, Endpoint::File(k), &mut rest);
            },
            Step::Pipe => {
                close_unused(steps, at, Endpoint::PipeRead(k), &mut rest);
                close_unused(steps, at, Endpoint::PipeWrite(k), &mut rest);
            },
            _ => {},
        }
        assert(rest.deep_view() =~= before + closing_at(plan, at as int, k as int));
        k += 1;
    }
    let ghost closed = rest.deep_view();
    let mut j: usize = at;
    assert(closed + started(plan, at as int) =~= closed + Seq::<StepView>::empty() + started(
        plan,
        at as int,
    ));
    while j > 0
        invariant
            j <= at <= steps.len(),
            plan == steps.deep_view(),
            rest.deep_view() + started(plan, j as int) == closed + started(plan, at as int),
        decreases j,
    {
        let ghost before = rest.deep_view();
        if let Step::Run { name, command, stdin, stdout, stderr } = &steps[j - 1] {
            rest.push(Step::Wait(j - 1));
            assert(rest.deep_view() + started(plan, j - 1) =~= before + started(plan, j as int));
        }
        j -= 1;
    }
    assert(rest.deep_view() + Seq::<StepView>::empty() =~= rest.deep_view());
    rest
}

/// What follows the step at position `at` of the plan `steps`, which was
/// tried, where `failure` says why it could not be carried out, if it
/// could not.
pub fn after_step(steps: &Vec<Step>, at: usize, failure: Option<String>) -> (next: Next)
    ensures
        next@ == next_spec(steps.deep_view(), at as int, text_of(failure)),
{
    match failure {
        None => Next::Continue,
        Some(why) => {
            if at >= steps.len() {
                return Next::Continue;
            }
            match &steps[at] {
                Step::Open { path, append } => Next::GiveUp {
                    report: complaint(path.as_str(), why.as_str()),
                    rest: abandon(steps, at),
                },
                Step::Pipe => Next::GiveUp {
                    report: complaint("pipe", why.as_str()),
                    rest: abandon(steps, at),
                },
                _ => Next::Continue,
            }
        },
    }
}

/// What to count in a plan.
pub enum Count {
    /// The steps that create a pipe.
    Pipes,
    /// The steps that open a file.
    Files,
    /// The steps that run a command.
    Runs,
    /// The times that this file, or this end of a pipe, is handed to a
    /// command or closed.
    Uses(EndpointView),
    /// The steps that wait for the `Run` step at this position.
    Waits(nat),
}

/// One if the two are the same, else zero.
pub open spec fn one_if(same: bool) -> nat {
    if same {
        1
    } else {
        0
    }
}

/// How much one step adds to a count.
pub open spec fn weight(step: StepView, what: Count) -> nat {
    match what {
        Count::Pipes => one_if(step is Pipe),
        Count::Files => one_if(step is Open),
        Count::Runs => one_if(step is Run),
        Count::Uses(e) => match step {
            StepView::Run { name, command, stdin, stdout, stderr } => one_if(stdin == e) + one_if(
                stdout == e,
            ) + one_if(stderr == e),
            StepView::Close(closed) => one_if(closed == e),
            _ => 0,
        },
        Count::Waits(run) => one_if(step == StepView::Wait(run)),
    }
}

/// A count over the steps of a plan.
pub open spec fn total(steps: Seq<StepView>, what: Count) -> nat
    decreases steps.len(),
{
    if steps.len() == 0 {
        0
    } else {
        total(steps.drop_last(), what) + weight(steps.last(), what)
    }
}

/// The number of pipes in a pipeline.
pub open spec fn pipes(e: ExprView) -> nat
    decreases e,
{
    match e {
        ExprView::Command { name, args } => 0,
        ExprView::Redirect { src, stream, dest } => pipes(*src),
        ExprView::Append { src, stream, dest } => pipes(*src),
        ExprView::Pipe { src, dest } => 1 + pipes(*src) + pipes(*dest),
    }
}

/// The number of redirections in a pipeline.
pub open spec fn redirections(e: ExprView) -> nat
    decreases e,
{
    match e {
        ExprView::Command { name, args } => 0,
        ExprView::Redirect { src, stream, dest } => 1 + redirections(*src),
        ExprView::Append { src, stream, dest } => 1 + redirections(*src),
        ExprView::Pipe { src, dest } => redirections(*src) + redirections(*dest),
    }
}

/// The number of commands in a pipeline.
pub open spec fn commands(e: ExprView) -> nat
    decreases e,
{
    match e {
        ExprView::Command { name, args } => 1,
        ExprView::Redirect { src, stream, dest } => commands(*src),
        ExprView::Append { src, stream, dest } => commands(*src),
        ExprView::Pipe { src, dest } => commands(*src) + commands(*dest),
    }
}

/// A count over two runs of steps is the sum of the counts over each.
pub proof fn lemma_total_add(a: Seq<StepView>, b: Seq<StepView>, what: Count)
    ensures
        total(a + b, what) == total(a, what) + total(b, what),
    decreases b.len(),
{
    if b.len() == 0 {
        assert(a + b =~= a);
    } else {
        assert((a + b).drop_last() =~= a + b.drop_last());
        lemma_total_add(a, b.drop_last(), what);
    }
}

/// A count over one step is what the step adds.
pub proof fn lemma_total_one(step: StepView, what: Count)
    ensures
        total(seq![step], what) == weight(step, what),
{
    assert(seq![step].drop_last() =~= Seq::<StepView>::empty());
    assert(total(Seq::<StepView>::empty(), what) == 0);
}

/// A count over three runs of steps is the sum of the counts over each.
pub proof fn lemma_total_three(
    a: Seq<StepView>,
    b: Seq<StepView>,
    c: Seq<StepView>,
    what: Count,
)
    ensures
        total(a + b + c, what) == total(a, what) + total(b, what) + total(c, what),
{
    lemma_total_add(a, b, what);
    lemma_total_add(a + b, c, what);
}

/// Closing adds nothing to the pipes, files and commands of a plan.
pub proof fn lemma_closing_counts(e: EndpointView)
    ensures
        total(closing(e), Count::Pipes) == 0,
        total(closing(e), Count::Files) == 0,
        total(closing(e), Count::Runs) == 0,
{
    if !(e is Inherit) {
        lemma_total_one(StepView::Close(e), Count::Pipes);
        lemma_total_one(StepView::Close(e), Count::Files);
        lemma_total_one(StepView::Close(e), Count::Runs);
    }
}

/// Starting a pipeline creates one pipe for each of its pipes, opens one
/// file for each of its redirections and runs each of its commands once,
/// whatever its streams are.
pub proof fn lemma_steps_counts(
    e: ExprView,
    stdin: EndpointView,
    stdout: EndpointView,
    stderr: EndpointView,
    base: nat,
)
    ensures
        total(steps_of(e, stdin, stdout, stderr, base), Count::Pipes) == pipes(e),
        total(steps_of(e, stdin, stdout, stderr, base), Count::Files) == redirections(e),
        total(steps_of(e, stdin, stdout, stderr, base), Count::Runs) == commands(e),
    decreases e, 1nat,
{
    match e {
        ExprView::Command { name, args } => {
            let run = StepView::Run {
                name,
                command: command_spec(name, args),
                stdin,
                stdout,
                stderr,
            };
            lemma_total_one(run, Count::Pipes);
            lemma_total_one(run, Count::Files);
            lemma_total_one(run, Count::Runs);
        },
        ExprView::Redirect { src, stream, dest } => {
            lemma_file_counts(*src, stream, dest, false, stdin, stdout, stderr, base);
        },
        ExprView::Append { src, stream, dest } => {
            lemma_file_counts(*src, stream, dest, true, stdin, stdout, stderr, base);
        },
        ExprView::Pipe { src, dest } => {
            let first = steps_of(*src, stdin, EndpointView::PipeWrite(base), stderr, base + 1);
            let second = steps_of(
                *dest,
                EndpointView::PipeRead(base),
                stdout,
                EndpointView::Inherit,
                base + 1 + first.len(),
            );
            lemma_steps_counts(*src, stdin, EndpointView::PipeWrite(base), stderr, base + 1);
            lemma_steps_counts(
                *dest,
                EndpointView::PipeRead(base),
                stdout,
                EndpointView::Inherit,
                base + 1 + first.len(),
            );
            let open = seq![StepView::Pipe];
            lemma_total_one(StepView::Pipe, Count::Pipes);
            lemma_total_one(StepView::Pipe, Count::Files);
            lemma_total_one(StepView::Pipe, Count::Runs);
            lemma_total_three(open, first, second, Count::Pipes);
            lemma_total_three(open, first, second, Count::Files);
            lemma_total_three(open, first, second, Count::Runs);
        },
    }
}

/// The counts of the steps that send a stream to a file.
proof fn lemma_file_counts(
    src: ExprView,
    stream: Stream,
    dest: Seq<char>,
    append: bool,
    stdin: EndpointView,
    stdout: EndpointView,
    stderr: EndpointView,
    base: nat,
)
    ensures
        total(
            steps_to_file(src, stream, dest, append, stdin, stdout, stderr, base),
            Count::Pipes,
        ) == pipes(src),
        total(
            steps_to_file(src, stream, dest, append, stdin, stdout, stderr, base),
            Count::Files,
        ) == 1 + redirections(src),
        total(
            steps_to_file(src, stream, dest, append, stdin, stdout, stderr, base),
            Count::Runs,
        ) == commands(src),
    decreases src, 2nat,
{
    let file = EndpointView::File(base);
    let step = StepView::Open { path: dest, append };
    let open = seq![step];
    lemma_total_one(step, Count::Pipes);
    lemma_total_one(step, Count::Files);
    lemma_total_one(step, Count::Runs);
    let (inner, end) = if stream == Stream::Stderr {
        lemma_steps_counts(src, stdin, stdout, file, base + 1);
        (steps_of(src, stdin, stdout, file, base + 1), closing(stderr))
    } else {
        lemma_steps_counts(src, stdin, file, stderr, base + 1);
        (steps_of(src, stdin, file, stderr, base + 1), closing(stdout))
    };
    lemma_closing_counts(stderr);
    lemma_closing_counts(stdout);
    lemma_total_three(open, inner, end, Count::Pipes);
    lemma_total_three(open, inner, end, Count::Files);
    lemma_total_three(open, inner, end, Count::Runs);
}

/// Waiting adds nothing to the pipes, files and commands of a plan.
pub proof fn lemma_wait_counts(runs: Seq<nat>)
    ensures
        total(wait_steps(runs), Count::Pipes) == 0,
        total(wait_steps(runs), Count::Files) == 0,
        total(wait_steps(runs), Count::Runs) == 0,
        forall|e: EndpointView| #[trigger] total(wait_steps(runs), Count::Uses(e)) == 0,
    decreases runs.len(),
{
    if runs.len() > 0 {
        lemma_wait_counts(runs.drop_last());
        assert(wait_steps(runs).drop_last() =~= wait_steps(runs.drop_last()));
        assert forall|e: EndpointView| #[trigger]
            total(wait_steps(runs), Count::Uses(e)) == 0 by {
            assert(total(wait_steps(runs.drop_last()), Count::Uses(e)) == 0);
        }
    } else {
        assert forall|e: EndpointView| #[trigger]
            total(wait_steps(runs), Count::Uses(e)) == 0 by {}
    }
}

/// The plan of a pipeline creates one pipe for each of its pipes, opens
/// one file for each of its redirections and runs each of its commands
/// once.
pub proof fn lemma_plan_counts(e: ExprView)
    ensures
        total(plan_spec(e), Count::Pipes) == pipes(e),
        total(plan_spec(e), Count::Files) == redirections(e),
        total(plan_spec(e), Count::Runs) == commands(e),
{
    let i = EndpointView::Inherit;
    lemma_steps_counts(e, i, i, i, 0);
    lemma_wait_counts(waits_of(e, i, i, i, 0));
    lemma_total_add(start_spec(e), wait_steps(waits_of(e, i, i, i, 0)), Count::Pipes);
    lemma_total_add(start_spec(e), wait_steps(waits_of(e, i, i, i, 0)), Count::Files);
    lemma_total_add(start_spec(e), wait_steps(waits_of(e, i, i, i, 0)), Count::Runs);
}

/// A line that holds words only, with neither pipe nor redirection, is one
/// command: its plan creates no pipe, opens no file, and runs one command
/// with the streams of the interpreter.
pub proof fn lemma_plain_line(tokens: Seq<TokenView>)
    requires
        forall|i: int| 0 <= i < tokens.len() ==> #[trigger] tokens[i] is Literal,
        parse_spec(tokens) is Ok,
    ensures
        parse_spec(tokens)->Ok_0 is Command,
        total(plan_spec(parse_spec(tokens)->Ok_0), Count::Pipes) == 0,
        total(plan_spec(parse_spec(tokens)->Ok_0), Count::Files) == 0,
        total(plan_spec(parse_spec(tokens)->Ok_0), Count::Runs) == 1,
        plan_spec(parse_spec(tokens)->Ok_0)[0] matches StepView::Run {
            name,
            command,
            stdin,
            stdout,
            stderr,
        } && stdin is Inherit && stdout is Inherit && stderr is Inherit,
{
    let (first, end) = parse_command(tokens, 0)->Ok_0;
    lemma_words_end_bounds(tokens, 1);
    if end < tokens.len() {
        assert(tokens[end] is Literal);
    }
    assert(parse_rest(tokens, end, first) == Ok::<ExprView, crate::parser::ParseError>(first));
    lemma_plan_counts(first);
}

/// The position of the step that opens `e`, unless `e` is a stream of the
/// interpreter.
pub open spec fn position_of(e: EndpointView) -> Option<nat> {
    match e {
        EndpointView::Inherit => None,
        EndpointView::PipeRead(i) => Some(i),
        EndpointView::PipeWrite(i) => Some(i),
        EndpointView::File(i) => Some(i),
    }
}

/// `e` is a stream of the interpreter, or was opened before position
/// `base`.
pub open spec fn older(e: EndpointView, base: nat) -> bool {
    match position_of(e) {
        Some(i) => i < base,
        None => true,
    }
}

/// The two are not the same file or the same end of a pipe.
pub open spec fn apart(a: EndpointView, b: EndpointView) -> bool {
    a is Inherit || b is Inherit || a != b
}

/// The step, which stands at position `at`, opens `e`.
pub open spec fn opens(step: StepView, at: nat, e: EndpointView) -> bool {
    (step is Open && e == EndpointView::File(at)) || (step is Pipe && (e
        == EndpointView::PipeRead(at) || e == EndpointView::PipeWrite(at)))
}

/// How often `e` has to be handed to a command or closed by steps that
/// stand from position `base` on and were given the three streams: once if
/// it is one of the three or if one of the steps opens it, else never.
pub open spec fn due(
    steps: Seq<StepView>,
    stdin: EndpointView,
    stdout: EndpointView,
    stderr: EndpointView,
    base: nat,
    e: EndpointView,
) -> nat {
    match position_of(e) {
        Some(i) => if i < base {
            one_if(e == stdin || e == stdout || e == stderr)
        } else if i < base + steps.len() {
            one_if(opens(steps[i - base], i, e))
        } else {
            0
        },
        None => 0,
    }
}

/// The steps that start a pipeline hand each of the streams they were
/// given, and each file and end of a pipe that they open, to one command,
/// or close it, once; and they hand out or close nothing else.
pub proof fn lemma_steps_uses(
    e: ExprView,
    stdin: EndpointView,
    stdout: EndpointView,
    stderr: EndpointView,
    base: nat,
)
    requires
        older(stdin, base),
        older(stdout, base),
        older(stderr, base),
        apart(stdin, stdout),
        apart(stdin, stderr),
        apart(stdout, stderr),
    ensures
        forall|x: EndpointView|
            !(x is Inherit) ==> #[trigger] total(
                steps_of(e, stdin, stdout, stderr, base),
                Count::Uses(x),
            ) == due(steps_of(e, stdin, stdout, stderr, base), stdin, stdout, stderr, base, x),
    decreases e, 1nat,
{
    let steps = steps_of(e, stdin, stdout, stderr, base);
    match e {
        ExprView::Command { name, args } => {
            let run = StepView::Run {
                name,
                command: command_spec(name, args),
                stdin,
                stdout,
                stderr,
            };
            assert(steps =~= seq![run]);
            assert forall|x: EndpointView| !(x is Inherit) implies #[trigger] total(
                steps,
                Count::Uses(x),
            ) == due(steps, stdin, stdout, stderr, base, x) by {
                lemma_total_one(run, Count::Uses(x));
            }
        },
        ExprView::Redirect { src, stream, dest } => {
            lemma_file_uses(*src, stream, dest, false, stdin, stdout, stderr, base);
            assert(steps == steps_to_file(
                *src,
                stream,
                dest,
                false,
                stdin,
                stdout,
                stderr,
                base,
            ));
        },
        ExprView::Append { src, stream, dest } => {
            lemma_file_uses(*src, stream, dest, true, stdin, stdout, stderr, base);
            assert(steps == steps_to_file(*src, stream, dest, true, stdin, stdout, stderr, base));
        },
        ExprView::Pipe { src, dest } => {
            let write = EndpointView::PipeWrite(base);
            let read = EndpointView::PipeRead(base);
            let none = EndpointView::Inherit;
            let first = steps_of(*src, stdin, write, stderr, base + 1);
            let at = base + 1 + first.len();
            let second = steps_of(*dest, read, stdout, none, at);
            lemma_steps_uses(*src, stdin, write, stderr, base + 1);
            lemma_steps_uses(*dest, read, stdout, none, at);
            let open = seq![StepView::Pipe];
            assert(steps =~= open + first + second);
            assert forall|x: EndpointView| !(x is Inherit) implies #[trigger] total(
                steps,
                Count::Uses(x),
            ) == due(steps, stdin, stdout, stderr, base, x) by {
                lemma_total_one(StepView::Pipe, Count::Uses(x));
                lemma_total_three(open, first, second, Count::Uses(x));
                assert(total(first, Count::Uses(x)) == due(
                    first,
                    stdin,
                    write,
                    stderr,
                    base + 1,
                    x,
                ));
                assert(total(second, Count::Uses(x)) == due(second, read, stdout, none, at, x));
                let i = position_of(x)->0;
                if base < i < at {
                    assert(steps[i - base] == first[i - (base + 1)]);
                } else if at <= i < at + second.len() {
                    assert(steps[i - base] == second[i - at]);
                }
            }
        },
    }
}

/// What `lemma_steps_uses` says, of the steps that send a stream to a file.
proof fn lemma_file_uses(
    src: ExprView,
    stream: Stream,
    dest: Seq<char>,
    append: bool,
    stdin: EndpointView,
    stdout: EndpointView,
    stderr: EndpointView,
    base: nat,
)
    requires
        older(stdin, base),
        older(stdout, base),
        older(stderr, base),
        apart(stdin, stdout),
        apart(stdin, stderr),
        apart(stdout, stderr),
    ensures
        forall|x: EndpointView|
            !(x is Inherit) ==> #[trigger] total(
                steps_to_file(src, stream, dest, append, stdin, stdout, stderr, base),
                Count::Uses(x),
            ) == due(
                steps_to_file(src, stream, dest, append, stdin, stdout, stderr, base),
                stdin,
                stdout,
                stderr,
                base,
                x,
            ),
    decreases src, 2nat,
{
    let steps = steps_to_file(src, stream, dest, append, stdin, stdout, stderr, base);
    let file = EndpointView::File(base);
    let step = StepView::Open { path: dest, append };
    let open = seq![step];
    let (out, err, replaced) = if stream == Stream::Stderr {
        (stdout, file, stderr)
    } else {
        (file, stderr, stdout)
    };
    let inner = steps_of(src, stdin, out, err, base + 1);
    let end = closing(replaced);
    lemma_steps_uses(src, stdin, out, err, base + 1);
    assert(steps =~= open + inner + end);
    assert forall|x: EndpointView| !(x is Inherit) implies #[trigger] total(
        steps,
        Count::Uses(x),
    ) == due(steps, stdin, stdout, stderr, base, x) by {
        lemma_total_one(step, Count::Uses(x));
        lemma_total_three(open, inner, end, Count::Uses(x));
        assert(total(inner, Count::Uses(x)) == due(inner, stdin, out, err, base + 1, x));
        if !(replaced is Inherit) {
            lemma_total_one(StepView::Close(replaced), Count::Uses(x));
        } else {
            assert(total(end, Count::Uses(x)) == 0);
        }
        let i = position_of(x)->0;
        if base < i < base + 1 + inner.len() {
            assert(steps[i - base] == inner[i - (base + 1)]);
        } else if i == base + 1 + inner.len() && i < base + steps.len() {
            assert(steps[i - base] == StepView::Close(replaced));
        }
    }
}

/// In the plan of a pipeline, each file that is opened and each end of
/// each pipe that is created is handed to one command, or closed, once;
/// and nothing else is handed out or closed.
pub proof fn lemma_plan_uses(e: ExprView)
    ensures
        forall|x: EndpointView|
            !(x is Inherit) ==> #[trigger] total(plan_spec(e), Count::Uses(x)) == one_if(
                position_of(x)->0 < plan_spec(e).len() && opens(
                    plan_spec(e)[position_of(x)->0 as int],
                    position_of(x)->0,
                    x,
                ),
            ),
{
    let i = EndpointView::Inherit;
    let start = start_spec(e);
    let waits = wait_steps(waits_of(e, i, i, i, 0));
    lemma_steps_uses(e, i, i, i, 0);
    lemma_wait_counts(waits_of(e, i, i, i, 0));
    assert forall|x: EndpointView| !(x is Inherit) implies #[trigger] total(
        plan_spec(e),
        Count::Uses(x),
    ) == one_if(
        position_of(x)->0 < plan_spec(e).len() && opens(
            plan_spec(e)[position_of(x)->0 as int],
            position_of(x)->0,
            x,
        ),
    ) by {
        lemma_total_add(start, waits, Count::Uses(x));
        assert(total(start, Count::Uses(x)) == due(start, i, i, i, 0, x));
        assert(total(waits, Count::Uses(x)) == 0);
        let at = position_of(x)->0;
        if at < start.len() {
            assert(plan_spec(e)[at as int] == start[at as int]);
        } else if at < plan_spec(e).len() {
            assert(plan_spec(e)[at as int] == waits[at - start.len()]);
        }
    }
}

/// The steps that start a pipeline wait for nothing.
pub proof fn lemma_steps_wait_for_nothing(
    e: ExprView,
    stdin: EndpointView,
    stdout: EndpointView,
    stderr: EndpointView,
    base: nat,
    run: nat,
)
    ensures
        total(steps_of(e, stdin, stdout, stderr, base), Count::Waits(run)) == 0,
    decreases e, 1nat,
{
    let what = Count::Waits(run);
    match e {
        ExprView::Command { name, args } => {
            lemma_total_one(
                StepView::Run { name, command: command_spec(name, args), stdin, stdout, stderr },
                what,
            );
        },
        ExprView::Redirect { src, stream, dest } => {
            lemma_file_waits_for_nothing(*src, stream, dest, false, stdin, stdout, stderr, base, run);
        },
        ExprView::Append { src, stream, dest } => {
            lemma_file_waits_for_nothing(*src, stream, dest, true, stdin, stdout, stderr, base, run);
        },
        ExprView::Pipe { src, dest } => {
            let first = steps_of(*src, stdin, EndpointView::PipeWrite(base), stderr, base + 1);
            let at = base + 1 + first.len();
            let second = steps_of(
                *dest,
                EndpointView::PipeRead(base),
                stdout,
                EndpointView::Inherit,
                at,
            );
            lemma_steps_wait_for_nothing(
                *src,
                stdin,
                EndpointView::PipeWrite(base),
                stderr,
                base + 1,
                run,
            );
            lemma_steps_wait_for_nothing(
                *dest,
                EndpointView::PipeRead(base),
                stdout,
                EndpointView::Inherit,
                at,
                run,
            );
            lemma_total_one(StepView::Pipe, what);
            lemma_total_three(seq![StepView::Pipe], first, second, what);
        },
    }
}

/// What `lemma_steps_wait_for_nothing` says, of the steps that send a
/// stream to a file.
proof fn lemma_file_waits_for_nothing(
    src: ExprView,
    stream: Stream,
    dest: Seq<char>,
    append: bool,
    stdin: EndpointView,
    stdout: EndpointView,
    stderr: EndpointView,
    base: nat,
    run: nat,
)
    ensures
        total(
            steps_to_file(src, stream, dest, append, stdin, stdout, stderr, base),
            Count::Waits(run),
        ) == 0,
    decreases src, 2nat,
{
    let what = Count::Waits(run);
    let file = EndpointView::File(base);
    let step = StepView::Open { path: dest, append };
    let (out, err, replaced) = if stream == Stream::Stderr {
        (stdout, file, stderr)
    } else {
        (file, stderr, stdout)
    };
    let inner = steps_of(src, stdin, out, err, base + 1);
    lemma_steps_wait_for_nothing(src, stdin, out, err, base + 1, run);
    lemma_total_one(step, what);
    if !(replaced is Inherit) {
        lemma_total_one(StepView::Close(replaced), what);
    }
    lemma_total_three(seq![step], inner, closing(replaced), what);
}

/// Waiting for two runs of positions is waiting for the first, then for
/// the second.
pub proof fn lemma_wait_steps_add(a: Seq<nat>, b: Seq<nat>)
    ensures
        wait_steps(a + b) == wait_steps(a) + wait_steps(b),
{
    assert(wait_steps(a + b) =~= wait_steps(a) + wait_steps(b));
}

/// The positions that a pipeline gives for waiting are those of its `Run`
/// steps, each once.
pub proof fn lemma_waits(
    e: ExprView,
    stdin: EndpointView,
    stdout: EndpointView,
    stderr: EndpointView,
    base: nat,
    run: nat,
)
    ensures
        total(wait_steps(waits_of(e, stdin, stdout, stderr, base)), Count::Waits(run)) == one_if(
            base <= run < base + steps_of(e, stdin, stdout, stderr, base).len() && steps_of(
                e,
                stdin,
                stdout,
                stderr,
                base,
            )[run - base] is Run,
        ),
    decreases e, 1nat,
{
    let what = Count::Waits(run);
    let steps = steps_of(e, stdin, stdout, stderr, base);
    match e {
        ExprView::Command { name, args } => {
            assert(wait_steps(seq![base]) =~= seq![StepView::Wait(base)]);
            lemma_total_one(StepView::Wait(base), what);
        },
        ExprView::Redirect { src, stream, dest } => {
            lemma_file_waits(*src, stream, dest, false, stdin, stdout, stderr, base, run);
        },
        ExprView::Append { src, stream, dest } => {
            lemma_file_waits(*src, stream, dest, true, stdin, stdout, stderr, base, run);
        },
        ExprView::Pipe { src, dest } => {
            let write = EndpointView::PipeWrite(base);
            let read = EndpointView::PipeRead(base);
            let none = EndpointView::Inherit;
            let first = steps_of(*src, stdin, write, stderr, base + 1);
            let at = base + 1 + first.len();
            let second = steps_of(*dest, read, stdout, none, at);
            lemma_waits(*src, stdin, write, stderr, base + 1, run);
            lemma_waits(*dest, read, stdout, none, at, run);
            let near = waits_of(*src, stdin, write, stderr, base + 1);
            let far = waits_of(*dest, read, stdout, none, at);
            lemma_wait_steps_add(far, near);
            lemma_total_add(wait_steps(far), wait_steps(near), what);
            assert(steps =~= seq![StepView::Pipe] + first + second);
            if base < run < at {
                assert(steps[run - base] == first[run - (base + 1)]);
            } else if at <= run < at + second.len() {
                assert(steps[run - base] == second[run - at]);
            }
        },
    }
}

/// What `lemma_waits` says, of the steps that send a stream to a file.
proof fn lemma_file_waits(
    src: ExprView,
    stream: Stream,
    dest: Seq<char>,
    append: bool,
    stdin: EndpointView,
    stdout: EndpointView,
    stderr: EndpointView,
    base: nat,
    run: nat,
)
    ensures
        total(
            wait_steps(waits_to_file(src, stream, stdin, stdout, stderr, base)),
            Count::Waits(run),
        ) == one_if(
            base <= run < base + steps_to_file(
                src,
                stream,
                dest,
                append,
                stdin,
                stdout,
                stderr,
                base,
            ).len() && steps_to_file(src, stream, dest, append, stdin, stdout, stderr, base)[run
                - base] is Run,
        ),
    decreases src, 2nat,
{
    let steps = steps_to_file(src, stream, dest, append, stdin, stdout, stderr, base);
    let file = EndpointView::File(base);
    let (out, err, replaced) = if stream == Stream::Stderr {
        (stdout, file, stderr)
    } else {
        (file, stderr, stdout)
    };
    lemma_waits(src, stdin, out, err, base + 1, run);
    let inner = steps_of(src, stdin, out, err, base + 1);
    assert(steps =~= seq![StepView::Open { path: dest, append }] + inner + closing(replaced));
    if base < run < base + 1 + inner.len() {
        assert(steps[run - base] == inner[run - (base + 1)]);
    }
}

/// The plan of a pipeline waits once for each command that it runs, after
/// it has started them all, and for nothing else.
pub proof fn lemma_plan_waits(e: ExprView, run: nat)
    ensures
        total(plan_spec(e), Count::Waits(run)) == one_if(
            run < start_spec(e).len() && plan_spec(e)[run as int] is Run,
        ),
        forall|k: int| 0 <= k < start_spec(e).len() ==> !(#[trigger] plan_spec(e)[k] is Wait),
        forall|k: int|
            start_spec(e).len() <= k < plan_spec(e).len() ==> #[trigger] plan_spec(e)[k] is Wait,
{
    let i = EndpointView::Inherit;
    let start = start_spec(e);
    let waits = wait_steps(waits_of(e, i, i, i, 0));
    lemma_steps_wait_for_nothing(e, i, i, i, 0, run);
    lemma_waits(e, i, i, i, 0, run);
    lemma_total_add(start, waits, Count::Waits(run));
    if run < start.len() {
        assert(plan_spec(e)[run as int] == start[run as int]);
    }
    assert forall|k: int| 0 <= k < start.len() implies !(#[trigger] plan_spec(e)[k] is Wait) by {
        lemma_steps_hold_no_wait(e, i, i, i, 0, k);
        assert(plan_spec(e)[k] == start[k]);
    }
    assert forall|k: int| start.len() <= k < plan_spec(e).len() implies #[trigger] plan_spec(
        e,
    )[k] is Wait by {
        assert(plan_spec(e)[k] == waits[k - start.len()]);
    }
}

/// None of the steps that start a pipeline is a `Wait` step.
pub proof fn lemma_steps_hold_no_wait(
    e: ExprView,
    stdin: EndpointView,
    stdout: EndpointView,
    stderr: EndpointView,
    base: nat,
    k: int,
)
    requires
        0 <= k < steps_of(e, stdin, stdout, stderr, base).len(),
    ensures
        !(steps_of(e, stdin, stdout, stderr, base)[k] is Wait),
    decreases e, 1nat,
{
    let steps = steps_of(e, stdin, stdout, stderr, base);
    match e {
        ExprView::Command { name, args } => {},
        ExprView::Redirect { src, stream, dest } => {
            lemma_file_holds_no_wait(*src, stream, dest, false, stdin, stdout, stderr, base, k);
        },
        ExprView::Append { src, stream, dest } => {
            lemma_file_holds_no_wait(*src, stream, dest, true, stdin, stdout, stderr, base, k);
        },
        ExprView::Pipe { src, dest } => {
            let write = EndpointView::PipeWrite(base);
            let read = EndpointView::PipeRead(base);
            let none = EndpointView::Inherit;
            let first = steps_of(*src, stdin, write, stderr, base + 1);
            let at = base + 1 + first.len();
            let second = steps_of(*dest, read, stdout, none, at);
            assert(steps =~= seq![StepView::Pipe] + first + second);
            if 1 <= k < 1 + first.len() {
                lemma_steps_hold_no_wait(*src, stdin, write, stderr, base + 1, k - 1);
                assert(steps[k] == first[k - 1]);
            } else if k >= 1 + first.len() {
                lemma_steps_hold_no_wait(*dest, read, stdout, none, at, k - 1 - first.len());
                assert(steps[k] == second[k - 1 - first.len()]);
            }
        },
    }
}

/// What `lemma_steps_hold_no_wait` says, of the steps that send a stream
/// to a file.
proof fn lemma_file_holds_no_wait(
    src: ExprView,
    stream: Stream,
    dest: Seq<char>,
    append: bool,
    stdin: EndpointView,
    stdout: EndpointView,
    stderr: EndpointView,
    base: nat,
    k: int,
)
    requires
        0 <= k < steps_to_file(src, stream, dest, append, stdin, stdout, stderr, base).len(),
    ensures
        !(steps_to_file(src, stream, dest, append, stdin, stdout, stderr, base)[k] is Wait),
    decreases src, 2nat,
{
    let steps = steps_to_file(src, stream, dest, append, stdin, stdout, stderr, base);
    let file = EndpointView::File(base);
    let (out, err, replaced) = if stream == Stream::Stderr {
        (stdout, file, stderr)
    } else {
        (file, stderr, stdout)
    };
    let inner = steps_of(src, stdin, out, err, base + 1);
    assert(steps =~= seq![StepView::Open { path: dest, append }] + inner + closing(replaced));
    if 1 <= k < 1 + inner.len() {
        lemma_steps_hold_no_wait(src, stdin, out, err, base + 1, k - 1);
        assert(steps[k] == inner[k - 1]);
    }
}

/// What the steps that close the leftovers of the first `k` steps add to
/// a count: nothing but one use of each file and end of a pipe that these
/// steps have opened and none of the first `at` steps has handed out or
/// closed.
pub proof fn lemma_leftover(steps: Seq<StepView>, at: int, k: int, what: Count)
    requires
        0 <= k <= at <= steps.len(),
    ensures
        total(leftover(steps, at, k), what) == match what {
            Count::Uses(x) => one_if(
                position_of(x) matches Some(i) && i < k && opens(steps[i as int], i, x) && total(
                    steps.take(at),
                    Count::Uses(x),
                ) == 0,
            ),
            _ => 0,
        },
    decreases k,
{
    if k > 0 {
        let i = k - 1;
        lemma_leftover(steps, at, i, what);
        lemma_total_add(leftover(steps, at, i), closing_at(steps, at, i), what);
        let file = EndpointView::File(i as nat);
        let read = EndpointView::PipeRead(i as nat);
        let write = EndpointView::PipeWrite(i as nat);
        lemma_total_add(closing_unused(steps, at, read), closing_unused(steps, at, write), what);
        lemma_total_one(StepView::Close(file), what);
        lemma_total_one(StepView::Close(read), what);
        lemma_total_one(StepView::Close(write), what);
        assert(total(Seq::<StepView>::empty(), what) == 0);
    }
}

/// What the steps that wait for the `Run` steps among the first `k` steps
/// add to a count: nothing but one wait for each of these `Run` steps.
pub proof fn lemma_started(steps: Seq<StepView>, k: int, what: Count)
    requires
        0 <= k <= steps.len(),
    ensures
        total(started(steps, k), what) == match what {
            Count::Waits(run) => one_if(run < k && steps[run as int] is Run),
            _ => 0,
        },
    decreases k,
{
    if k > 0 {
        lemma_started(steps, k - 1, what);
        if steps[k - 1] is Run {
            let wait = StepView::Wait((k - 1) as nat);
            lemma_total_one(wait, what);
            lemma_total_add(seq![wait], started(steps, k - 1), what);
        }
    }
}

/// The steps that take the place of a plan that is given up create no
/// pipe, open no file and run no command; they wait once for each command
/// that was run before.
pub proof fn lemma_abandon(steps: Seq<StepView>, at: int, run: nat)
    requires
        0 <= at <= steps.len(),
    ensures
        total(abandon_spec(steps, at), Count::Pipes) == 0,
        total(abandon_spec(steps, at), Count::Files) == 0,
        total(abandon_spec(steps, at), Count::Runs) == 0,
        total(abandon_spec(steps, at), Count::Waits(run)) == one_if(
            run < at && steps[run as int] is Run,
        ),
{
    let close = leftover(steps, at, at);
    let wait = started(steps, at);
    lemma_leftover(steps, at, at, Count::Pipes);
    lemma_leftover(steps, at, at, Count::Files);
    lemma_leftover(steps, at, at, Count::Runs);
    lemma_leftover(steps, at, at, Count::Waits(run));
    lemma_started(steps, at, Count::Pipes);
    lemma_started(steps, at, Count::Files);
    lemma_started(steps, at, Count::Runs);
    lemma_started(steps, at, Count::Waits(run));
    lemma_total_add(close, wait, Count::Pipes);
    lemma_total_add(close, wait, Count::Files);
    lemma_total_add(close, wait, Count::Runs);
    lemma_total_add(close, wait, Count::Waits(run));
}

/// Where the plan of a pipeline is given up after its first `at` steps,
/// each file and each end of a pipe that these steps have opened is still
/// handed to one command, or closed, once: by these steps, or by the steps
/// that take the place of the rest.
pub proof fn lemma_give_up_uses(e: ExprView, at: int, x: EndpointView)
    requires
        0 <= at <= plan_spec(e).len(),
        position_of(x) matches Some(i) && i < at && opens(plan_spec(e)[i as int], i, x),
    ensures
        total(plan_spec(e).take(at) + abandon_spec(plan_spec(e), at), Count::Uses(x)) == 1,
{
    let plan = plan_spec(e);
    let what = Count::Uses(x);
    let done = plan.take(at);
    lemma_plan_uses(e);
    assert(total(plan, what) == 1);
    assert(plan =~= done + plan.skip(at));
    lemma_total_add(done, plan.skip(at), what);
    lemma_leftover(plan, at, at, what);
    lemma_started(plan, at, what);
    lemma_total_add(leftover(plan, at, at), started(plan, at), what);
    lemma_total_add(done, abandon_spec(plan, at), what);
}

} // verus!
